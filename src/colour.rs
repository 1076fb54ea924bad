//! Colour values and their conversion to and from the protocol's 16-bit wire words.
use vstd::prelude::*;
use vstd::arithmetic::div_mod::{
    lemma_div_is_ordered,
    lemma_fundamental_div_mod,
    lemma_fundamental_div_mod_converse,
};
use vstd::string::StrSliceExecFns;
use vstd::string::StringExecFns;

use crate::request::RequestBin;
use crate::wire::{be_bytes, be_value, lemma_be_bytes_value, lemma_pow_values};

verus! {

/// A colour as hue (degrees), saturation (percent) and brightness (percent),
/// also known as HSV. Not the HSL of CSS.
#[derive(Debug, Clone, Copy, PartialEq, Eq, Structural)]
pub struct HSB {
    pub hue: u16,
    pub saturation: u8,
    pub brightness: u8,
}

/// A colour as red, green and blue channels.
#[derive(Debug, Clone, Copy, PartialEq, Eq, Structural)]
pub struct RGB {
    pub red: u8,
    pub green: u8,
    pub blue: u8,
}

/// A colour as hue, saturation, brightness and kelvin; the kelvin (white
/// temperature) matters only for whites.
#[derive(Debug, Clone, Copy, PartialEq, Eq, Structural)]
pub struct HSBK {
    pub hue: u16,
    pub saturation: u8,
    pub brightness: u8,
    pub kelvin: u16,
}

impl HSB {
    /// A colour from its hue, saturation and brightness.
    pub fn new(h: u16, s: u8, b: u8) -> (r: HSB)
        ensures
            r == (HSB { hue: h, saturation: s, brightness: b }),
    {
        HSB { hue: h, saturation: s, brightness: b }
    }

    /// Hue within [0, 360], saturation and brightness within [0, 100].
    pub open spec fn in_range(self) -> bool {
        self.hue <= 360 && self.saturation <= 100 && self.brightness <= 100
    }
}

impl From<HSBK> for HSB {
    fn from(c: HSBK) -> (r: HSB) {
        HSB::new(c.hue, c.saturation, c.brightness)
    }
}

impl vstd::std_specs::convert::FromSpecImpl<HSBK> for HSB {
    open spec fn obeys_from_spec() -> bool {
        true
    }

    open spec fn from_spec(c: HSBK) -> HSB {
        HSB { hue: c.hue, saturation: c.saturation, brightness: c.brightness }
    }
}

/// The largest wire word.
pub const WORD_SIZE: u32 = 65535;

/// The largest hue in degrees.
pub const DEGREES_UBOUND: u32 = 360;

/// The largest saturation or brightness in percent.
pub const PERCENT_UBOUND: u32 = 100;

/// `degrees * 65535 / 360`, rounded to the nearest integer (halves up).
pub open spec fn hue_word(degrees: nat) -> nat {
    (2 * degrees * 65535 + 360) / 720
}

/// `word * 360 / 65535`, rounded down.
pub open spec fn word_degrees(word: nat) -> nat {
    word * 360 / 65535
}

/// `percent * 65535 / 100`, rounded to the nearest integer (halves up).
pub open spec fn percent_word(percent: nat) -> nat {
    (2 * percent * 65535 + 100) / 200
}

/// `word * 100 / 65535`, rounded down.
pub open spec fn word_percent(word: nat) -> nat {
    word * 100 / 65535
}

/// The wire word of a hue, as two bytes, most significant first.
pub fn hue_degrees_to_word(degrees: u16) -> (r: [u8; 2])
    requires
        degrees <= 360,
    ensures
        r@ == be_bytes(hue_word(degrees as nat), 2),
        be_value(r@) == hue_word(degrees as nat),
        hue_word(degrees as nat) <= 65535,
{
    let w: u32 = (2 * (degrees as u32) * WORD_SIZE + DEGREES_UBOUND) / (2 * DEGREES_UBOUND);
    assert(w <= 65535) by (nonlinear_arith)
        requires
            w == (2 * degrees * 65535 + 360) / 720,
            degrees <= 360,
    ;
    proof {
        lemma_pow_values();
        lemma_be_bytes_value(w as nat, 2);
    }
    RequestBin::u16_to_u8_array(w as u16)
}

/// The hue in whole degrees of a wire word.
pub fn hue_word_to_degrees(word: u16) -> (r: u16)
    ensures
        r == word_degrees(word as nat),
        r <= 360,
{
    (word as u32 * DEGREES_UBOUND / WORD_SIZE) as u16
}

/// The wire word of a saturation, as two bytes, most significant first.
pub fn saturation_percent_to_word(percent: u8) -> (r: [u8; 2])
    requires
        percent <= 100,
    ensures
        r@ == be_bytes(percent_word(percent as nat), 2),
        be_value(r@) == percent_word(percent as nat),
        percent_word(percent as nat) <= 65535,
{
    let w: u32 = (2 * (percent as u32) * WORD_SIZE + PERCENT_UBOUND) / (2 * PERCENT_UBOUND);
    assert(w <= 65535) by (nonlinear_arith)
        requires
            w == (2 * percent * 65535 + 100) / 200,
            percent <= 100,
    ;
    proof {
        lemma_pow_values();
        lemma_be_bytes_value(w as nat, 2);
    }
    RequestBin::u16_to_u8_array(w as u16)
}

/// The saturation in whole percent of a wire word.
pub fn saturation_word_to_percent(word: u16) -> (r: u8)
    ensures
        r == word_percent(word as nat),
        r <= 100,
{
    (word as u32 * PERCENT_UBOUND / WORD_SIZE) as u8
}

/// The wire word of a brightness, as two bytes, most significant first.
pub fn brightness_percent_to_word(percent: u8) -> (r: [u8; 2])
    requires
        percent <= 100,
    ensures
        r@ == be_bytes(percent_word(percent as nat), 2),
        be_value(r@) == percent_word(percent as nat),
        percent_word(percent as nat) <= 65535,
{
    saturation_percent_to_word(percent)
}

/// The brightness in whole percent of a wire word.
pub fn brightness_word_to_percent(word: u16) -> (r: u8)
    ensures
        r == word_percent(word as nat),
        r <= 100,
{
    (word as u32 * PERCENT_UBOUND / WORD_SIZE) as u8
}

/// Converting a hue to its wire word and back loses at most one degree (the
/// forward direction rounds, the backward one truncates), and the result
/// stays within [0, 360].
pub proof fn lemma_hue_round_trip(d: nat)
    requires
        d <= 360,
    ensures
        word_degrees(hue_word(d)) == d || word_degrees(hue_word(d)) + 1 == d,
        word_degrees(hue_word(d)) <= 360,
{
    let w = hue_word(d);
    assert(720 * w <= 131070 * d + 360 < 720 * w + 720);
    assert(65535 * d - 180 < 360 * w <= 65535 * d + 180);
}

/// The largest of three channels.
pub open spec fn max3(r: int, g: int, b: int) -> int {
    if r >= g && r >= b {
        r
    } else if g >= b {
        g
    } else {
        b
    }
}

/// The smallest of three channels.
pub open spec fn min3(r: int, g: int, b: int) -> int {
    if r <= g && r <= b {
        r
    } else if g <= b {
        g
    } else {
        b
    }
}

/// The hue in whole degrees of an RGB colour: the standard max/min-channel
/// derivation, rounded down into [0, 360). Where several channels share the
/// maximum, red is tried first, then green, then blue; a grey has hue 0.
pub open spec fn rgb_hue(r: int, g: int, b: int) -> int {
    let d = max3(r, g, b) - min3(r, g, b);
    if d == 0 {
        0
    } else if r == max3(r, g, b) {
        (60 * (g - b) / d) % 360
    } else if g == max3(r, g, b) {
        60 * (b - r) / d + 120
    } else {
        60 * (r - g) / d + 240
    }
}

/// The saturation in whole percent of an RGB colour; 0 for black.
pub open spec fn rgb_saturation(r: int, g: int, b: int) -> int {
    let mx = max3(r, g, b);
    if mx == 0 {
        0
    } else {
        100 * (mx - min3(r, g, b)) / mx
    }
}

/// The brightness in whole percent of an RGB colour.
pub open spec fn rgb_brightness(r: int, g: int, b: int) -> int {
    100 * max3(r, g, b) / 255
}

/// Adding `k` multiples of the divisor adds `k` to the quotient.
proof fn lemma_div_shift(x: int, k: int, d: int)
    requires
        d > 0,
    ensures
        (x + k * d) / d == x / d + k,
{
    lemma_fundamental_div_mod(x, d);
    let q = x / d;
    let m = x % d;
    assert(x + k * d == (q + k) * d + m) by (nonlinear_arith)
        requires
            x == d * q + m,
    ;
    lemma_fundamental_div_mod_converse(x + k * d, d, q + k, m);
}

/// `c * n / d` stays within [-c, c] when `n` is within [-d, d].
proof fn lemma_scaled_fraction_bound(c: int, n: int, d: int)
    requires
        d > 0,
        -d <= n <= d,
        c >= 0,
    ensures
        -c <= c * n / d <= c,
        n >= 0 ==> c * n / d >= 0,
{
    assert(-(c * d) <= c * n <= c * d) by (nonlinear_arith)
        requires
            -d <= n <= d,
            c >= 0,
    ;
    assert(n >= 0 ==> c * n >= 0) by (nonlinear_arith)
        requires
            c >= 0,
    ;
    lemma_div_is_ordered(c * n, c * d, d);
    lemma_div_is_ordered(-(c * d), c * n, d);
    assert(-(c * d) == (-c) * d) by (nonlinear_arith);
    lemma_fundamental_div_mod_converse(c * d, d, c, 0);
    lemma_fundamental_div_mod_converse(-(c * d), d, -c, 0);
    lemma_fundamental_div_mod_converse(0, d, 0, 0);
    if n >= 0 {
        lemma_div_is_ordered(0, c * n, d);
    }
}

/// The HSB colour of an RGB colour, each component rounded down.
pub fn rgb_to_hsv(rgb: RGB) -> (r: HSB)
    ensures
        r.hue == rgb_hue(rgb.red as int, rgb.green as int, rgb.blue as int),
        r.saturation == rgb_saturation(rgb.red as int, rgb.green as int, rgb.blue as int),
        r.brightness == rgb_brightness(rgb.red as int, rgb.green as int, rgb.blue as int),
        r.in_range(),
        r.hue < 360,
{
    let red = rgb.red as u32;
    let green = rgb.green as u32;
    let blue = rgb.blue as u32;
    let cmax: u32 = if red >= green && red >= blue {
        red
    } else if green >= blue {
        green
    } else {
        blue
    };
    let cmin: u32 = if red <= green && red <= blue {
        red
    } else if green <= blue {
        green
    } else {
        blue
    };
    let d: u32 = cmax - cmin;
    // Exact integer arithmetic: each hue branch divides a non-negative
    // numerator, which is the standard formula shifted by a multiple of `d`.
    let ghost (ri, gi, bi) = (red as int, green as int, blue as int);
    let hue: u32 = if d == 0 {
        0
    } else if red == cmax {
        if green >= blue {
            proof {
                lemma_scaled_fraction_bound(60, gi - bi, d as int);
            }
            60 * (green - blue) / d
        } else {
            proof {
                let di = d as int;
                let x = 60 * (gi - bi);
                lemma_div_shift(x, 360, di);
                lemma_scaled_fraction_bound(60, bi - gi, di);
                assert(x / di < 0) by {
                    lemma_div_is_ordered(x, -1, di);
                    lemma_fundamental_div_mod_converse(-1, di, -1, di - 1);
                }
                assert(x / di >= -60) by {
                    lemma_div_is_ordered(-60 * di, x, di);
                    lemma_div_shift(0, -60, di);
                }
                lemma_fundamental_div_mod_converse(x / di, 360, -1, x / di + 360);
            }
            (360 * d - 60 * (blue - green)) / d
        }
    } else if green == cmax {
        proof {
            lemma_div_shift(60 * (bi - ri), 120, d as int);
            lemma_scaled_fraction_bound(60, bi - ri, d as int);
        }
        (120 * d + 60 * blue - 60 * red) / d
    } else {
        proof {
            lemma_div_shift(60 * (ri - gi), 240, d as int);
            lemma_scaled_fraction_bound(60, ri - gi, d as int);
        }
        (240 * d + 60 * red - 60 * green) / d
    };
    let saturation: u32 = if cmax == 0 {
        0
    } else {
        proof {
            lemma_scaled_fraction_bound(100, d as int, cmax as int);
        }
        100 * d / cmax
    };
    let brightness: u32 = 100 * cmax / 255;
    HSB { hue: hue as u16, saturation: saturation as u8, brightness: brightness as u8 }
}

/// The names of the colour table, in order.
pub open spec fn colour_names() -> Seq<Seq<char>> {
    seq![
        "beige"@,
        "blue"@,
        "chartreuse"@,
        "coral"@,
        "cornflower"@,
        "crimson"@,
        "deep_sky_blue"@,
        "green"@,
        "red"@,
        "slate_gray"@,
    ]
}

/// The colour table: the colour of a lower-case name, if the name is known.
pub open spec fn named_colour(name: Seq<char>) -> Option<HSB> {
    if name == "beige"@ {
        Some(HSB { hue: 60, saturation: 56, brightness: 91 })
    } else if name == "blue"@ {
        Some(HSB { hue: 240, saturation: 100, brightness: 50 })
    } else if name == "chartreuse"@ {
        Some(HSB { hue: 90, saturation: 100, brightness: 50 })
    } else if name == "coral"@ {
        Some(HSB { hue: 16, saturation: 100, brightness: 66 })
    } else if name == "cornflower"@ {
        Some(HSB { hue: 219, saturation: 79, brightness: 66 })
    } else if name == "crimson"@ {
        Some(HSB { hue: 348, saturation: 83, brightness: 47 })
    } else if name == "deep_sky_blue"@ {
        Some(HSB { hue: 195, saturation: 100, brightness: 50 })
    } else if name == "green"@ {
        Some(HSB { hue: 120, saturation: 100, brightness: 50 })
    } else if name == "red"@ {
        Some(HSB { hue: 0, saturation: 100, brightness: 50 })
    } else if name == "slate_gray"@ {
        Some(HSB { hue: 210, saturation: 13, brightness: 50 })
    } else {
        None
    }
}

/// The names that `get_colour` knows.
pub fn named_colours() -> (r: Vec<String>)
    ensures
        r@.len() == colour_names().len(),
        forall|i: int| 0 <= i < r@.len() ==> #[trigger] r@[i]@ == colour_names()[i],
{
    let mut names: Vec<String> = Vec::new();
    names.push(String::from_str("beige"));
    names.push(String::from_str("blue"));
    names.push(String::from_str("chartreuse"));
    names.push(String::from_str("coral"));
    names.push(String::from_str("cornflower"));
    names.push(String::from_str("crimson"));
    names.push(String::from_str("deep_sky_blue"));
    names.push(String::from_str("green"));
    names.push(String::from_str("red"));
    names.push(String::from_str("slate_gray"));
    names
}

/// Whether two strings hold the same characters.
fn same_text(a: &str, b: &str) -> (r: bool)
    ensures
        r == (a@ == b@),
{
    let n = a.unicode_len();
    if n != b.unicode_len() {
        return false;
    }
    let mut i: usize = 0;
    while i < n
        invariant
            n == a@.len(),
            n == b@.len(),
            i <= n,
            forall|j: int| 0 <= j < i ==> a@[j] == b@[j],
        decreases n - i,
    {
        if a.get_char(i) != b.get_char(i) {
            return false;
        }
        i = i + 1;
    }
    assert(a@ =~= b@);
    true
}

/// The colour of a name that is already in lower case, if the table has it.
pub fn lookup_colour(name: &str) -> (r: Option<HSB>)
    ensures
        r == named_colour(name@),
{
    if same_text(name, "beige") {
        Some(HSB { hue: 60, saturation: 56, brightness: 91 })
    } else if same_text(name, "blue") {
        Some(HSB { hue: 240, saturation: 100, brightness: 50 })
    } else if same_text(name, "chartreuse") {
        Some(HSB { hue: 90, saturation: 100, brightness: 50 })
    } else if same_text(name, "coral") {
        Some(HSB { hue: 16, saturation: 100, brightness: 66 })
    } else if same_text(name, "cornflower") {
        Some(HSB { hue: 219, saturation: 79, brightness: 66 })
    } else if same_text(name, "crimson") {
        Some(HSB { hue: 348, saturation: 83, brightness: 47 })
    } else if same_text(name, "deep_sky_blue") {
        Some(HSB { hue: 195, saturation: 100, brightness: 50 })
    } else if same_text(name, "green") {
        Some(HSB { hue: 120, saturation: 100, brightness: 50 })
    } else if same_text(name, "red") {
        Some(HSB { hue: 0, saturation: 100, brightness: 50 })
    } else if same_text(name, "slate_gray") {
        Some(HSB { hue: 210, saturation: 13, brightness: 50 })
    } else {
        None
    }
}

/// Letters mapped to lower case, as `str::to_lowercase` maps them.
pub uninterp spec fn lower_of(s: Seq<char>) -> Seq<char>;

/// Relies on `str::to_lowercase`: the lower-case form of `s`, which depends on
/// its characters alone.
#[verifier::external_body]
fn lowercase(s: &str) -> (r: String)
    ensures
        r@ == lower_of(s@),
{
    s.to_lowercase()
}

/// The colour of a name in the table, ignoring case. The name must be known.
pub fn get_colour(s: &str) -> (r: HSB)
    requires
        named_colour(lower_of(s@)) is Some,
    ensures
        named_colour(lower_of(s@)) == Some(r),
        r.in_range(),
{
    let name = lowercase(s);
    lookup_colour(name.as_str()).unwrap()
}

/// The colour of a name in the table, ignoring case; `None` for an unknown name.
pub fn find_colour(s: &str) -> (r: Option<HSB>)
    ensures
        r == named_colour(lower_of(s@)),
{
    let name = lowercase(s);
    if lookup_colour(name.as_str()).is_some() {
        Some(get_colour(s))
    } else {
        None
    }
}

} // verus!
