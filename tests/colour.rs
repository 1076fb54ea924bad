use rustylifx::colour::{
    brightness_percent_to_word, brightness_word_to_percent, find_colour, get_colour,
    hue_degrees_to_word, hue_word_to_degrees, lookup_colour, named_colours, rgb_to_hsv,
    saturation_percent_to_word, saturation_word_to_percent, HSB, HSBK, RGB,
};

#[test]
fn test_hue_degrees_to_word() {
    assert_eq!([0x55, 0x55], hue_degrees_to_word(120));
    assert_eq!([0x47, 0x1C], hue_degrees_to_word(100));
    assert_eq!([0x44, 0x44], hue_degrees_to_word(96));
    assert_eq!([0x43, 0x8E], hue_degrees_to_word(95));
}

#[test]
fn test_hue_word_to_degrees() {
    assert_eq!(360, hue_word_to_degrees(65535));
    assert_eq!(0, hue_word_to_degrees(0));
    assert_eq!(180, hue_word_to_degrees(32768));
}

#[test]
fn test_saturation_percent_to_word() {
    assert_eq!([0x80, 0x00], saturation_percent_to_word(50));
}

#[test]
fn test_rgb_to_hsv() {
    struct Test {
        rgb: RGB,
        hsb: HSB,
    }

    let tests = vec![
        Test {
            // olive
            rgb: RGB { red: 128, green: 128, blue: 0 },
            hsb: HSB { hue: 60, saturation: 100, brightness: 50 },
        },
        Test {
            // chartreuse
            rgb: RGB { red: 127, green: 255, blue: 0 },
            hsb: HSB { hue: 90, saturation: 100, brightness: 100 },
        },
    ];

    for t in tests {
        let res = rgb_to_hsv(t.rgb);
        assert_eq!(res.hue, t.hsb.hue);
        assert_eq!(res.saturation, t.hsb.saturation);
        assert_eq!(res.brightness, t.hsb.brightness);
    }
}

#[test]
fn hue_round_trip_stays_within_one_degree() {
    for d in 0u16..=360 {
        let w = hue_degrees_to_word(d);
        let back = hue_word_to_degrees(u16::from_be_bytes(w));
        assert!(back == d || back + 1 == d, "degrees {} came back as {}", d, back);
        assert!(back <= 360);
    }
}

#[test]
fn hue_round_trip_loses_a_degree_on_some_inputs() {
    // 1 degree is word 182, which reads back as 0 degrees.
    assert_eq!([0x00, 0xB6], hue_degrees_to_word(1));
    assert_eq!(0, hue_word_to_degrees(182));
    assert_eq!([0xFF, 0xFF], hue_degrees_to_word(360));
    assert_eq!([0x00, 0x00], hue_degrees_to_word(0));
}

#[test]
fn percent_words_round_half_up_and_truncate_back() {
    assert_eq!([0xFF, 0xFF], saturation_percent_to_word(100));
    assert_eq!([0x00, 0x00], saturation_percent_to_word(0));
    // 1% is 655.35, rounded to 655 = 0x028F.
    assert_eq!([0x02, 0x8F], brightness_percent_to_word(1));
    assert_eq!(100, saturation_word_to_percent(65535));
    assert_eq!(49, saturation_word_to_percent(32767));
    assert_eq!(50, brightness_word_to_percent(32768));
    assert_eq!(0, brightness_word_to_percent(655));
}

#[test]
fn rgb_hue_branches() {
    // Black and greys have hue and saturation 0.
    let black = rgb_to_hsv(RGB { red: 0, green: 0, blue: 0 });
    assert_eq!((black.hue, black.saturation, black.brightness), (0, 0, 0));
    let grey = rgb_to_hsv(RGB { red: 51, green: 51, blue: 51 });
    assert_eq!((grey.hue, grey.saturation, grey.brightness), (0, 0, 20));
    // Red-dominant with blue above green wraps below 360.
    let rose = rgb_to_hsv(RGB { red: 255, green: 0, blue: 128 });
    assert_eq!((rose.hue, rose.saturation, rose.brightness), (329, 100, 100));
    // Blue-dominant.
    let blue = rgb_to_hsv(RGB { red: 0, green: 0, blue: 255 });
    assert_eq!((blue.hue, blue.saturation, blue.brightness), (240, 100, 100));
    // Orange: green-free red-dominant.
    let orange = rgb_to_hsv(RGB { red: 255, green: 165, blue: 0 });
    assert_eq!((orange.hue, orange.saturation, orange.brightness), (38, 100, 100));
    // Red and green tie: red is tried first, giving 60.
    let yellow = rgb_to_hsv(RGB { red: 200, green: 200, blue: 100 });
    assert_eq!((yellow.hue, yellow.saturation, yellow.brightness), (60, 50, 78));
}

#[test]
fn colour_table_lookups() {
    let names = named_colours();
    assert_eq!(names.len(), 10);
    assert_eq!(names[0], "beige");
    assert_eq!(names[9], "slate_gray");
    for n in names.iter() {
        assert!(find_colour(n).is_some());
    }
    let red = get_colour("red");
    assert_eq!((red.hue, red.saturation, red.brightness), (0, 100, 50));
    let sky = get_colour("Deep_Sky_Blue");
    assert_eq!((sky.hue, sky.saturation, sky.brightness), (195, 100, 50));
    let crimson = get_colour("CRIMSON");
    assert_eq!((crimson.hue, crimson.saturation, crimson.brightness), (348, 83, 47));
    assert_eq!(find_colour("mauve"), None);
    assert_eq!(find_colour(""), None);
    // The lookup on an already lower-case name does not fold case itself.
    assert_eq!(lookup_colour("Red"), None);
    assert_eq!(lookup_colour("green"), Some(HSB { hue: 120, saturation: 100, brightness: 50 }));
}

#[test]
fn hsb_from_hsbk_drops_kelvin() {
    let c = HSB::from(HSBK { hue: 30, saturation: 40, brightness: 50, kelvin: 3500 });
    assert_eq!(c, HSB::new(30, 40, 50));
}
