use rastertiler::color::{Color, Colormap};
use rastertiler::colorspec::{parse_entries, parse_entry, parse_hex_color, ColormapError};
use rastertiler::png::{ColormapRgb8, Rgb8};
use rastertiler::text::{find_sep, parse_u8};

#[test]
fn test_color_from_hex() {
    let actual = Color::from_hex("#FF00FF").expect("color not parsed correctly");
    assert_eq!(actual, Color { r: 255, g: 0, b: 255 });
}

#[test]
fn test_rgb8_from_hex() {
    let actual = Rgb8::from_hex("#FF00FF").expect("color not parsed correctly");
    assert_eq!(actual, Rgb8 { r: 255u8, g: 0u8, b: 255u8 });
}

#[test]
fn hex_color_mixed_case_and_any_lead() {
    assert_eq!(Rgb8::from_hex("#0a1B2c"), Ok(Rgb8 { r: 0x0a, g: 0x1b, b: 0x2c }));
    assert_eq!(Rgb8::from_hex("x000102"), Ok(Rgb8 { r: 0, g: 1, b: 2 }));
    assert_eq!(parse_hex_color(b"#ffffff"), Ok((255, 255, 255)));
}

#[test]
fn hex_color_errors() {
    assert_eq!(Rgb8::from_hex("#FF00F"), Err(ColormapError::UnsupportedHexFormat));
    assert_eq!(Rgb8::from_hex("#FF00FF0"), Err(ColormapError::UnsupportedHexFormat));
    assert_eq!(Rgb8::from_hex(""), Err(ColormapError::UnsupportedHexFormat));
    assert_eq!(Rgb8::from_hex("#GG00FF"), Err(ColormapError::InvalidHex));
    assert_eq!(Rgb8::from_hex("#FF00F "), Err(ColormapError::InvalidHex));
    assert_eq!(Color::from_hex("#12345"), Err(ColormapError::UnsupportedHexFormat));
    assert_eq!(Color::from_hex("#12345z"), Err(ColormapError::InvalidHex));
    // seven bytes whose first character is longer than one byte
    assert_eq!(Rgb8::from_hex("\u{e9}12345"), Err(ColormapError::InvalidHex));
    assert_eq!(Rgb8::from_hex("\u{e9}012345").is_err(), true);
}

#[test]
fn rgb8_from_u32() {
    assert_eq!(Rgb8::from_u32(0x00FF8001), Rgb8 { r: 255, g: 128, b: 1 });
    assert_eq!(Rgb8::from_u32(0xAB010203), Rgb8 { r: 1, g: 2, b: 3 });
    assert_eq!(Rgb8::from_u32(0), Rgb8 { r: 0, g: 0, b: 0 });
    assert_eq!(Rgb8::from_u32(u32::MAX), Rgb8 { r: 255, g: 255, b: 255 });
}

#[test]
fn parse_u8_agrees_with_std() {
    let cases = [
        "0", "7", "007", "+5", "255", "256", "0255", "999", "", "+", "-1", "-0", " 1", "1 ", "1a",
        "a", "++1", "25 5", "00000000000000000001", "300000000000000000000",
    ];
    for text in cases {
        assert_eq!(parse_u8(text.as_bytes()), text.parse::<u8>().ok(), "{:?}", text);
    }
    for n in 0..=300u32 {
        let text = format!("{}", n);
        assert_eq!(parse_u8(text.as_bytes()), text.parse::<u8>().ok());
    }
}

#[test]
fn find_sep_positions() {
    assert_eq!(find_sep(b"a,b", b',', 0), 1);
    assert_eq!(find_sep(b"a,b", b',', 1), 1);
    assert_eq!(find_sep(b"a,b", b',', 2), 3);
    assert_eq!(find_sep(b"", b',', 0), 0);
}

#[test]
fn parse_entry_cases() {
    assert_eq!(parse_entry(b"1:#FF0000"), Ok((1, (255, 0, 0))));
    assert_eq!(parse_entry(b"1:#FF0000:rest"), Ok((1, (255, 0, 0))));
    assert_eq!(parse_entry(b"x:#FF0000"), Err(ColormapError::InvalidValue));
    assert_eq!(parse_entry(b":#FF0000"), Err(ColormapError::InvalidValue));
    assert_eq!(parse_entry(b"256:#FF0000"), Err(ColormapError::InvalidValue));
    assert_eq!(parse_entry(b"1"), Err(ColormapError::MissingColor));
    assert_eq!(parse_entry(b"1:"), Err(ColormapError::UnsupportedHexFormat));
    assert_eq!(parse_entry(b"1:#FF000"), Err(ColormapError::UnsupportedHexFormat));
    assert_eq!(parse_entry(b"1:#FF000g"), Err(ColormapError::InvalidHex));
}

#[test]
fn parse_entries_cases() {
    assert_eq!(
        parse_entries(b"1:#FF0000,2:#00ff00"),
        Ok(vec![(1, (255, 0, 0)), (2, (0, 255, 0))])
    );
    assert_eq!(parse_entries(b""), Err(ColormapError::InvalidValue));
    assert_eq!(parse_entries(b"1:#FF0000,"), Err(ColormapError::InvalidValue));
    assert_eq!(parse_entries(b"1:#FF0000,2"), Err(ColormapError::MissingColor));
    // the first entry that cannot be read gives the error
    assert_eq!(parse_entries(b"1:#FF000,x:#000000"), Err(ColormapError::UnsupportedHexFormat));
    assert_eq!(parse_entries(b"x:#FF000,1:#00000"), Err(ColormapError::InvalidValue));
}

#[test]
fn colormap_slots() {
    let colormap = Colormap::new("1:#FF0000,5:#00FF00").unwrap();
    assert_eq!(colormap.get_index(&1), 0);
    assert_eq!(colormap.get_index(&5), 1);
    // values that are not named go to the transparent slot at the end
    assert_eq!(colormap.get_index(&0), 2);
    assert_eq!(colormap.get_index(&200), 2);
    assert_eq!(colormap.get_colors(), &vec![255, 0, 0, 0, 255, 0, 0, 0, 0]);
    assert_eq!(colormap.get_transparency(), &vec![255, 255, 0]);
}

#[test]
fn colormap_repeated_value_takes_last_slot() {
    let colormap = Colormap::new("1:#FF0000,1:#00FF00").unwrap();
    assert_eq!(colormap.get_index(&1), 1);
    assert_eq!(colormap.get_index(&2), 2);
    assert_eq!(colormap.get_transparency(), &vec![255, 255, 0]);
}

#[test]
fn colormap_errors() {
    assert_eq!(Colormap::new("").err(), Some(ColormapError::InvalidValue));
    assert_eq!(Colormap::new("1").err(), Some(ColormapError::MissingColor));
    assert_eq!(Colormap::new("1:red").err(), Some(ColormapError::UnsupportedHexFormat));
    assert_eq!(Colormap::new("1:#red000").err(), Some(ColormapError::InvalidHex));
}

#[test]
fn colormap_too_many_entries() {
    let mut text = String::new();
    for i in 0..256u32 {
        if i > 0 {
            text.push(',');
        }
        text.push_str(&format!("{}:#000000", i % 256));
    }
    assert_eq!(Colormap::new(&text).err(), Some(ColormapError::TooManyColors));
    let shorter = &text[..text.rfind(',').unwrap()];
    let colormap = Colormap::new(shorter).unwrap();
    assert_eq!(colormap.get_transparency().len(), 256);
    assert_eq!(colormap.get_index(&254), 254);
    assert_eq!(colormap.get_index(&255), 255);
}

#[test]
fn palette_new_holds_nodata() {
    let colormap = ColormapRgb8::<u8>::new(4, 9);
    assert_eq!(colormap.len(), 1);
    assert_eq!(colormap.get_index(9), 0);
    assert_eq!(colormap.get_index(3), 0);
    assert_eq!(colormap.get_colors(), &vec![0, 0, 0]);
    assert_eq!(colormap.get_transparency(), &[0u8][..]);
}

#[test]
fn palette_add_color() {
    let mut colormap = ColormapRgb8::<u16>::new(2, 0);
    assert!(colormap.add_color(7, Rgb8 { r: 1, g: 2, b: 3 }));
    // a value that has an index keeps it, and its colour
    assert!(colormap.add_color(7, Rgb8 { r: 9, g: 9, b: 9 }));
    assert!(colormap.add_color(0, Rgb8 { r: 9, g: 9, b: 9 }));
    assert!(colormap.add_color(8, Rgb8 { r: 4, g: 5, b: 6 }));
    // room for two colours besides "no data"
    assert!(!colormap.add_color(9, Rgb8 { r: 7, g: 8, b: 9 }));
    assert!(colormap.add_color(8, Rgb8 { r: 0, g: 0, b: 0 }));
    assert_eq!(colormap.len(), 3);
    assert_eq!(colormap.get_index(0), 0);
    assert_eq!(colormap.get_index(7), 1);
    assert_eq!(colormap.get_index(8), 2);
    assert_eq!(colormap.get_index(9), 0);
    assert_eq!(colormap.get_colors(), &vec![0, 0, 0, 1, 2, 3, 4, 5, 6]);
}

#[test]
fn palette_never_more_than_256() {
    let mut colormap = ColormapRgb8::<u32>::new(100000, 0);
    for v in 1..=255u32 {
        assert!(colormap.add_color(v, Rgb8::from_u32(v)));
    }
    assert_eq!(colormap.len(), 256);
    assert!(!colormap.add_color(256, Rgb8::from_u32(256)));
    assert_eq!(colormap.len(), 256);
    assert_eq!(colormap.get_index(255), 255);
    assert_eq!(colormap.get_index(256), 0);
}

#[test]
fn palette_clear_keeps_nodata() {
    let mut colormap = ColormapRgb8::<u32>::new(256, 77);
    colormap.add_color(1, Rgb8::from_u32(1));
    colormap.clear();
    assert_eq!(colormap.len(), 1);
    assert_eq!(colormap.get_colors(), &vec![0, 0, 0]);
    assert!(colormap.add_color(5, Rgb8 { r: 1, g: 1, b: 1 }));
    assert_eq!(colormap.get_index(77), 0);
    assert_eq!(colormap.get_index(5), 1);
    assert_eq!(colormap.get_index(1), 0);
}

#[test]
fn palette_parse() {
    let colormap = ColormapRgb8::parse("1:#FF0000,2:#00FF00,1:#0000FF", 0).unwrap();
    assert_eq!(colormap.len(), 3);
    assert_eq!(colormap.get_index(0), 0);
    assert_eq!(colormap.get_index(1), 1);
    assert_eq!(colormap.get_index(2), 2);
    assert_eq!(colormap.get_index(3), 0);
    assert_eq!(colormap.get_colors(), &vec![0, 0, 0, 255, 0, 0, 0, 255, 0]);
}

#[test]
fn palette_parse_nodata_entry_keeps_index_0() {
    let colormap = ColormapRgb8::parse("0:#FF0000,2:#00FF00", 0).unwrap();
    assert_eq!(colormap.len(), 2);
    assert_eq!(colormap.get_index(0), 0);
    assert_eq!(colormap.get_index(2), 1);
    assert_eq!(colormap.get_colors(), &vec![0, 0, 0, 0, 255, 0]);
}

#[test]
fn palette_parse_errors() {
    assert_eq!(ColormapRgb8::parse("", 0).err(), Some(ColormapError::InvalidValue));
    assert_eq!(ColormapRgb8::parse("1:#FF0000,2", 0).err(), Some(ColormapError::MissingColor));
    assert_eq!(
        ColormapRgb8::parse("1:FF0000", 0).err(),
        Some(ColormapError::UnsupportedHexFormat)
    );
    assert_eq!(ColormapRgb8::parse("1:#FF00ZZ", 0).err(), Some(ColormapError::InvalidHex));
}
