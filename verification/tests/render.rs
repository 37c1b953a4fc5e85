use rastertiler::render::{
    format_u8, metadata, parse_zoom, select_encoding, validate, BandType, ConfigError, Encoding,
    ZoomError,
};

fn pair(name: &str, value: &str) -> (String, String) {
    (String::from(name), String::from(value))
}

#[test]
fn parse_zoom_cases() {
    assert_eq!(parse_zoom("0"), Ok(0));
    assert_eq!(parse_zoom("24"), Ok(24));
    assert_eq!(parse_zoom("+7"), Ok(7));
    assert_eq!(parse_zoom("25"), Err(ZoomError::TooLarge));
    assert_eq!(parse_zoom("255"), Err(ZoomError::TooLarge));
    assert_eq!(parse_zoom("256"), Err(ZoomError::NotANumber));
    assert_eq!(parse_zoom(""), Err(ZoomError::NotANumber));
    assert_eq!(parse_zoom("-1"), Err(ZoomError::NotANumber));
    assert_eq!(parse_zoom("ten"), Err(ZoomError::NotANumber));
}

#[test]
fn select_encoding_cases() {
    assert_eq!(select_encoding(BandType::UInt8, false), Ok(Encoding::Grayscale));
    assert_eq!(select_encoding(BandType::UInt8, true), Ok(Encoding::Colormap));
    assert_eq!(select_encoding(BandType::UInt32, false), Ok(Encoding::Rgb));
    assert_eq!(select_encoding(BandType::UInt32, true), Err(ConfigError::ColormapNeedsUInt8));
    assert_eq!(select_encoding(BandType::Other, true), Err(ConfigError::ColormapNeedsUInt8));
    assert_eq!(select_encoding(BandType::Other, false), Err(ConfigError::UnsupportedDataType));
}

#[test]
fn validate_cases() {
    assert_eq!(validate(3, 2, BandType::UInt8, false), Err(ConfigError::ZoomOrder));
    assert_eq!(validate(3, 2, BandType::Other, true), Err(ConfigError::ZoomOrder));
    assert_eq!(validate(2, 2, BandType::UInt8, false), Ok(Encoding::Grayscale));
    assert_eq!(validate(0, 24, BandType::Other, false), Err(ConfigError::UnsupportedDataType));
}

#[test]
fn format_u8_agrees_with_std() {
    for n in 0..=255u8 {
        assert_eq!(format_u8(n), format!("{}", n));
    }
}

#[test]
fn metadata_full() {
    let actual = metadata(
        Some("tiles"),
        "out",
        Some("a description"),
        Some("by someone"),
        2,
        10,
        "-10.00000,-20.00000,30.00000,40.00000",
        "10.00000,10.00000",
    );
    assert_eq!(
        actual,
        vec![
            pair("name", "tiles"),
            pair("description", "a description"),
            pair("attribution", "by someone"),
            pair("minzoom", "2"),
            pair("maxzoom", "10"),
            pair("bounds", "-10.00000,-20.00000,30.00000,40.00000"),
            pair("center", "10.00000,10.00000,2"),
            pair("type", "overlay"),
            pair("format", "png"),
            pair("version", "1.0.0"),
        ]
    );
}

#[test]
fn metadata_defaults() {
    let actual = metadata(None, "out", None, None, 0, 0, "b", "c");
    assert_eq!(
        actual,
        vec![
            pair("name", "out"),
            pair("minzoom", "0"),
            pair("maxzoom", "0"),
            pair("bounds", "b"),
            pair("center", "c,0"),
            pair("type", "overlay"),
            pair("format", "png"),
            pair("version", "1.0.0"),
        ]
    );
}
