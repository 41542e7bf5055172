use owntrack_rs::error::Error;
use owntrack_rs::geo::{
    decode_fixed_point_degrees, fixed_point_text, parse_degrees, parse_exponent, parse_number_e7,
    scale, Degrees,
};

#[test]
fn fixed_point_text_places_the_point() {
    assert_eq!(fixed_point_text(470401765).unwrap(), "47.0401765");
    assert_eq!(fixed_point_text(94370853).unwrap(), "9.4370853");
    assert_eq!(fixed_point_text(-470401765).unwrap(), "-47.0401765");
    assert_eq!(fixed_point_text(1234567).unwrap(), ".1234567");
}

#[test]
fn fixed_point_text_reads_as_the_same_float() {
    let lat: f64 = fixed_point_text(470401765).unwrap().parse().unwrap();
    assert_eq!(lat, 47.0401765);
    let lon: f64 = fixed_point_text(94370853).unwrap().parse().unwrap();
    assert_eq!(lon, 9.4370853);
}

#[test]
fn decode_gives_the_same_units_back() {
    assert_eq!(decode_fixed_point_degrees(470401765), Ok(Degrees { e7: 470401765 }));
    assert_eq!(decode_fixed_point_degrees(94370853), Ok(Degrees { e7: 94370853 }));
    assert_eq!(decode_fixed_point_degrees(-1234567), Ok(Degrees { e7: -1234567 }));
    assert_eq!(decode_fixed_point_degrees(i64::MIN), Ok(Degrees { e7: i64::MIN }));
    assert_eq!(decode_fixed_point_degrees(i64::MAX), Ok(Degrees { e7: i64::MAX }));
}

#[test]
fn decode_fails_below_seven_digits() {
    assert_eq!(decode_fixed_point_degrees(999_999), Err(Error::MalformedCoordinate));
    assert_eq!(decode_fixed_point_degrees(-999_999), Err(Error::MalformedCoordinate));
    assert_eq!(decode_fixed_point_degrees(0), Err(Error::MalformedCoordinate));
    assert_eq!(decode_fixed_point_degrees(-12345), Err(Error::MalformedCoordinate));
    assert_eq!(decode_fixed_point_degrees(1_000_000), Ok(Degrees { e7: 1_000_000 }));
    assert_eq!(fixed_point_text(999_999), Err(Error::MalformedCoordinate));
    assert_eq!(fixed_point_text(-999_999).unwrap(), ".-999999");
}

#[test]
fn parse_degrees_reads_decimal_numbers() {
    assert_eq!(parse_degrees("47.0401765"), Some(Degrees { e7: 470401765 }));
    assert_eq!(parse_degrees("47.05"), Some(Degrees { e7: 470500000 }));
    assert_eq!(parse_degrees("-9.44"), Some(Degrees { e7: -94400000 }));
    assert_eq!(parse_degrees("47"), Some(Degrees { e7: 470000000 }));
    assert_eq!(parse_degrees("47."), Some(Degrees { e7: 470000000 }));
    assert_eq!(parse_degrees(".5"), Some(Degrees { e7: 5000000 }));
    assert_eq!(parse_degrees("-0.0000001"), Some(Degrees { e7: -1 }));
    assert_eq!(parse_degrees("1.23456789"), Some(Degrees { e7: 12345678 }));
}

#[test]
fn parse_degrees_refuses_other_text() {
    assert_eq!(parse_degrees(""), None);
    assert_eq!(parse_degrees("-"), None);
    assert_eq!(parse_degrees("."), None);
    assert_eq!(parse_degrees("1e-5"), None);
    assert_eq!(parse_degrees("1.2.3"), None);
    assert_eq!(parse_degrees("+1"), None);
    assert_eq!(parse_degrees(" 1"), None);
    assert_eq!(parse_degrees("12a"), None);
    assert_eq!(parse_degrees("99999999999999999999"), None);
    assert_eq!(parse_degrees("922337203685.4775808"), None);
    assert_eq!(parse_degrees("922337203685.4775807"), Some(Degrees { e7: i64::MAX }));
    assert_eq!(parse_degrees("-922337203685.4775808"), Some(Degrees { e7: i64::MIN }));
}

#[test]
fn degrees_text_has_seven_decimals() {
    assert_eq!(Degrees { e7: 470500000 }.to_text(), "47.0500000");
    assert_eq!(Degrees { e7: 94400000 }.to_text(), "9.4400000");
    assert_eq!(Degrees { e7: -1 }.to_text(), "-0.0000001");
    assert_eq!(Degrees { e7: 0 }.to_text(), "0.0000000");
    assert_eq!(Degrees { e7: i64::MIN }.to_text(), "-922337203685.4775808");
    assert_eq!(format!("{:.7}", 47.05_f64), Degrees { e7: 470500000 }.to_text());
}

#[test]
fn degrees_text_reads_back() {
    for e7 in [0_i64, 1, -1, 470401765, -1_800_000_000, i64::MAX, i64::MIN] {
        assert_eq!(parse_degrees(&Degrees { e7 }.to_text()), Some(Degrees { e7 }));
    }
}

#[test]
fn numbers_in_scientific_notation() {
    let read = |s: &str| parse_number_e7(&s.chars().collect());
    assert_eq!(read("47.0401765"), Some(470401765));
    assert_eq!(read("1.234e-06"), Some(12));
    assert_eq!(read("1.234e-6"), Some(12));
    assert_eq!(read("-9.99e-08"), Some(0));
    assert_eq!(read("5e+02"), Some(5_000_000_000));
    assert_eq!(read("5.25e2"), Some(5_250_000_000));
    assert_eq!(read("1e-7"), Some(1));
    assert_eq!(read("-1e-7"), Some(-1));
    assert_eq!(read("9.2233720368547758e11"), Some(9223372036854775800));
    assert_eq!(read("9.3e11"), None);
    assert_eq!(read("1e"), None);
    assert_eq!(read("e5"), None);
    assert_eq!(read("1e5e5"), None);
    assert_eq!(read("1e12345"), None);
    assert_eq!(read("1.2345678901234567890e0"), None);
    assert_eq!(read("0e9999"), Some(0));
    assert_eq!(parse_exponent(&"-06".chars().collect()), Some(-6));
    assert_eq!(parse_exponent(&"+20".chars().collect()), Some(20));
    assert_eq!(parse_exponent(&"".chars().collect()), None);
    assert_eq!(scale(1234, -2), Some(12));
    assert_eq!(scale(1234, 3), Some(1234000));
    assert_eq!(scale(2, 19), None);
    assert_eq!(scale(0, 19999), Some(0));
}
