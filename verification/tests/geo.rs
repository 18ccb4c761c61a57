use asselect::error::ConversionError;
use asselect::geo::{latlon_to_degrees, radius_to_metres, LatLon, Metres};

fn degrees(seconds: i32) -> f64 {
    f64::from(seconds) / 3600.0
}

fn metres(m: Metres) -> f64 {
    m.scaled as f64 / 10f64.powi(m.places as i32)
}

#[test]
fn position_north_west() {
    let p = latlon_to_degrees("515812N 0001550W").unwrap();
    assert_eq!(p, LatLon { lat: 187092, lon: -950 });
    assert!((degrees(p.lat) - 51.9700).abs() < 1e-4);
    assert!((degrees(p.lon) - (-0.2639)).abs() < 1e-4);
}

#[test]
fn position_south_east() {
    let p = latlon_to_degrees("010203S 1234556E").unwrap();
    assert_eq!(p, LatLon { lat: -(3600 + 2 * 60 + 3), lon: 123 * 3600 + 45 * 60 + 56 });
}

#[test]
fn position_largest_fields() {
    let p = latlon_to_degrees("999999S 9999999W").unwrap();
    assert_eq!(p, LatLon { lat: -362439, lon: -3602439 });
}

#[test]
fn position_separator_is_not_read() {
    assert_eq!(latlon_to_degrees("515812N,0001550W"), latlon_to_degrees("515812N 0001550W"));
    assert_eq!(
        latlon_to_degrees("515812N\u{e9}0001550W"),
        Ok(LatLon { lat: 187092, lon: -950 })
    );
}

#[test]
fn position_of_wrong_length() {
    assert_eq!(latlon_to_degrees(""), Err(ConversionError::MalformedCoordinate));
    assert_eq!(latlon_to_degrees("515812N 0001550"), Err(ConversionError::MalformedCoordinate));
    assert_eq!(latlon_to_degrees("515812N 0001550WW"), Err(ConversionError::MalformedCoordinate));
}

#[test]
fn position_with_a_field_that_is_no_number() {
    assert_eq!(latlon_to_degrees("5158x2N 0001550W"), Err(ConversionError::MalformedCoordinate));
    assert_eq!(latlon_to_degrees("515812N 00015 0W"), Err(ConversionError::MalformedCoordinate));
    assert_eq!(latlon_to_degrees("+15812N 0001550W"), Err(ConversionError::MalformedCoordinate));
}

#[test]
fn position_with_a_wrong_hemisphere() {
    assert_eq!(latlon_to_degrees("515812X 0001550W"), Err(ConversionError::MalformedCoordinate));
    assert_eq!(latlon_to_degrees("515812N 0001550X"), Err(ConversionError::MalformedCoordinate));
    assert_eq!(latlon_to_degrees("515812E 0001550N"), Err(ConversionError::MalformedCoordinate));
    assert_eq!(latlon_to_degrees("515812n 0001550w"), Err(ConversionError::MalformedCoordinate));
}

#[test]
fn distance_in_nautical_miles() {
    let d = radius_to_metres("5 nm").unwrap();
    assert_eq!(d, Metres { scaled: 9260, places: 0 });
    assert_eq!(metres(d), 9260.0);
}

#[test]
fn distance_in_another_unit_counts_as_kilometres() {
    let d = radius_to_metres("3 km").unwrap();
    assert_eq!(d, Metres { scaled: 3000, places: 0 });
    assert_eq!(metres(d), 3000.0);
    assert_eq!(radius_to_metres("3 furlongs"), Ok(Metres { scaled: 3000, places: 0 }));
    assert_eq!(radius_to_metres("3 "), Ok(Metres { scaled: 3000, places: 0 }));
    assert_eq!(radius_to_metres("3 NM"), Ok(Metres { scaled: 3000, places: 0 }));
    assert_eq!(radius_to_metres("3 nmi"), Ok(Metres { scaled: 3000, places: 0 }));
}

#[test]
fn distance_with_decimal_places() {
    let d = radius_to_metres("2.5 nm").unwrap();
    assert_eq!(d, Metres { scaled: 46300, places: 1 });
    assert_eq!(metres(d), 4630.0);
    assert_eq!(radius_to_metres("0.25 km"), Ok(Metres { scaled: 25000, places: 2 }));
    assert_eq!(radius_to_metres(".5 nm"), Ok(Metres { scaled: 9260, places: 1 }));
    assert_eq!(radius_to_metres("5. nm"), Ok(Metres { scaled: 9260, places: 0 }));
}

#[test]
fn distance_unit_ends_at_the_next_space() {
    assert_eq!(radius_to_metres("5 nm radius"), Ok(Metres { scaled: 9260, places: 0 }));
    assert_eq!(radius_to_metres("5 nm "), Ok(Metres { scaled: 9260, places: 0 }));
    assert_eq!(radius_to_metres("5  nm"), Ok(Metres { scaled: 5000, places: 0 }));
}

#[test]
fn distance_without_a_magnitude() {
    assert_eq!(radius_to_metres(""), Err(ConversionError::MalformedDistance));
    assert_eq!(radius_to_metres(" nm"), Err(ConversionError::MalformedDistance));
    assert_eq!(radius_to_metres(". nm"), Err(ConversionError::MalformedDistance));
    assert_eq!(radius_to_metres("five nm"), Err(ConversionError::MalformedDistance));
    assert_eq!(radius_to_metres("-5 nm"), Err(ConversionError::MalformedDistance));
    assert_eq!(radius_to_metres("1e3 nm"), Err(ConversionError::MalformedDistance));
    assert_eq!(radius_to_metres("1.2.3 nm"), Err(ConversionError::MalformedDistance));
}

#[test]
fn distance_without_a_space() {
    assert_eq!(radius_to_metres("5"), Err(ConversionError::MalformedDistance));
    assert_eq!(radius_to_metres("5nm"), Err(ConversionError::MalformedDistance));
    assert_eq!(radius_to_metres("2.5"), Err(ConversionError::MalformedDistance));
}

#[test]
fn distance_too_large_to_hold() {
    assert_eq!(
        radius_to_metres("18446744073709551 km"),
        Ok(Metres { scaled: 18446744073709551000, places: 0 })
    );
    assert_eq!(radius_to_metres("18446744073709552 km"), Err(ConversionError::MalformedDistance));
    assert_eq!(
        radius_to_metres("99999999999999999999999999 nm"),
        Err(ConversionError::MalformedDistance)
    );
    assert_eq!(
        radius_to_metres("0.000000000000000001 nm"),
        Ok(Metres { scaled: 1852, places: 18 })
    );
    assert_eq!(
        radius_to_metres("0.0000000000000000001 nm"),
        Err(ConversionError::MalformedDistance)
    );
}

#[test]
fn errors_have_a_message_each() {
    let all = [
        ConversionError::MalformedCoordinate,
        ConversionError::MalformedDistance,
        ConversionError::AmbiguousArcStart,
    ];
    assert_eq!(all[0].message(), "A position in the airspace data cannot be read");
    assert_eq!(all[1].message(), "A distance in the airspace data cannot be read");
    assert_eq!(all[2].message(), "An arc in the airspace data has no starting point");
}

#[test]
fn literals_are_read_under_the_dataset_module_too() {
    assert_eq!(
        asselect::yaixm::latlon_to_degrees("515812N 0001550W"),
        latlon_to_degrees("515812N 0001550W")
    );
    assert_eq!(asselect::yaixm::radius_to_metres("5 nm"), radius_to_metres("5 nm"));
}

#[test]
fn distance_is_the_magnitude_times_the_unit() {
    let magnitudes: [(&str, u64, u32); 6] = [
        ("0", 0, 0),
        ("7", 7, 0),
        ("007", 7, 0),
        ("12.5", 125, 1),
        ("0.125", 125, 3),
        ("1852.000", 1852000, 3),
    ];
    for (text, digits, places) in magnitudes {
        for (unit, factor) in [("nm", 1852), ("km", 1000), ("m", 1000), ("n", 1000), ("", 1000)] {
            assert_eq!(
                radius_to_metres(&format!("{} {}", text, unit)),
                Ok(Metres { scaled: digits * factor, places })
            );
        }
    }
}
