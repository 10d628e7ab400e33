use advanced_rust::color_space::{ColorError, ColorSpace, HexColor, Rgb};

#[test]
fn hex_strings_are_validated() {
    let ok = HexColor::try_from("#ff8800").ok().unwrap();
    assert_eq!(ok.as_str(), "#FF8800");
    for bad in ["ff8800", "#ZZZZZZ", "#fff", "", "#ff88001", "#ff 800"] {
        match HexColor::try_from(bad) {
            Err(ColorError::InvalidHexFormat(s)) => assert_eq!(s, bad),
            Ok(_) => panic!("accepted {}", bad),
        }
    }
}

#[test]
fn hex_rejects_non_ascii_of_seven_bytes() {
    assert!(HexColor::try_from("#éé88").is_err());
    assert!(HexColor::try_from("#ff88é0").is_err());
}

#[test]
fn rgb_to_hex_uses_upper_case_pairs() {
    assert_eq!(HexColor::from(Rgb::new(255, 136, 0)).as_str(), "#FF8800");
    assert_eq!(HexColor::from(Rgb::new(0, 0, 0)).as_str(), "#000000");
    assert_eq!(HexColor::from(Rgb::new(1, 171, 15)).as_str(), "#01AB0F");
}

#[test]
fn hex_to_rgb_reads_the_pairs() {
    let hex = HexColor::try_from("#0aFf10").ok().unwrap();
    assert_eq!(Rgb::from(&hex), Rgb(10, 255, 16));
}

#[test]
fn rgb_round_trips_through_hex() {
    for c in [Rgb(255, 136, 0), Rgb(0, 0, 0), Rgb(255, 255, 255), Rgb(18, 52, 86)] {
        assert_eq!(Rgb::from(&HexColor::from(c)), c);
    }
}

#[test]
fn hex_round_trips_through_rgb() {
    let hex = HexColor::try_from("#00ff00").ok().unwrap();
    let again = HexColor::from(Rgb::from(&hex));
    assert_eq!(again.as_str(), hex.as_str());
}

#[test]
fn rgb_display_and_labels() {
    let red = Rgb::new(255, 0, 0);
    assert_eq!(red.display(), "rgb(255, 0, 0)");
    assert_eq!(red.label(), "RGB");
    assert_eq!(red.to_rgb(), red);
    let hex = HexColor::try_from("#00ff00").ok().unwrap();
    assert_eq!(hex.label(), "Hex");
    assert_eq!(hex.to_rgb(), Rgb(0, 255, 0));
}

#[test]
fn hex_error_display() {
    match HexColor::try_from("bad") {
        Err(e) => assert_eq!(e.display(), "Invalid hex color: 'bad' (expected #RRGGBB)"),
        Ok(_) => panic!("accepted bad"),
    }
}
