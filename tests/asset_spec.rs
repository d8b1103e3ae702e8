use rgb_iface::stl::{AssetSpec, Details, InvalidIdent, Name, Precision, RicardianContract, Ticker};

#[test]
fn ticker_accepts_caps_and_digits() {
    assert_eq!(Ticker::from_str("USDT0").unwrap().as_str(), "USDT0");
    assert_eq!(Ticker::from_str("ABCDEFGH").unwrap().as_str(), "ABCDEFGH");
}

#[test]
fn ticker_errors() {
    assert_eq!(Ticker::from_str(""), Err(InvalidIdent::Empty));
    assert_eq!(Ticker::from_str("usd"), Err(InvalidIdent::InvalidChar(b'u')));
    assert_eq!(Ticker::from_str("US D"), Err(InvalidIdent::InvalidChar(b' ')));
    assert_eq!(Ticker::from_str("ABCDEFGHI"), Err(InvalidIdent::TooLong(9, 8)));
    assert_eq!(Ticker::from_str("€UR"), Err(InvalidIdent::NonAsciiChar));
}

#[test]
fn name_accepts_printable_ascii() {
    assert_eq!(Name::from_str("Tether USD (test)").unwrap().as_str(), "Tether USD (test)");
    assert!(Name::from_str(&"x".repeat(40)).is_ok());
}

#[test]
fn name_errors() {
    assert_eq!(Name::from_str(""), Err(InvalidIdent::Empty));
    assert_eq!(Name::from_str("tab\there"), Err(InvalidIdent::InvalidChar(b'\t')));
    assert_eq!(Name::from_str(&"x".repeat(41)), Err(InvalidIdent::TooLong(41, 40)));
    assert_eq!(Name::from_str("naïve"), Err(InvalidIdent::NonAsciiChar));
}

#[test]
fn details_bounds() {
    assert_eq!(Details::from_str("Ünïcode is fine").unwrap().as_str(), "Ünïcode is fine");
    assert_eq!(Details::from_str(""), Err(InvalidIdent::Empty));
    assert!(Details::from_str(&"d".repeat(255)).is_ok());
    assert_eq!(Details::from_str(&"d".repeat(256)), Err(InvalidIdent::TooLong(256, 255)));
}

#[test]
fn ricardian_contract_bounds() {
    assert_eq!(RicardianContract::from_str("").unwrap().as_str(), "");
    assert_eq!(
        RicardianContract::from_str(&"t".repeat(65536)),
        Err(InvalidIdent::TooLong(65536, 65535))
    );
}

#[test]
fn asset_spec_with_reports_first_error() {
    assert_eq!(
        AssetSpec::with("bad", "also\tbad", Precision::Centi, Some("")),
        Err(InvalidIdent::InvalidChar(b'b'))
    );
    assert_eq!(
        AssetSpec::with("OK", "also\tbad", Precision::Centi, Some("")),
        Err(InvalidIdent::InvalidChar(b'\t'))
    );
    assert_eq!(AssetSpec::with("OK", "Fine", Precision::Centi, Some("")), Err(InvalidIdent::Empty));
}

#[test]
fn asset_spec_with_builds() {
    let spec = AssetSpec::with("TCKR", "Test asset", Precision::Atto, Some("details")).unwrap();
    assert_eq!(spec.ticker(), "TCKR");
    assert_eq!(spec.name(), "Test asset");
    assert_eq!(spec.details(), Some("details"));
    assert_eq!(spec.precision, Precision::Atto);
    let plain = AssetSpec::new("TCKR", "Test asset", Precision::Indivisible);
    assert_eq!(plain.details(), None);
    assert_eq!(plain.ticker(), "TCKR");
}
