use nyaa_si::error::Error;
use nyaa_si::model::Size;

#[test]
fn parse_size_units() {
    assert_eq!(Size::from_str("1 KiB").unwrap(), Size::KB(10));
    assert_eq!(Size::from_str("1 MiB").unwrap(), Size::MB(10));
    assert_eq!(Size::from_str("1 GiB").unwrap(), Size::GB(10));
    assert_eq!(Size::from_str("1 TiB").unwrap(), Size::TB(10));
}

#[test]
fn display_size() {
    assert_eq!(Size::KB(12).to_string(), "1.2 KiB");
    assert_eq!(Size::from_str("33.04 MiB").unwrap().to_string(), "33.0 MiB");
    assert_eq!(Size::GB(10).to_string(), "1.0 GiB");
    assert_eq!(Size::TB(10).to_string(), "1.0 TiB");
}

#[test]
fn compare_size() {
    assert!(Size::KB(10) < Size::MB(10));
    assert!(Size::MB(10) < Size::GB(10));
    assert!(Size::GB(10) < Size::TB(10));

    assert!(Size::KB(334) < Size::MB(445));
    assert!(Size::MB(334) < Size::GB(445));
    assert!(Size::GB(334) < Size::GB(445));
    assert!(Size::TB(334) < Size::TB(445));
}

#[test]
fn size_round_trip_all_units() {
    for s in ["700.0 KiB", "700.0 MiB", "1.5 GiB", "0.3 TiB", "0.0 KiB", "12345.6 MiB"] {
        assert_eq!(Size::from_str(s).unwrap().to_string(), s);
    }
}

#[test]
fn size_parse_bogus_is_error() {
    match Size::from_str("bogus") {
        Err(Error::SizeParsingError(m)) => assert_eq!(m, "Invalid size: bogus"),
        other => panic!("unexpected {:?}", other),
    }
    assert!(Size::from_str("1 KB").is_err());
    assert!(Size::from_str("1.5MiB").is_err());
    assert!(Size::from_str("x.5 MiB").is_err());
    assert!(Size::from_str(" 1 MiB").is_err());
    assert!(Size::from_str("1 MiB ").is_err());
}

#[test]
fn size_rounds_half_up_to_one_decimal() {
    assert_eq!(Size::from_str("1.25 KiB").unwrap(), Size::KB(13));
    assert_eq!(Size::from_str("1.249 KiB").unwrap(), Size::KB(12));
    assert_eq!(Size::from_str("700 MiB").unwrap(), Size::MB(7000));
}

#[test]
fn size_ordering_across_units() {
    assert!(Size::MB(10) == Size::MB(10));
    assert_eq!(Size::KB(10240).partial_cmp(&Size::MB(10)), Some(std::cmp::Ordering::Equal));
    assert!(Size::TB(1) > Size::GB(1000));
    assert!(Size::KB(1) < Size::KB(2));
}

#[test]
fn size_magnitudes() {
    assert_eq!(Size::MB(7).tenths_exec(), 7);
    assert_eq!(Size::GB(3).kib_tenths_exec(), 3 * 1024 * 1024);
}

#[test]
fn size_accepts_every_float_form() {
    assert_eq!(Size::from_str("1e3 KiB").unwrap(), Size::KB(10000));
    assert_eq!(Size::from_str("+1 KiB").unwrap(), Size::KB(10));
    assert_eq!(Size::from_str("1. KiB").unwrap(), Size::KB(10));
    assert_eq!(Size::from_str(".5 KiB").unwrap(), Size::KB(5));
    assert_eq!(Size::from_str("2.5E-1 MiB").unwrap(), Size::MB(3));
    assert_eq!(Size::from_str("1.5e+2 GiB").unwrap(), Size::GB(1500));
    assert_eq!(Size::from_str("1e-9 TiB").unwrap(), Size::TB(0));
    assert_eq!(Size::from_str("0e999999999999999999999999999999999999 KiB").unwrap(), Size::KB(0));
    assert_eq!(Size::from_str("7e-999999999999999999999999999999999999 KiB").unwrap(), Size::KB(0));
    assert_eq!(Size::from_str("000.050 KiB").unwrap(), Size::KB(1));
    assert_eq!(Size::from_str("123456789012345678901234567890e-28 KiB").unwrap(), Size::KB(123));
}

#[test]
fn size_refuses_what_it_cannot_hold() {
    for s in [
        "-1 KiB", "inf KiB", "NaN KiB", "1e30 KiB", ". KiB", "e3 KiB", "1e KiB", "1e+ KiB",
        "1.2.3 KiB", "1e999999999999999999999999999999999999 KiB", "1844674407370955161.6 KiB",
    ] {
        match Size::from_str(s) {
            Err(Error::SizeParsingError(m)) => assert_eq!(m, format!("Invalid size: {}", s)),
            other => panic!("{} gave {:?}", s, other),
        }
    }
}

#[test]
fn largest_size_reads_back() {
    let v = Size::KB(u64::MAX);
    assert_eq!(v.to_string(), "1844674407370955161.5 KiB");
    assert_eq!(Size::from_str(&v.to_string()).unwrap(), v);
    let w = Size::TB(u64::MAX - 3);
    assert_eq!(Size::from_str(&w.to_string()).unwrap(), w);
}

#[test]
fn size_from_str_trait() {
    let v: Size = "700.0 MiB".parse().unwrap();
    assert_eq!(v, Size::MB(7000));
}
