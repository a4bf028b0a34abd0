use probe_engine::config::ConfigError;
use probe_engine::decimal::decimal_string;
use probe_engine::ports::PortRange;

fn bounds(text: &str) -> Result<(u16, u16), ConfigError> {
    PortRange::parse(text).map(|range| (range.first(), range.last()))
}

#[test]
fn single_port_is_a_range_of_one() {
    assert_eq!(bounds("80"), Ok((80, 80)));
    let range = PortRange::parse("80").unwrap();
    assert_eq!(range.len(), 1);
    assert_eq!(range.port(0), Some(80));
    assert_eq!(range.port(1), None);
}

#[test]
fn range_is_read_with_both_ends() {
    assert_eq!(bounds("20-22"), Ok((20, 22)));
    let range = PortRange::parse("20-22").unwrap();
    assert_eq!(range.len(), 3);
    assert_eq!(range.port(0), Some(20));
    assert_eq!(range.port(2), Some(22));
    assert_eq!(range.port(3), None);
    assert!(range.contains(21));
    assert!(!range.contains(23));
}

#[test]
fn whole_port_space() {
    assert_eq!(bounds("0-65535"), Ok((0, 65535)));
    let range = PortRange::parse("0-65535").unwrap();
    assert_eq!(range.len(), 65536);
    assert_eq!(range.port(65535), Some(65535));
    assert_eq!(range.port(65536), None);
}

#[test]
fn start_above_end_is_an_invalid_range() {
    assert_eq!(bounds("100-50"), Err(ConfigError::InvalidPortRange));
    assert_eq!(bounds("1-0"), Err(ConfigError::InvalidPortRange));
    assert!(matches!(PortRange::new(100, 50), Err(ConfigError::InvalidPortRange)));
    assert!(PortRange::new(50, 50).is_ok());
}

#[test]
fn malformed_ports_are_unparsable() {
    for text in [
        "", "-", "5-", "-5", "1-2-3", "65536", "0-65536", "99999999999999999999", "80 ", " 80",
        "8o", "++1", "+", "1--2", "é", "80\u{660}", "0x50", "-1", "1,2",
    ] {
        assert_eq!(bounds(text), Err(ConfigError::UnparsablePort), "{:?}", text);
    }
}

#[test]
fn plus_sign_and_leading_zeros_are_read() {
    assert_eq!(bounds("+80"), Ok((80, 80)));
    assert_eq!(bounds("0080"), Ok((80, 80)));
    assert_eq!(bounds("+1-+2"), Ok((1, 2)));
    assert_eq!(bounds("000000000000000000000065535"), Ok((65535, 65535)));
}

#[test]
fn parse_agrees_with_the_standard_library_on_single_ports() {
    for text in ["0", "1", "65535", "65536", "+7", "-7", "", "007", "7a", "٣", "４"] {
        let expected = text.parse::<u16>().ok().map(|port| (port, port));
        assert_eq!(bounds(text).ok(), expected, "{:?}", text);
    }
}

#[test]
fn numerals_are_read_back() {
    for port in [0u16, 1, 9, 10, 99, 100, 443, 8080, 65535] {
        let text = decimal_string(port as u64);
        assert_eq!(text, port.to_string());
        assert_eq!(bounds(&text), Ok((port, port)));
    }
    assert_eq!(decimal_string(u64::MAX), u64::MAX.to_string());
}

#[test]
fn range_text_is_read_back_or_refused() {
    for (first, last) in [(0u16, 0u16), (1, 2), (22, 80), (65535, 65535), (80, 22), (65535, 0)] {
        let text = format!("{}-{}", decimal_string(first as u64), decimal_string(last as u64));
        if first <= last {
            assert_eq!(bounds(&text), Ok((first, last)));
        } else {
            assert_eq!(bounds(&text), Err(ConfigError::InvalidPortRange));
        }
    }
}
