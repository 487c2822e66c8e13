use ziphopp::inspect::MetaData;

/// Checks the shape `digits '.' digit digit unit` with a unit of B,
/// KB, MB or GB.
fn has_size_shape(s: &str) -> bool {
    let unit_len = if s.ends_with("KB") || s.ends_with("MB") || s.ends_with("GB") {
        2
    } else if s.ends_with('B') {
        1
    } else {
        return false;
    };
    let body = &s[..s.len() - unit_len];
    let bytes = body.as_bytes();
    if bytes.len() < 4 {
        return false;
    }
    let dot = bytes.len() - 3;
    if bytes[dot] != b'.' {
        return false;
    }
    bytes[..dot].iter().all(|b| b.is_ascii_digit())
        && bytes[dot + 1..].iter().all(|b| b.is_ascii_digit())
}

#[test]
fn format_zero() {
    assert_eq!(MetaData::format_bytes(0), "0.00B");
}

#[test]
fn format_just_below_kilo() {
    assert_eq!(MetaData::format_bytes(1023), "1023.00B");
}

#[test]
fn format_one_kilo() {
    assert_eq!(MetaData::format_bytes(1024), "1.00KB");
}

#[test]
fn format_one_and_a_half_kilo() {
    assert_eq!(MetaData::format_bytes(1536), "1.50KB");
}

#[test]
fn format_one_mega() {
    assert_eq!(MetaData::format_bytes(1048576), "1.00MB");
}

#[test]
fn format_two_giga() {
    assert_eq!(MetaData::format_bytes(2 * 1073741824), "2.00GB");
}

#[test]
fn format_never_a_fifth_unit() {
    // 1024 GB and far beyond still render in GB
    assert_eq!(MetaData::format_bytes(1024 * 1073741824), "1024.00GB");
    assert_eq!(MetaData::format_bytes(1536 * 1073741824), "1536.00GB");
    assert!(MetaData::format_bytes(u64::MAX).ends_with("GB"));
}

#[test]
fn format_shape_everywhere() {
    let samples: [u64; 12] = [
        0,
        1,
        7,
        999,
        1023,
        1024,
        1025,
        999999,
        123456789,
        1073741823,
        1073741825,
        u64::MAX,
    ];
    for b in samples {
        let s = MetaData::format_bytes(b);
        assert!(has_size_shape(&s), "bad shape: {s}");
    }
}

#[test]
fn metadata_new_formats_both_sizes() {
    let m = MetaData::new(1024, 2048, String::from("demo.zip"));
    assert_eq!(m.compressed, "1.00KB");
    assert_eq!(m.size, "2.00KB");
    assert_eq!(m.name, "demo.zip");
}
