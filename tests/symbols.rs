use http_fun::resolve;

const TABLE: &[(&str, u32)] = &[
    ("__divsi3", 0x4000_0010),
    ("memcmp", 0x4000_0020),
    ("rtio_output", 0x4000_0030),
    ("memcmp", 0x4000_0040),
];

#[test]
fn resolve_finds_an_exported_name() {
    assert_eq!(resolve(TABLE, b"rtio_output"), Some(0x4000_0030));
    assert_eq!(resolve(TABLE, b"__divsi3"), Some(0x4000_0010));
}

#[test]
fn resolve_takes_the_first_of_equal_names() {
    assert_eq!(resolve(TABLE, b"memcmp"), Some(0x4000_0020));
}

#[test]
fn resolve_needs_the_exact_name() {
    assert_eq!(resolve(TABLE, b"rtio_outpu"), None);
    assert_eq!(resolve(TABLE, b"rtio_output_wide"), None);
    assert_eq!(resolve(TABLE, b""), None);
    assert_eq!(resolve(&[], b"memcmp"), None);
}
