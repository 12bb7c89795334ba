use parse_changelog::format_macros;

fn t(from: &[u8], expected: &[u8]) {
    let mut b = from.to_vec();
    format_macros(&mut b);
    assert_eq!(b, expected);
}

#[test]
fn test_format_macros() {
    t(b"m!(crate ::a::b)", b"m!(crate::a::b)");
    t(b"(crate ::a::b)", b"(crate ::a::b)");
    t(b"m!(crate ::a::b < () >)", b"m!(crate::a::b<()>)");
    t(b"m!(crate ::a::b <  >)", b"m!(crate::a::b<>)");
    t(b"if < 0 ", b"if < 0 ");
    t(b"if > 0 ", b"if > 0 ");
}
