use scalar_mapper::digits::dec_string;

#[test]
fn decimal_rendering_is_exact() {
    assert_eq!(dec_string(0), "0");
    assert_eq!(dec_string(7), "7");
    assert_eq!(dec_string(10), "10");
    assert_eq!(dec_string(105), "105");
    assert_eq!(dec_string(99999), "99999");
    assert_eq!(dec_string(u64::MAX), "18446744073709551615");
    for n in 0u64..2000 {
        assert_eq!(dec_string(n), format!("{}", n));
    }
}
