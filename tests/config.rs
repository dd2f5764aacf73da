use mendel::{default_max_sims, BagError, DEFAULT_MAX_SIMS};

#[test]
fn no_override_gives_default_budget() {
    assert_eq!(default_max_sims(None), Ok(100_000));
    assert_eq!(DEFAULT_MAX_SIMS, 100_000);
}

#[test]
fn decimal_override_is_read() {
    assert_eq!(default_max_sims(Some(b"250".as_slice())), Ok(250));
    assert_eq!(default_max_sims(Some(b"007".as_slice())), Ok(7));
    assert_eq!(default_max_sims(Some(b"4294967295".as_slice())), Ok(u32::MAX));
}

#[test]
fn override_may_carry_one_leading_plus() {
    assert_eq!(default_max_sims(Some(b"+5".as_slice())), Ok(5));
    assert_eq!(default_max_sims(Some(b"+500".as_slice())), Ok(500));
    assert_eq!(default_max_sims(Some(b"+4294967295".as_slice())), Ok(u32::MAX));
}

#[test]
fn bad_override_is_a_configuration_error() {
    for text in ["", "0", "000", "abc", "12a", "-5", " 5", "4294967296", "99999999999", "+", "++5", "+0", "5+", "+-5", "+4294967296"] {
        assert_eq!(
            default_max_sims(Some(text.as_bytes())),
            Err(BagError::InvalidConfiguration),
            "{text:?}"
        );
    }
}
