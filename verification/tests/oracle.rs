use cactus::oracle::fail_safe;

#[test]
fn fail_safe_counts_only_a_clear_yes_as_ignored() {
    assert!(fail_safe::<git2::Error>(Ok(true)));
    assert!(!fail_safe::<git2::Error>(Ok(false)));
    assert!(!fail_safe(Err(git2::Error::from_str("no such repository"))));
    assert!(!fail_safe::<()>(Err(())));
}
