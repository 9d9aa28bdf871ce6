use phoenix::userspace::UserspaceStr;

#[test]
fn match_and_advance_skips_a_matching_prefix() {
    let s = UserspaceStr::from_bytes(b"open /dev/tty".to_vec(), 0x4000);
    let rest = s.match_and_advance(b"open ").unwrap();
    assert_eq!(rest.len(), 8);
    assert_eq!(rest.head(), b'/');
    // The original string is unchanged.
    assert_eq!(s.len(), 13);
    assert_eq!(s.head(), b'o');
}

#[test]
fn match_and_advance_rejects_a_different_prefix() {
    let s = UserspaceStr::from_bytes(b"close".to_vec(), 0);
    assert!(s.match_and_advance(b"open").is_none());
    assert!(s.match_and_advance(b"closed").is_none());
    assert_eq!(s.match_and_advance(b"").unwrap().len(), 5);
    assert!(s.match_and_advance(b"close").unwrap().is_empty());
}

#[test]
fn tail_drops_the_first_byte() {
    let s = UserspaceStr::from_bytes(vec![1, 2, 3], 10);
    let t = s.tail();
    assert_eq!(t.len(), 2);
    assert_eq!(t.head(), 2);
    assert_eq!(t.tail().tail().is_empty(), true);
}
