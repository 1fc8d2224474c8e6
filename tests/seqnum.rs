use tcp_rust::seqnum::{is_between_wrapped, seq_plus, wrapping_lt};

#[test]
fn lt_is_irreflexive_and_successor_is_greater() {
    for a in [0u32, 1, 1000, 0x7FFF_FFFF, 0x8000_0000, 0xFFFF_FFFE, 0xFFFF_FFFF] {
        assert!(!wrapping_lt(a, a));
        assert!(wrapping_lt(a, a.wrapping_add(1)));
        assert!(!wrapping_lt(a.wrapping_add(1), a));
    }
}

#[test]
fn lt_across_wraparound() {
    assert!(wrapping_lt(0xFFFF_FFFF, 0x0000_0001));
    assert!(!wrapping_lt(0x0000_0001, 0xFFFF_FFFF));
    assert!(wrapping_lt(1, 2));
    assert!(!wrapping_lt(2, 1));
}

#[test]
fn window_holds_its_start() {
    for nxt in [0u32, 5, 0xFFFF_FFF0, 0xFFFF_FFFF] {
        for wnd in [1u32, 2, 10, 65535, 0xFFFF_FFFF] {
            assert!(is_between_wrapped(nxt, nxt, nxt.wrapping_add(wnd)));
        }
    }
}

#[test]
fn window_membership_across_wraparound() {
    let start = 0xFFFF_FFFE;
    let end = seq_plus(start, 4);
    assert_eq!(end, 2);
    assert!(is_between_wrapped(start, 0xFFFF_FFFF, end));
    assert!(is_between_wrapped(start, 0, end));
    assert!(is_between_wrapped(start, 1, end));
    assert!(!is_between_wrapped(start, 2, end));
    assert!(!is_between_wrapped(start, 0xFFFF_FFFD, end));
    assert!(!is_between_wrapped(start, start, start));
}
