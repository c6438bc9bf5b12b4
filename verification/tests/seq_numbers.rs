use handshake::seq::{is_acceptable, is_between_wrapped, wrapping_lt};

#[test]
fn wrapping_lt_orders_across_the_wrap() {
    assert!(wrapping_lt(1, 2));
    assert!(!wrapping_lt(2, 1));
    assert!(!wrapping_lt(7, 7));
    assert!(wrapping_lt(u32::MAX, 0));
    assert!(wrapping_lt(u32::MAX - 5, 10));
    assert!(!wrapping_lt(10, u32::MAX - 5));
}

#[test]
fn is_between_wrapped_is_the_open_interval() {
    assert!(is_between_wrapped(10, 11, 12));
    assert!(!is_between_wrapped(10, 10, 12));
    assert!(!is_between_wrapped(10, 12, 12));
    assert!(is_between_wrapped(u32::MAX - 1, 0, 2));
}

#[test]
fn acceptability_is_the_same_at_the_wrap() {
    for k in [1u32, 7, 100, 65535] {
        let near = 0u32.wrapping_sub(k);
        for off in [0u32, 1, 99, 100, 101] {
            for len in [0u32, 1, 50] {
                for wnd in [0u16, 1, 100] {
                    assert_eq!(
                        is_acceptable(1000 + off, len, 1000, wnd),
                        is_acceptable(near.wrapping_add(off), len, near, wnd)
                    );
                }
            }
        }
    }
}
