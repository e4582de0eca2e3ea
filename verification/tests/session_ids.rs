use mcp_local_router::session_id::{format_session_id, session_id};

#[test]
fn session_ids_are_padded_to_sixteen_digits() {
    assert_eq!(format_session_id(0), "0000000000000000");
    assert_eq!(format_session_id(0xff), "00000000000000ff");
    assert_eq!(format_session_id(0x0123_4567_89ab_cdef), "0123456789abcdef");
    assert_eq!(format_session_id(u64::MAX as u128), "ffffffffffffffff");
}

#[test]
fn session_ids_grow_beyond_sixteen_digits() {
    assert_eq!(format_session_id(u64::MAX as u128 + 1), "10000000000000000");
    assert_eq!(
        format_session_id(u128::MAX),
        "ffffffffffffffffffffffffffffffff"
    );
}

#[test]
fn session_ids_agree_with_the_formatter() {
    let mut n: u128 = 1;
    for _ in 0..128 {
        assert_eq!(format_session_id(n), format!("{:016x}", n));
        assert_eq!(format_session_id(n - 1), format!("{:016x}", n - 1));
        n = n.wrapping_mul(3).wrapping_add(7);
    }
}

#[test]
fn new_session_ids_are_hexadecimal_and_differ() {
    let one = session_id();
    let two = session_id();
    for id in [&one, &two] {
        assert!(id.len() >= 16 && id.len() <= 32);
        assert!(id
            .chars()
            .all(|c| c.is_ascii_digit() || ('a'..='f').contains(&c)));
    }
    assert_ne!(one, two);
}

#[test]
fn the_number_of_a_session_id_can_be_read_back() {
    for n in [0, 1, 0xabc, u64::MAX as u128, 1 << 64, u128::MAX] {
        let id = format_session_id(n);
        assert_eq!(u128::from_str_radix(&id, 16), Ok(n));
        assert_eq!(id.len() > 16, n > u64::MAX as u128);
        assert!(id.len() == 16 || !id.starts_with('0'));
    }
}
