use matrix_gotify_bridge::backoff::ReconnectBackoff;

#[test]
fn delays_double_up_to_a_minute() {
    let mut b = ReconnectBackoff::new();
    let delays: Vec<u64> = (0..8).map(|_| b.next_delay()).collect();
    assert_eq!(delays, vec![2, 4, 8, 16, 32, 60, 60, 60]);
}

#[test]
fn connecting_resets_the_delay() {
    let mut b = ReconnectBackoff::new();
    b.next_delay();
    b.next_delay();
    b.next_delay();
    b.on_connected();
    assert_eq!(b.next_delay(), 2);
    assert_eq!(b.next_delay(), 4);
}
