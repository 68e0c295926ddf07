use anytls::pool::Client;

#[test]
fn pool_is_fifo() {
    let mut pool: Client<u32> = Client::new(2);
    assert!(pool.get_idle_session().is_none());
    pool.return_to_idle(10);
    pool.return_to_idle(11);
    pool.return_to_idle(12);
    assert_eq!(pool.get_idle_session(), Some(10));
    assert_eq!(pool.get_idle_session(), Some(11));
    assert_eq!(pool.get_idle_session(), Some(12));
    assert_eq!(pool.get_idle_session(), None);
}

#[test]
fn pool_trims_when_oversized() {
    let mut pool: Client<u32> = Client::new(2);
    for s in 0..4 {
        assert!(pool.return_to_idle(s).is_empty());
    }
    // The fifth return exceeds twice the minimum: the pool keeps the two
    // oldest and hands the rest back for closing.
    let overflow = pool.return_to_idle(4);
    assert_eq!(overflow, vec![2, 3, 4]);
    assert_eq!(pool.idle_len(), 2);
    assert_eq!(pool.get_idle_session(), Some(0));
    assert_eq!(pool.get_idle_session(), Some(1));
}

#[test]
fn pool_cleanup_keeps_minimum() {
    let mut pool: Client<u32> = Client::new(1);
    pool.return_to_idle(5);
    pool.return_to_idle(6);
    let removed = pool.cleanup_idle_sessions();
    assert_eq!(removed, vec![5]);
    assert_eq!(pool.idle_len(), 1);
    assert!(pool.cleanup_idle_sessions().is_empty());
}

#[test]
fn pool_close_drains_everything() {
    let mut pool: Client<u32> = Client::new(3);
    pool.return_to_idle(1);
    pool.return_to_idle(2);
    let all = pool.close();
    assert_eq!(all, vec![1, 2]);
    assert!(pool.is_closed());
    // A closed pool refuses returns: the session comes straight back.
    assert_eq!(pool.return_to_idle(9), vec![9]);
    assert_eq!(pool.idle_len(), 0);
}
