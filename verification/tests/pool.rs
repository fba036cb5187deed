use moonbeam::server::bufpool::{BufPool, Buffer};
use moonbeam::server::BUFSIZE;

#[test]
fn pool_hands_out_and_takes_back() {
    let mut pool = BufPool::new();
    let mut b = pool.get();
    assert_eq!(b.get_mut().len(), BUFSIZE);
    assert!(b.get_mut().iter().all(|&x| x == 0));
    b.get_mut()[0] = 9;
    pool.give(b.into_storage());
    let mut again = pool.get();
    assert_eq!(again.get_mut()[0], 9);
    let d = Buffer::default();
    assert_eq!(d.into_storage().len(), BUFSIZE);
}

#[test]
fn pool_reset_drops_unused_buffers() {
    let mut pool = BufPool::new();
    for _ in 0..4 {
        pool.give(vec![1u8; 4]);
    }
    // The first count keeps them all; with none taken since, the next keeps one.
    pool.reset();
    pool.reset();
    let _one = pool.get();
    let mut fresh = pool.get();
    assert_eq!(fresh.get_mut().len(), BUFSIZE);
}
