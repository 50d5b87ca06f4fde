use idm_engine::engine::writer::{AlignedBuffer, AlignedBufferPool};

#[test]
fn test_aligned_buffer() {
    let mut buf = AlignedBuffer::new(512 * 1024);
    assert_eq!(buf.capacity(), 512 * 1024);
    buf.as_mut_slice()[..5].copy_from_slice(b"hello");
    buf.set_len(5);
    assert_eq!(buf.as_slice(), b"hello");
}

#[test]
fn test_buffer_pool() {
    let mut pool = AlignedBufferPool::new(4096);
    let buf = pool.acquire();
    assert_eq!(buf.capacity(), 4096);
    pool.release(buf);
    let buf2 = pool.acquire();
    assert_eq!(buf2.capacity(), 4096);
}

#[test]
fn capacity_rounds_up_to_pages() {
    assert_eq!(AlignedBuffer::new(0).capacity(), 4096);
    assert_eq!(AlignedBuffer::new(1).capacity(), 4096);
    assert_eq!(AlignedBuffer::new(4097).capacity(), 8192);
    let b = AlignedBuffer::new(100);
    assert!(b.as_slice().is_empty());
    assert_eq!(b.remaining(), 4096);
    assert!(!b.is_full());
}

#[test]
fn fill_state() {
    let mut b = AlignedBuffer::new(4096);
    b.set_len(4096);
    assert!(b.is_full());
    assert_eq!(b.remaining(), 0);
    b.clear();
    assert_eq!(b.remaining(), 4096);
    assert!(b.as_mut_slice().iter().all(|&x| x == 0));
}

#[test]
fn pool_returns_cleared_buffers_last_in_first_out() {
    let mut pool = AlignedBufferPool::new(100);
    let mut small = pool.acquire();
    small.set_len(10);
    let big = AlignedBuffer::new(3 * 4096);
    pool.release(small);
    pool.release(big);
    let first = pool.acquire();
    assert_eq!(first.capacity(), 3 * 4096);
    let second = pool.acquire();
    assert_eq!(second.capacity(), 4096);
    assert!(second.as_slice().is_empty());
}

#[test]
fn pool_keeps_at_most_sixteen() {
    let mut pool = AlignedBufferPool::new(4096);
    for _ in 0..20 {
        pool.release(AlignedBuffer::new(8192));
    }
    let mut from_pool = 0;
    for _ in 0..20 {
        if pool.acquire().capacity() == 8192 {
            from_pool += 1;
        }
    }
    assert_eq!(from_pool, 16);
}

#[test]
fn pooled_buffer_needs_no_size_check() {
    let mut pool = AlignedBufferPool::new(usize::MAX);
    pool.release(AlignedBuffer::new(10));
    assert_eq!(pool.pooled(), 1);
    assert_eq!(pool.acquire().capacity(), 4096);
    assert_eq!(pool.pooled(), 0);
}
