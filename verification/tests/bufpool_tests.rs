use haforu::bufpool::{get_canvas_buffer, return_canvas_buffer, CanvasPool, PooledBuffer};

#[test]
fn pooled_buffer_lifecycle() {
    let size = 1024;

    {
        let mut buf = PooledBuffer::new(size);
        assert_eq!(buf.as_ref().len(), size);
        buf.as_mut()[0] = 42;
    }

    {
        let buf = PooledBuffer::new(size);
        assert_eq!(buf.as_ref().len(), size);
        assert_eq!(buf.as_ref()[0], 0);
    }
}

#[test]
fn take_prevents_return_to_pool() {
    let size = 512;
    let buf = PooledBuffer::new(size);
    let owned = buf.take();
    assert_eq!(owned.len(), size);
}

#[test]
fn canvas_pool_reuses_zeroed_buffers() {
    let mut pool = CanvasPool::new();
    let mut first = get_canvas_buffer(&mut pool, 16);
    first[3] = 99;
    return_canvas_buffer(&mut pool, first);
    let second = get_canvas_buffer(&mut pool, 16);
    assert_eq!(second.len(), 16);
    assert!(second.iter().all(|&b| b == 0));
}

#[test]
fn pooled_acquisition_and_release_round_trip() {
    let mut pool = CanvasPool::new();
    let buf = PooledBuffer::from_pool(&mut pool, 32);
    assert_eq!(buf.as_ref().len(), 32);
    buf.release(&mut pool);
    let again = PooledBuffer::from_pool(&mut pool, 8);
    assert!(again.as_ref().iter().all(|&b| b == 0));
}
