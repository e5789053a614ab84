use maestro::errno::Errno;
use maestro::pipe::{PipeBuffer, ReadStep, WriteStep, FIONREAD, PIPE_BUF};

#[test]
fn pipe_fifo_order() {
    let mut pipe = PipeBuffer::new();
    assert_eq!(pipe.get_capacity(), PIPE_BUF);
    pipe.acquire(true, false);
    pipe.acquire(false, true);
    assert_eq!(pipe.write(b"hello"), WriteStep::Done(5));
    assert_eq!(pipe.write(b" world"), WriteStep::Done(6));
    assert_eq!(pipe.ioctl(FIONREAD), Ok(11));
    let mut buf = [0u8; 4];
    assert_eq!(pipe.read(&mut buf), ReadStep::Done(4));
    assert_eq!(&buf, b"hell");
    let mut buf = [0u8; 16];
    assert_eq!(pipe.read(&mut buf), ReadStep::Done(7));
    assert_eq!(&buf[..7], b"o world");
    // Empty with a writer: wait
    assert_eq!(pipe.read(&mut buf), ReadStep::Wait);
    assert_eq!(pipe.ioctl(0x1234), Err(Errno::ENOTTY));
}

#[test]
fn pipe_ends() {
    let mut pipe = PipeBuffer::new();
    let mut buf = [0u8; 8];
    // No writer: end of file
    assert_eq!(pipe.read(&mut buf), ReadStep::Done(0));
    // No reader: broken pipe
    assert_eq!(pipe.write(b"x"), WriteStep::Broken);
    assert_eq!(pipe.write(b""), WriteStep::Done(0));
    pipe.acquire(true, true);
    // The last writer leaves while a reader remains: wake everyone up
    assert!(pipe.release(false, true));
    pipe.acquire(false, true);
    // The last reader leaves while a writer remains: wake everyone up
    assert!(pipe.release(true, false));
    assert!(!pipe.release(false, true));
    assert_eq!(pipe.get_stat().mode, 0o010666);
}

#[test]
fn pipe_full() {
    let mut pipe = PipeBuffer::new();
    pipe.acquire(true, true);
    let data = vec![7u8; PIPE_BUF * 2];
    assert_eq!(pipe.write(&data), WriteStep::Done(PIPE_BUF - 1));
    assert_eq!(pipe.write(&data), WriteStep::Wait);
    let mut buf = [0u8; 1];
    assert_eq!(pipe.read(&mut buf), ReadStep::Done(1));
    assert_eq!(pipe.write(&data), WriteStep::Done(1));
    let mut empty: [u8; 0] = [];
    assert_eq!(pipe.read(&mut empty), ReadStep::Done(0));
}

#[test]
fn netlink_handle() {
    let mut h = maestro::netlink::Handle::new().unwrap();
    assert_eq!(h.family, 0);
    let mut buf = [0u8; 8];
    assert_eq!(h.read(&mut buf), Ok((0, false)));
    assert_eq!(h.write(b"abc"), Ok(3));
    assert_eq!(h.write(b"defg"), Ok(4));
}
