use maestro::errno::Errno;
use maestro::file::{Stat, S_IFREG, S_IFSOCK};
use maestro::net::{SockAddr, SockAddrIn, SockAddrUn, SocketDesc, SocketDomain, SocketType};
use maestro::socket::{
    Socket, SocketSet, UnixSocketOps, BUFFER_SIZE, SOL_SOCKET, SO_RCVBUF, SO_SNDBUF,
};
use maestro::tmpfs::{TmpFS, ROOT_INODE};
use maestro::vfs::{create_file, Entry};

fn desc() -> SocketDesc {
    SocketDesc { domain: SocketDomain::AfUnix, type_: SocketType::SockStream, protocol: 0 }
}

fn unix_addr(path: &[u8]) -> SockAddr {
    let mut sun_path = [0u8; 108];
    sun_path[..path.len()].copy_from_slice(path);
    SockAddr::Unix(SockAddrUn { sun_family: 1, sun_path })
}

fn stat_with_mode(mode: u32) -> Stat {
    let mut st = Stat::default();
    st.mode = mode;
    st
}

#[test]
fn socket_options() {
    let sock = Socket::new(desc());
    assert_eq!(sock.desc().domain, SocketDomain::AfUnix);
    assert!(!sock.is_listening());
    let mut val = [0xffu8; 6];
    assert_eq!(sock.get_opt(SOL_SOCKET, SO_SNDBUF, &mut val), Ok(4));
    assert_eq!(u32::from_ne_bytes([val[0], val[1], val[2], val[3]]) as usize, BUFFER_SIZE);
    assert_eq!(&val[4..], &[0xff, 0xff]);
    let mut short = [0u8; 2];
    assert_eq!(sock.get_opt(SOL_SOCKET, SO_RCVBUF, &mut short), Ok(2));
    assert_eq!(short, [0, 0]);
    let mut untouched = [9u8; 4];
    assert_eq!(sock.get_opt(SOL_SOCKET, 3, &mut untouched), Err(Errno::EINVAL));
    assert_eq!(sock.get_opt(0, SO_SNDBUF, &mut untouched), Err(Errno::EINVAL));
    assert_eq!(untouched, [9u8; 4]);
    assert_eq!(sock.set_opt(SOL_SOCKET, SO_SNDBUF, &[1, 2, 3, 4]), Ok(0));
}

#[test]
fn socket_open_count() {
    let mut sock = Socket::new(desc());
    sock.acquire();
    sock.acquire();
    assert!(!sock.release());
    assert!(sock.release());
    sock.shutdown_reception();
    sock.shutdown_transmit();
}

#[test]
fn unix_connect() {
    let mut fs = TmpFS::load_filesystem(false);
    let root = Entry::new_root(ROOT_INODE);
    let server_file =
        create_file(&mut fs, None, &root, b"server", stat_with_mode(S_IFSOCK | 0o777)).unwrap();
    create_file(&mut fs, None, &root, b"plain", stat_with_mode(S_IFREG | 0o644)).unwrap();

    let mut set = SocketSet::new();
    let server = set.add(Socket::new(desc()));
    let client = set.add(Socket::new_with_ops(desc(), UnixSocketOps::default()));
    assert_eq!(set.bind_node(server_file.node(), server), Ok(()));
    assert_eq!(set.bind_node(server_file.node(), client), Err(Errno::EEXIST));
    assert_eq!(set.find_node(server_file.node()), Some(server));

    let inet = SockAddr::Inet(SockAddrIn { sin_family: 2, sin_port: 0, sin_addr: 0, sin_zero: [0; 8] });
    assert_eq!(
        UnixSocketOps::connect(&mut set, client, &inet, &fs, None, None, &root),
        Err(Errno::EINVAL)
    );
    assert_eq!(
        UnixSocketOps::connect(&mut set, client, &unix_addr(b"/nope"), &fs, None, None, &root),
        Err(Errno::ENOENT)
    );
    assert_eq!(
        UnixSocketOps::connect(&mut set, client, &unix_addr(b"/plain"), &fs, None, None, &root),
        Err(Errno::ENOTSOCK)
    );
    assert!(!set.get(server).is_listening());
    assert_eq!(
        UnixSocketOps::connect(&mut set, client, &unix_addr(b"/server"), &fs, None, None, &root),
        Ok(())
    );
    // The new socket is pending on the server and is the peer of the client
    let conn = 2;
    assert_eq!(set.get(server).backlog, vec![conn]);
    assert!(set.get(server).is_listening());
    assert_eq!(set.get(client).ops.peer(), Some(conn));
    assert_eq!(set.get(conn).ops.peer(), Some(client));
    assert_eq!(set.get(conn).desc().type_, SocketType::SockStream);
    assert_eq!(
        UnixSocketOps::connect(&mut set, client, &unix_addr(b"/server"), &fs, None, None, &root),
        Err(Errno::EISCONN)
    );
}
