//! Sockets: their buffers, options and open count, and the connection of UNIX sockets.
//!
//! Sockets refer to each other (a connected socket to its peer, a listening socket to the
//! connections pending on it). They live in a [`SocketSet`], where each is known by its index.
use crate::errno::Errno;
use crate::file::INode;
use crate::net::{SockAddr, SocketDesc, SocketDomain};
use crate::path::Path;
use crate::perm::ProcessFs;
use crate::ring_buffer::RingBuffer;
use crate::tmpfs::TmpFS;
use crate::vfs::{entry_node, file_at_path, get_file_from_path, Entry, EntryView};
use vstd::prelude::*;

verus! {

/// The maximum size of a socket's buffers.
pub const BUFFER_SIZE: usize = 65536;
/// Socket option level: Socket
pub const SOL_SOCKET: i32 = 1;
/// Socket opt: Send buffer size
pub const SO_SNDBUF: i32 = 7;
/// Socket opt: Receive buffer size
pub const SO_RCVBUF: i32 = 8;

/// The bytes of [`BUFFER_SIZE`] as a 32 bits value, in the byte order of the machine (x86:
/// little-endian).
pub open spec fn buffer_size_bytes() -> Seq<u8> {
    seq![0u8, 0u8, 1u8, 0u8]
}

/// Unix socket operations
#[derive(Debug)]
pub struct UnixSocketOps {
    /// If connected, contains the index of the peer socket
    peer: Option<usize>,
}

impl UnixSocketOps {
    /// The index of the peer socket, if connected.
    pub closed spec fn peer_spec(&self) -> Option<usize> {
        self.peer
    }

    /// Returns the index of the peer socket, if connected.
    pub fn peer(&self) -> (p: Option<usize>)
        ensures
            p == self.peer_spec(),
    {
        self.peer
    }
}

impl Default for UnixSocketOps {
    /// Operations of a socket that is not connected.
    fn default() -> (ops: Self)
        ensures
            ops.peer_spec() is None,
    {
        UnixSocketOps { peer: None }
    }
}

/// What a socket holds, as seen by its users.
pub struct SocketView {
    /// The socket's stack descriptor.
    pub desc: SocketDesc,
    /// The number of entities owning a reference to the socket.
    pub open_count: usize,
    /// The address the socket is bound to.
    pub sockaddr: Option<SockAddr>,
    /// The index of the peer socket, if connected.
    pub peer: Option<usize>,
    /// The connections pending on the socket, oldest first.
    pub backlog: Seq<usize>,
    /// Whether the backlog holds storage, which makes the socket a listening one.
    pub listening: bool,
    /// The received data, or `None` if reception has been shut down.
    pub rx: Option<Seq<u8>>,
    /// The data to be transmitted, or `None` if transmission has been shut down.
    pub tx: Option<Seq<u8>>,
}

/// A socket.
#[derive(Debug)]
pub struct Socket {
    /// The socket's stack descriptor.
    desc: SocketDesc,
    /// The number of entities owning a reference to the socket. When this count reaches zero, the
    /// socket is closed.
    open_count: usize,
    /// The address the socket is bound to
    pub sockaddr: Option<SockAddr>,
    /// Socket operations
    pub ops: UnixSocketOps,
    /// If this is a listening socket, this is a queue of pending connections to be accepted with
    /// the `accept` system call.
    pub backlog: Vec<usize>,
    /// Whether the backlog holds storage. It does from the first pending connection on, and
    /// keeps it.
    backlog_allocated: bool,
    /// The buffer containing received data. If `None`, reception has been shutdown.
    rx_buff: Option<RingBuffer>,
    /// The buffer containing data to be transmitted. If `None`, transmission has been shutdown.
    tx_buff: Option<RingBuffer>,
}

/// The view of a buffer that is either shut down or of size [`BUFFER_SIZE`].
pub open spec fn buffer_view(b: Option<RingBuffer>) -> Option<Seq<u8>> {
    match b {
        Some(r) => Some(r@),
        None => None,
    }
}

/// A buffer that is either shut down, or a well-formed ring of size [`BUFFER_SIZE`].
pub open spec fn buffer_wf(b: Option<RingBuffer>) -> bool {
    b matches Some(r) ==> r.wf() && r.capacity_spec() == BUFFER_SIZE
}

/// The view of a socket freshly created with descriptor `desc`, connected to `peer`.
pub open spec fn fresh_socket(desc: SocketDesc, peer: Option<usize>) -> SocketView {
    SocketView {
        desc,
        open_count: 0,
        sockaddr: None,
        peer,
        backlog: Seq::empty(),
        listening: false,
        rx: Some(Seq::empty()),
        tx: Some(Seq::empty()),
    }
}

impl View for Socket {
    type V = SocketView;

    closed spec fn view(&self) -> SocketView {
        SocketView {
            desc: self.desc,
            open_count: self.open_count,
            sockaddr: self.sockaddr,
            peer: self.ops.peer,
            backlog: self.backlog@,
            listening: self.backlog_allocated,
            rx: buffer_view(self.rx_buff),
            tx: buffer_view(self.tx_buff),
        }
    }
}

impl Socket {
    /// The buffers are either shut down or well-formed rings of size [`BUFFER_SIZE`], and a
    /// socket with pending connections is listening.
    pub closed spec fn wf(&self) -> bool {
        &&& buffer_wf(self.rx_buff)
        &&& buffer_wf(self.tx_buff)
        &&& self.backlog@.len() > 0 ==> self.backlog_allocated
    }

    /// Creates a new instance, with default socket operations.
    ///
    /// Only UNIX sockets have operations.
    pub fn new(desc: SocketDesc) -> (s: Self)
        requires
            desc.domain == SocketDomain::AfUnix,
        ensures
            s.wf(),
            s@ == fresh_socket(desc, None),
    {
        Self::new_with_ops(desc, UnixSocketOps::default())
    }

    /// Creates a new instance, with the given socket operations `ops`.
    pub fn new_with_ops(desc: SocketDesc, ops: UnixSocketOps) -> (s: Self)
        ensures
            s.wf(),
            s@ == fresh_socket(desc, ops.peer_spec()),
    {
        let s = Socket {
            desc,
            open_count: 0,
            sockaddr: None,
            ops,
            backlog: Vec::new(),
            backlog_allocated: false,
            rx_buff: Some(RingBuffer::new(BUFFER_SIZE)),
            tx_buff: Some(RingBuffer::new(BUFFER_SIZE)),
        };
        assert(s@.backlog =~= Seq::<usize>::empty());
        s
    }

    /// Returns the socket's descriptor.
    pub fn desc(&self) -> (d: &SocketDesc)
        ensures
            *d == self@.desc,
    {
        &self.desc
    }

    /// Reads the given socket option.
    ///
    /// Arguments:
    /// - `level` is the level (protocol) at which the option is located
    /// - `optname` is the name of the option
    /// - `optval` is the slice to write the value to
    ///
    /// The function returns the length of the written value: the part of the value that fits in
    /// `optval`.
    pub fn get_opt(&self, level: i32, optname: i32, optval: &mut [u8]) -> (r: Result<usize, Errno>)
        ensures
            level == SOL_SOCKET && (optname == SO_SNDBUF || optname == SO_RCVBUF) ==> {
                let n = if old(optval)@.len() < 4 {
                    old(optval)@.len()
                } else {
                    4
                };
                &&& r == Ok::<usize, Errno>(n as usize)
                &&& final(optval)@ == buffer_size_bytes().take(n as int) + old(optval)@.skip(
                    n as int,
                )
            },
            !(level == SOL_SOCKET && (optname == SO_SNDBUF || optname == SO_RCVBUF)) ==> {
                &&& r == Err::<usize, Errno>(Errno::EINVAL)
                &&& final(optval)@ == old(optval)@
            },
    {
        if level == SOL_SOCKET && (optname == SO_SNDBUF || optname == SO_RCVBUF) {
            let val: [u8; 4] = [0u8, 0u8, 1u8, 0u8];
            let n: usize = if optval.len() < 4 {
                optval.len()
            } else {
                4
            };
            let mut i: usize = 0;
            while i < n
                invariant
                    n <= 4,
                    n <= optval@.len(),
                    i <= n,
                    val@ == buffer_size_bytes(),
                    optval@.len() == old(optval)@.len(),
                    forall|k: int| 0 <= k < i ==> optval@[k] == val@[k],
                    forall|k: int| i <= k < optval@.len() ==> optval@[k] == old(optval)@[k],
                decreases n - i,
            {
                optval[i] = val[i];
                i += 1;
            }
            assert(optval@ =~= buffer_size_bytes().take(n as int) + old(optval)@.skip(n as int));
            Ok(n)
        } else {
            Err(Errno::EINVAL)
        }
    }

    /// Writes the given socket option.
    ///
    /// Arguments:
    /// - `level` is the level (protocol) at which the option is located
    /// - `optname` is the name of the option
    /// - `optval` is the value of the option
    ///
    /// No option can be written: the function accepts all and returns `0`, the value to be
    /// returned by the system call.
    pub fn set_opt(&self, level: i32, optname: i32, optval: &[u8]) -> (r: Result<i32, Errno>)
        ensures
            r == Ok::<i32, Errno>(0),
    {
        Ok(0)
    }

    /// Tells whether the socket is listening.
    pub fn is_listening(&self) -> (b: bool)
        ensures
            b == self@.listening,
    {
        self.backlog_allocated
    }

    /// Shuts down the reception side of the socket.
    pub fn shutdown_reception(&mut self)
        requires
            old(self).wf(),
        ensures
            final(self).wf(),
            final(self)@ == (SocketView { rx: None, ..old(self)@ }),
    {
        self.rx_buff = None;
    }

    /// Shuts down the transmit side of the socket.
    pub fn shutdown_transmit(&mut self)
        requires
            old(self).wf(),
        ensures
            final(self).wf(),
            final(self)@ == (SocketView { tx: None, ..old(self)@ }),
    {
        self.tx_buff = None;
    }

    /// Records a new owner of a reference to the socket.
    ///
    /// The count wraps around on overflow, as an atomic counter does.
    pub fn acquire(&mut self)
        requires
            old(self).wf(),
        ensures
            final(self).wf(),
            final(self)@ == (SocketView {
                open_count: old(self)@.open_count.wrapping_add(1),
                ..old(self)@
            }),
    {
        self.open_count = self.open_count.wrapping_add(1);
    }

    /// Records that an owner of a reference to the socket dropped it.
    ///
    /// The function returns `true` if the count reached zero, in which case the socket is to be
    /// closed. The count wraps around on underflow, as an atomic counter does.
    pub fn release(&mut self) -> (closing: bool)
        requires
            old(self).wf(),
        ensures
            final(self).wf(),
            final(self)@ == (SocketView {
                open_count: old(self)@.open_count.wrapping_sub(1),
                ..old(self)@
            }),
            closing == (old(self)@.open_count == 1),
    {
        self.open_count = self.open_count.wrapping_sub(1);
        self.open_count == 0
    }

    /// Appends the connection `conn` to the pending connections.
    fn push_pending(&mut self, conn: usize)
        requires
            old(self).wf(),
        ensures
            final(self).wf(),
            final(self)@ == (SocketView {
                backlog: old(self)@.backlog.push(conn),
                listening: true,
                ..old(self)@
            }),
    {
        self.backlog.push(conn);
        self.backlog_allocated = true;
    }

    /// Sets the peer of the socket.
    fn set_peer(&mut self, peer: usize)
        requires
            old(self).wf(),
        ensures
            final(self).wf(),
            final(self)@ == (SocketView { peer: Some(peer), ..old(self)@ }),
    {
        self.ops.peer = Some(peer);
    }
}

/// The socket whose operations the node `ino` has, if any.
pub open spec fn socket_of_node(files: Seq<(INode, usize)>, ino: INode) -> Option<usize> {
    if exists|i: int| 0 <= i < files.len() && files[i].0 == ino {
        let i = choose|i: int| 0 <= i < files.len() && files[i].0 == ino;
        Some(files[i].1)
    } else {
        None
    }
}

/// The sockets after the socket `sock` got connected to the listening socket `dst`, through
/// the new socket `conn`, which is pending on `dst` and is the peer of `sock`.
pub open spec fn connected(s: Seq<SocketView>, sock: int, dst: int, conn: usize) -> Seq<
    SocketView,
> {
    let s1 = s.update(dst, SocketView { backlog: s[dst].backlog.push(conn), listening: true, ..s[dst] });
    s1.update(sock, SocketView { peer: Some(conn), ..s1[sock] })
}

/// What a connection of the socket `sock` to the address `addr` gives, from the sockets `s`:
/// the result, and the sockets after it. `target` is the file that the path of a UNIX address
/// designates.
pub open spec fn connect_outcome(
    s: Seq<SocketView>,
    files: Seq<(INode, usize)>,
    sock: int,
    addr: SockAddr,
    target: Result<EntryView, Errno>,
) -> (Result<(), Errno>, Seq<SocketView>) {
    if !(addr is Unix) {
        (Err(Errno::EINVAL), s)
    } else {
        match target {
            Err(e) => (Err(e), s),
            Ok(file) => match socket_of_node(files, entry_node(file)) {
                None => (Err(Errno::ENOTSOCK), s),
                Some(dst) => if s[sock].peer is Some {
                    (Err(Errno::EISCONN), s)
                } else {
                    let conn = s.len() as usize;
                    (
                        Ok(()),
                        connected(s, sock, dst as int, conn).push(
                            fresh_socket(s[sock].desc, Some(sock as usize)),
                        ),
                    )
                },
            },
        }
    }
}

/// The sockets of the system, each known by its index, and the nodes whose operations are a
/// socket.
pub struct SocketSet {
    /// The sockets.
    sockets: Vec<Socket>,
    /// The socket files: the node of each, and the index of the socket it leads to.
    files: Vec<(INode, usize)>,
}

impl SocketSet {
    /// The sockets.
    pub closed spec fn sockets(&self) -> Seq<SocketView> {
        self.sockets@.map_values(|s: Socket| s@)
    }

    /// The socket files.
    pub closed spec fn files(&self) -> Seq<(INode, usize)> {
        self.files@
    }

    /// Each socket is well-formed, each index that the set holds designates a socket, and no
    /// node leads to two sockets.
    pub closed spec fn wf(&self) -> bool {
        &&& forall|i: int| 0 <= i < self.sockets@.len() ==> #[trigger] self.sockets@[i].wf()
        &&& forall|i: int|
            0 <= i < self.files@.len() ==> #[trigger] self.files@[i].1 < self.sockets@.len()
        &&& forall|i: int, j: int|
            0 <= i < j < self.files@.len() ==> #[trigger] self.files@[i].0
                != #[trigger] self.files@[j].0
    }

    /// Creates an empty set.
    pub fn new() -> (s: Self)
        ensures
            s.wf(),
            s.sockets() == Seq::<SocketView>::empty(),
            s.files() == Seq::<(INode, usize)>::empty(),
    {
        let s = SocketSet { sockets: Vec::new(), files: Vec::new() };
        assert(s.sockets() =~= Seq::<SocketView>::empty());
        s
    }

    /// Adds the socket `sock`, and returns its index.
    pub fn add(&mut self, sock: Socket) -> (id: usize)
        requires
            old(self).wf(),
            sock.wf(),
            old(self).sockets().len() < usize::MAX,
        ensures
            final(self).wf(),
            id == old(self).sockets().len(),
            final(self).sockets() == old(self).sockets().push(sock@),
            final(self).files() == old(self).files(),
    {
        let id = self.sockets.len();
        self.sockets.push(sock);
        assert(self.sockets() =~= old(self).sockets().push(sock@));
        id
    }

    /// Makes the node `ino` a file leading to the socket `sock`.
    ///
    /// If the node already leads to a socket, the function returns [`Errno::EEXIST`].
    pub fn bind_node(&mut self, ino: INode, sock: usize) -> (r: Result<(), Errno>)
        requires
            old(self).wf(),
            sock < old(self).sockets().len(),
        ensures
            final(self).wf(),
            final(self).sockets() == old(self).sockets(),
            socket_of_node(old(self).files(), ino) is Some ==> r == Err::<(), Errno>(Errno::EEXIST)
                && final(self).files() == old(self).files(),
            socket_of_node(old(self).files(), ino) is None ==> r == Ok::<(), Errno>(())
                && final(self).files() == old(self).files().push((ino, sock)),
    {
        match self.find_node(ino) {
            Some(_) => Err(Errno::EEXIST),
            None => {
                self.files.push((ino, sock));
                assert forall|i: int, j: int|
                    0 <= i < j < self.files@.len() implies #[trigger] self.files@[i].0
                    != #[trigger] self.files@[j].0 by {
                    if j == self.files@.len() - 1 {
                        assert(old(self).files@[i].0 != ino);
                    }
                }
                Ok(())
            },
        }
    }

    /// Returns the socket the node `ino` leads to, if any.
    pub fn find_node(&self, ino: INode) -> (r: Option<usize>)
        requires
            self.wf(),
        ensures
            r == socket_of_node(self.files(), ino),
            r matches Some(i) ==> i < self.sockets().len(),
    {
        let mut i: usize = 0;
        while i < self.files.len()
            invariant
                self.wf(),
                i <= self.files@.len(),
                forall|k: int| 0 <= k < i ==> self.files@[k].0 != ino,
            decreases self.files@.len() - i,
        {
            if self.files[i].0 == ino {
                let found = self.files[i].1;
                proof {
                    let c = choose|k: int| 0 <= k < self.files@.len() && self.files@[k].0 == ino;
                    if c != i as int {
                        if c < i {
                            assert(self.files@[c].0 != self.files@[i as int].0);
                        } else {
                            assert(self.files@[i as int].0 != self.files@[c].0);
                        }
                    }
                    assert(self.files@[i as int].1 < self.sockets@.len());
                }
                return Some(found);
            }
            i += 1;
        }
        None
    }

    /// Connects the socket `sock`, which has no peer, to the socket `dst`: a new socket, with the
    /// descriptor of `sock` and `sock` as peer, is added, appended to the pending connections of
    /// `dst`, and becomes the peer of `sock`.
    fn connect_to(&mut self, sock: usize, dst: usize)
        requires
            old(self).wf(),
            sock < old(self).sockets().len(),
            dst < old(self).sockets().len(),
            old(self).sockets().len() < usize::MAX,
        ensures
            final(self).wf(),
            final(self).files() == old(self).files(),
            final(self).sockets() == connected(
                old(self).sockets(),
                sock as int,
                dst as int,
                old(self).sockets().len() as usize,
            ).push(fresh_socket(old(self).sockets()[sock as int].desc, Some(sock))),
    {
        let ghost s = old(self).sockets();
        let conn = self.sockets.len();
        let peer = Socket::new_with_ops(self.sockets[sock].desc, UnixSocketOps { peer: Some(sock) });
        assert(self.sockets@[sock as int].wf());
        assert(self.sockets@[dst as int].wf());
        let mut d = self.sockets.remove(dst);
        d.push_pending(conn);
        self.sockets.insert(dst, d);
        assert(self.sockets() =~= s.update(
            dst as int,
            SocketView { backlog: s[dst as int].backlog.push(conn), listening: true, ..s[dst as int] },
        ));
        assert(self.sockets@[sock as int].wf()) by {
            if sock != dst {
                assert(self.sockets@[sock as int] == old(self).sockets@[sock as int]);
            }
        }
        let mut c = self.sockets.remove(sock);
        c.set_peer(conn);
        self.sockets.insert(sock, c);
        assert(self.sockets() =~= connected(s, sock as int, dst as int, conn));
        self.sockets.push(peer);
        assert(self.sockets() =~= connected(s, sock as int, dst as int, conn).push(
            fresh_socket(s[sock as int].desc, Some(sock)),
        ));
        assert forall|i: int| 0 <= i < self.sockets@.len() implies #[trigger] self.sockets@[i].wf() by {
            if i < s.len() && i != sock && i != dst {
                assert(self.sockets@[i] == old(self).sockets@[i]);
            }
        }
        assert forall|i: int| 0 <= i < self.files@.len() implies #[trigger] self.files@[i].1
            < self.sockets@.len() by {
            assert(old(self).files@[i].1 < old(self).sockets@.len());
        }
    }

    /// Returns the view of the socket at index `id`.
    pub fn get(&self, id: usize) -> (s: &Socket)
        requires
            self.wf(),
            id < self.sockets().len(),
        ensures
            s.wf(),
            s@ == self.sockets()[id as int],
    {
        &self.sockets[id]
    }
}

impl UnixSocketOps {
    /// Connects the socket at index `sock` as a client, with the given address `addr`.
    ///
    /// The address must be a UNIX one, else the function returns [`Errno::EINVAL`]. Its path is
    /// looked up following symbolic links, from the directories of the task `task_dirs` if any
    /// (its root, then its working directory), else from `vfs_root`; errors of the lookup are
    /// returned. If the file is not a socket, the function returns [`Errno::ENOTSOCK`]. If the
    /// socket is already connected, it returns [`Errno::EISCONN`].
    ///
    /// On success, a new socket, with the descriptor of `sock` and `sock` as peer, is added to
    /// the set, appended to the pending connections of the destination socket, and becomes the
    /// peer of `sock`.
    pub fn connect(
        set: &mut SocketSet,
        sock: usize,
        addr: &SockAddr,
        fs: &TmpFS,
        proc: Option<&ProcessFs>,
        task_dirs: Option<(&Entry, &Entry)>,
        vfs_root: &Entry,
    ) -> (r: Result<(), Errno>)
        requires
            old(set).wf(),
            sock < old(set).sockets().len(),
            old(set).sockets().len() < usize::MAX,
            vfs_root.wf(),
            task_dirs matches Some((rt, c)) ==> rt.wf() && c.wf(),
        ensures
            final(set).wf(),
            final(set).files() == old(set).files(),
            ({
                let (root, cwd) = match task_dirs {
                    Some((rt, c)) => (rt@, Some(c@)),
                    None => (vfs_root@, None::<EntryView>),
                };
                let path = match *addr {
                    SockAddr::Unix(sa) => unix_path(sa.sun_path@),
                    _ => Seq::empty(),
                };
                let target = file_at_path(fs@, proc, root, cwd, path);
                (r, final(set).sockets()) == connect_outcome(
                    old(set).sockets(),
                    old(set).files(),
                    sock as int,
                    *addr,
                    target,
                )
            }),
    {
        let sa = match addr {
            SockAddr::Unix(sa) => sa,
            _ => return Err(Errno::EINVAL),
        };
        let path = sa.get_path();
        proof {
            lemma_unix_path(sa.sun_path@, path@);
        }
        let file = get_file_from_path(fs, proc, task_dirs, vfs_root, path, true)?;
        let dst = match set.find_node(file.node()) {
            Some(d) => d,
            None => return Err(Errno::ENOTSOCK),
        };
        if set.sockets[sock].ops.peer.is_some() {
            return Err(Errno::EISCONN);
        }
        set.connect_to(sock, dst);
        Ok(())
    }
}

/// The path of a UNIX socket address: the bytes of `sun_path` up to its first null byte, or all
/// of them if it has none.
pub open spec fn unix_path(sun_path: Seq<u8>) -> Seq<u8> {
    if exists|n: int| 0 <= n < sun_path.len() && sun_path[n] == 0 {
        let n = choose|n: int|
            0 <= n < sun_path.len() && sun_path[n] == 0 && forall|k: int|
                0 <= k < n ==> sun_path[k] != 0;
        sun_path.take(n)
    } else {
        sun_path
    }
}

/// A prefix of `sun_path` free of null bytes and followed by one (or by nothing) is its path.
pub proof fn lemma_unix_path(sun_path: Seq<u8>, p: Seq<u8>)
    requires
        p.len() <= sun_path.len(),
        p == sun_path.take(p.len() as int),
        forall|i: int| 0 <= i < p.len() ==> sun_path[i] != 0,
        p.len() == sun_path.len() || sun_path[p.len() as int] == 0,
    ensures
        unix_path(sun_path) == p,
{
    if p.len() < sun_path.len() {
        let n = p.len() as int;
        assert(0 <= n < sun_path.len() && sun_path[n] == 0 && forall|k: int|
            0 <= k < n ==> sun_path[k] != 0);
        let c = choose|m: int|
            0 <= m < sun_path.len() && sun_path[m] == 0 && forall|k: int|
                0 <= k < m ==> sun_path[k] != 0;
        assert(c == n) by {
            if c < n {
                assert(sun_path[c] != 0);
            } else if c > n {
                assert(sun_path[n] != 0);
            }
        }
    } else {
        assert(p =~= sun_path);
        assert forall|n: int| 0 <= n < sun_path.len() implies sun_path[n] != 0 by {
            assert(sun_path[n] == p[n]);
        }
    }
}

/// A successful connection pairs the two sockets: the socket and the new one are each other's
/// peer, and the new one is the last connection pending on the destination.
pub proof fn lemma_connect_pairs(
    s: Seq<SocketView>,
    files: Seq<(INode, usize)>,
    sock: int,
    addr: SockAddr,
    target: Result<EntryView, Errno>,
)
    requires
        0 <= sock < s.len(),
        s.len() < usize::MAX,
        forall|i: int| 0 <= i < files.len() ==> #[trigger] files[i].1 < s.len(),
        connect_outcome(s, files, sock, addr, target).0 is Ok,
    ensures
        ({
            let after = connect_outcome(s, files, sock, addr, target).1;
            let conn = s.len() as int;
            let dst = socket_of_node(files, entry_node(target->Ok_0))->0 as int;
            &&& after.len() == s.len() + 1
            &&& after[sock].peer == Some(conn as usize)
            &&& after[conn].peer == Some(sock as usize)
            &&& after[dst].backlog.last() == conn as usize
            &&& after[dst].listening
        }),
{
    let file = target->Ok_0;
    let ino = entry_node(file);
    let i = choose|i: int| 0 <= i < files.len() && files[i].0 == ino;
    assert(files[i].1 < s.len());
}

} // verus!
