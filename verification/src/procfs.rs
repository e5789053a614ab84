//! The procfs is a virtual filesystem which provides information about processes.
//!
//! Each node of the filesystem produces its content as text, generated from the data of the
//! process it describes, and reads return a window of that text.
use crate::errno::Errno;
use crate::file::{FileType, Gid, INode, Mode, Stat as FileStat, Uid};
use crate::net::bytes_eq;
use vstd::prelude::*;
use vstd::string::*;

verus! {

/// A process ID.
pub type Pid = u16;

/// The ASCII digit for the value `d`.
pub open spec fn digit(d: nat) -> u8 {
    (48 + d) as u8
}

/// The decimal representation of `n`, without leading zeros.
pub open spec fn decimal(n: nat) -> Seq<u8>
    decreases n,
{
    if n < 10 {
        seq![digit(n)]
    } else {
        decimal(n / 10).push(digit(n % 10))
    }
}

/// The octal representation of `n`, without leading zeros.
pub open spec fn octal(n: nat) -> Seq<u8>
    decreases n,
{
    if n < 8 {
        seq![digit(n)]
    } else {
        octal(n / 8).push(digit(n % 8))
    }
}

/// The text `s` right-aligned in a field of `width` bytes, padded with spaces.
pub open spec fn pad_left(s: Seq<u8>, width: nat) -> Seq<u8> {
    if s.len() < width {
        Seq::new((width - s.len()) as nat, |i: int| 32u8) + s
    } else {
        s
    }
}

/// Appends the bytes `s` to `v`.
pub fn append(v: &mut Vec<u8>, s: &[u8])
    ensures
        final(v)@ == old(v)@ + s@,
{
    let mut i: usize = 0;
    while i < s.len()
        invariant
            i <= s@.len(),
            v@ == old(v)@ + s@.subrange(0, i as int),
        decreases s@.len() - i,
    {
        v.push(s[i]);
        i += 1;
        assert(v@ =~= old(v)@ + s@.subrange(0, i as int));
    }
    assert(s@.subrange(0, s@.len() as int) =~= s@);
}

/// Returns a vector holding the bytes `s`.
pub fn bytes_to_vec(s: &[u8]) -> (v: Vec<u8>)
    ensures
        v@ == s@,
{
    let mut v: Vec<u8> = Vec::new();
    append(&mut v, s);
    assert(v@ =~= s@);
    v
}

/// Appends the decimal representation of `n` to `v`.
pub fn write_decimal(v: &mut Vec<u8>, n: u64)
    ensures
        final(v)@ == old(v)@ + decimal(n as nat),
    decreases n,
{
    if n >= 10 {
        write_decimal(v, n / 10);
    }
    let d = (48 + n % 10) as u8;
    v.push(d);
    if n >= 10 {
        assert(v@ =~= old(v)@ + decimal(n as nat));
    } else {
        assert(v@ =~= old(v)@ + decimal(n as nat));
    }
}

/// Appends the octal representation of `n` to `v`.
fn write_octal(v: &mut Vec<u8>, n: u64)
    ensures
        final(v)@ == old(v)@ + octal(n as nat),
    decreases n,
{
    if n >= 8 {
        write_octal(v, n / 8);
    }
    let d = (48 + n % 8) as u8;
    v.push(d);
    assert(v@ =~= old(v)@ + octal(n as nat));
}

/// Appends the octal representation of `n`, right-aligned in a field of `width` bytes, to `v`.
pub fn write_octal_padded(v: &mut Vec<u8>, n: u64, width: usize)
    ensures
        final(v)@ == old(v)@ + pad_left(octal(n as nat), width as nat),
{
    let mut t: Vec<u8> = Vec::new();
    write_octal(&mut t, n);
    assert(t@ =~= octal(n as nat));
    let ghost v0 = v@;
    let mut i: usize = t.len();
    while i < width
        invariant
            t@.len() <= i <= width || (i == t@.len() && i >= width),
            v@ == v0 + Seq::new((i - t@.len()) as nat, |k: int| 32u8),
        decreases width - i,
    {
        v.push(32);
        i += 1;
        assert(v@ =~= v0 + Seq::new((i - t@.len()) as nat, |k: int| 32u8));
    }
    append(v, t.as_slice());
    assert(v@ =~= v0 + pad_left(octal(n as nat), width as nat));
}

/// The window of the text `content` that a read at offset `off` into a buffer of `len` bytes
/// returns: the bytes from `off`, at most `len` of them.
pub open spec fn window(content: Seq<u8>, off: int, len: int) -> Seq<u8> {
    if off >= content.len() {
        Seq::empty()
    } else if content.len() - off <= len {
        content.subrange(off, content.len() as int)
    } else {
        content.subrange(off, off + len)
    }
}

/// Copies the window of `content` at offset `off` to the beginning of `buf`.
///
/// The function returns the number of bytes copied, and whether the end of the content is
/// reached.
pub fn read_window(content: &[u8], off: u64, buf: &mut [u8]) -> (r: (u64, bool))
    ensures
        r.0 == window(content@, off as int, old(buf)@.len() as int).len(),
        final(buf)@ == window(content@, off as int, old(buf)@.len() as int) + old(buf)@.subrange(
            r.0 as int,
            old(buf)@.len() as int,
        ),
        r.1 == (off + r.0 >= content@.len()),
{
    let ghost w = window(content@, off as int, buf@.len() as int);
    if off >= content.len() as u64 {
        assert(buf@ =~= w + buf@.subrange(0, buf@.len() as int));
        return (0, true);
    }
    let start = off as usize;
    let avail = content.len() - start;
    let len = if avail < buf.len() {
        avail
    } else {
        buf.len()
    };
    let mut i: usize = 0;
    while i < len
        invariant
            i <= len,
            len <= buf@.len(),
            len == w.len(),
            start + len <= content@.len(),
            content@.len() <= usize::MAX,
            buf@.len() == old(buf)@.len(),
            w == content@.subrange(start as int, start + len),
            forall|j: int| 0 <= j < i ==> buf@[j] == w[j],
            forall|j: int| i <= j < buf@.len() ==> buf@[j] == old(buf)@[j],
        decreases len - i,
    {
        buf[i] = content[start + i];
        i += 1;
    }
    assert(buf@ =~= w + old(buf)@.subrange(len as int, old(buf)@.len() as int));
    (len as u64, start + len >= content.len())
}


/// What the nodes of the procfs read of a process.
pub struct ProcInfo {
    /// The command line arguments of the process.
    pub argv: Vec<Vec<u8>>,
    /// The path to the executable file of the process.
    pub exec_path: Vec<u8>,
    /// The file mode creation mask of the process.
    pub umask: Mode,
    /// The character representing the state of the process.
    pub state_char: u8,
    /// The name of the state of the process.
    pub state_name: Vec<u8>,
    /// The PID of the process.
    pub pid: Pid,
    /// The PID of the parent process.
    pub ppid: Pid,
    /// The ID of the process group.
    pub pgid: Pid,
    /// The scheduling priority of the process.
    pub priority: usize,
    /// The nice value of the process.
    pub nice: usize,
    /// The real user ID.
    pub uid: Uid,
    /// The effective user ID.
    pub euid: Uid,
    /// The saved user ID.
    pub suid: Uid,
    /// The real group ID.
    pub gid: Gid,
    /// The effective group ID.
    pub egid: Gid,
    /// The saved group ID.
    pub sgid: Gid,
    /// The stack pointer of the process.
    pub esp: usize,
    /// The instruction pointer of the process.
    pub eip: usize,
}

/// The name of the process: its first command line argument, or `?` if it has none.
pub open spec fn proc_name(p: &ProcInfo) -> Seq<u8> {
    if p.argv@.len() > 0 {
        p.argv@[0]@
    } else {
        "?".spec_bytes()
    }
}

/// Appends the name of the process to `v`.
fn write_name(v: &mut Vec<u8>, p: &ProcInfo)
    ensures
        final(v)@ == old(v)@ + proc_name(p),
{
    if p.argv.len() > 0 {
        append(v, p.argv[0].as_slice());
    } else {
        append(v, "?".as_bytes());
    }
}

/// The owner of the files of the process `proc`: its effective user and group IDs, or root if
/// it does not exist.
pub open spec fn proc_owner(proc: Option<&ProcInfo>) -> (Uid, Gid) {
    match proc {
        Some(p) => (p.euid, p.egid),
        None => (0u16, 0u16),
    }
}

/// Returns the owner of the files of the process `proc`: see [`proc_owner`].
pub fn get_proc_owner(proc: Option<&ProcInfo>) -> (r: (Uid, Gid))
    ensures
        r == proc_owner(proc),
{
    match proc {
        Some(p) => (p.euid, p.egid),
        None => (0, 0),
    }
}

/// The lines of the status file that do not depend on the process.
pub const STATUS_TAIL: &'static str = "FDSize: TODO
Groups: TODO
NStgid: TODO
NSpid: TODO
NSpgid: TODO
NSsid: TODO
VmPeak: TODO kB
VmSize: TODO kB
VmLck: TODO kB
VmPin: TODO kB
VmHWM: TODO kB
VmRSS: TODO kB
RssAnon: TODO kB
RssFile: TODO kB
RssShmem: TODO kB
VmData: TODO kB
VmStk: TODO kB
VmExe: TODO kB
VmLib: TODO kB
VmPTE: TODO kB
VmSwap: TODO kB
HugetlbPages: TODO kB
CoreDumping: TODO
THP_enabled: TODO
Threads: TODO
SigQ: TODO/TODO
SigPnd: 0000000000000000
ShdPnd: 0000000000000000
SigBlk: 0000000000000000
SigIgn: 0000000000000000
SigCgt: 0000000000000000
CapInh: 0000000000000000
CapPrm: 0000000000000000
CapEff: 0000000000000000
CapBnd: 000001ffffffffff
CapAmb: 0000000000000000
NoNewPrivs: 0
Seccomp: 0
Seccomp_filters: 0
Speculation_Store_Bypass: thread vulnerable
SpeculationIndirectBranch: conditional enabled
Cpus_allowed: ff
Cpus_allowed_list: 0-7
Mems_allowed: 00000001
Mems_allowed_list: 0
voluntary_ctxt_switches: 0
nonvoluntary_ctxt_switches: 0
";

/// The content of the status file of the process `p`.
pub open spec fn status_text(p: &ProcInfo) -> Seq<u8> {
    "Name: ".spec_bytes() + proc_name(p) + "\nUmask: ".spec_bytes() + pad_left(octal(p.umask as nat), 4)
        + "\nState: ".spec_bytes() + seq![p.state_char] + " (".spec_bytes() + p.state_name@
        + ")\nTgid: 0\nNgid: 0\nPid: ".spec_bytes() + decimal(p.pid as nat) + "\nPPid: ".spec_bytes()
        + decimal(p.ppid as nat) + "\nTracerPid: 0\nUid: ".spec_bytes() + decimal(p.uid as nat)
        + " ".spec_bytes() + decimal(p.euid as nat) + " ".spec_bytes() + decimal(p.suid as nat)
        + " 0\nGid: ".spec_bytes() + decimal(p.gid as nat) + " ".spec_bytes() + decimal(p.egid as nat)
        + " ".spec_bytes() + decimal(p.sgid as nat) + " 0\n".spec_bytes() + STATUS_TAIL.spec_bytes()
}

/// Returns the content of the status file of the process `p`.
pub fn status_content(p: &ProcInfo) -> (v: Vec<u8>)
    ensures
        v@ == status_text(p),
{
    let mut v: Vec<u8> = Vec::new();
    append(&mut v, "Name: ".as_bytes());
    write_name(&mut v, p);
    append(&mut v, "\nUmask: ".as_bytes());
    write_octal_padded(&mut v, p.umask as u64, 4);
    append(&mut v, "\nState: ".as_bytes());
    v.push(p.state_char);
    append(&mut v, " (".as_bytes());
    append(&mut v, p.state_name.as_slice());
    append(&mut v, ")\nTgid: 0\nNgid: 0\nPid: ".as_bytes());
    write_decimal(&mut v, p.pid as u64);
    append(&mut v, "\nPPid: ".as_bytes());
    write_decimal(&mut v, p.ppid as u64);
    append(&mut v, "\nTracerPid: 0\nUid: ".as_bytes());
    write_decimal(&mut v, p.uid as u64);
    append(&mut v, " ".as_bytes());
    write_decimal(&mut v, p.euid as u64);
    append(&mut v, " ".as_bytes());
    write_decimal(&mut v, p.suid as u64);
    append(&mut v, " 0\nGid: ".as_bytes());
    write_decimal(&mut v, p.gid as u64);
    append(&mut v, " ".as_bytes());
    write_decimal(&mut v, p.egid as u64);
    append(&mut v, " ".as_bytes());
    write_decimal(&mut v, p.sgid as u64);
    append(&mut v, " 0\n".as_bytes());
    append(&mut v, STATUS_TAIL.as_bytes());
    assert(v@ =~= status_text(p));
    v
}

/// The fields of the stat file after the stack and instruction pointers of the process.
pub const STAT_TAIL: &'static str = " TODO TODO TODO TODO 0 0 0 TODO TODO TODO TODO TODO TODO TODO TODO TODO TODO TODO TODO TODO TODO TODO TODO TODO";

/// The content of the stat file of the process `p`.
pub open spec fn stat_text(p: &ProcInfo) -> Seq<u8> {
    decimal(p.pid as nat) + " (".spec_bytes() + proc_name(p) + ") ".spec_bytes() + seq![p.state_char]
        + " ".spec_bytes() + decimal(p.ppid as nat) + " ".spec_bytes() + decimal(p.pgid as nat)
        + " 0 TODO TODO 0 0 0 0 0 0 0 TODO TODO ".spec_bytes() + decimal(p.priority as nat)
        + " ".spec_bytes() + decimal(p.nice as nat) + " 1 0 0 TODO TODO TODO TODO ".spec_bytes()
        + decimal(p.esp as nat) + " ".spec_bytes() + decimal(p.eip as nat) + STAT_TAIL.spec_bytes()
}

/// Returns the content of the stat file of the process `p`.
pub fn stat_content(p: &ProcInfo) -> (v: Vec<u8>)
    ensures
        v@ == stat_text(p),
{
    let mut v: Vec<u8> = Vec::new();
    write_decimal(&mut v, p.pid as u64);
    append(&mut v, " (".as_bytes());
    write_name(&mut v, p);
    append(&mut v, ") ".as_bytes());
    v.push(p.state_char);
    append(&mut v, " ".as_bytes());
    write_decimal(&mut v, p.ppid as u64);
    append(&mut v, " ".as_bytes());
    write_decimal(&mut v, p.pgid as u64);
    append(&mut v, " 0 TODO TODO 0 0 0 0 0 0 0 TODO TODO ".as_bytes());
    write_decimal(&mut v, p.priority as u64);
    append(&mut v, " ".as_bytes());
    write_decimal(&mut v, p.nice as u64);
    append(&mut v, " 1 0 0 TODO TODO TODO TODO ".as_bytes());
    write_decimal(&mut v, p.esp as u64);
    append(&mut v, " ".as_bytes());
    write_decimal(&mut v, p.eip as u64);
    append(&mut v, STAT_TAIL.as_bytes());
    assert(v@ =~= stat_text(p));
    v
}


/// The outcome `r` of a read of the text `content` at offset `off`, into a buffer holding
/// `before` before the read and `after` after it: the window at `off` is copied to the
/// beginning of the buffer, and its length returned, with whether the end of the text is
/// reached.
pub open spec fn read_outcome(
    content: Seq<u8>,
    off: u64,
    before: Seq<u8>,
    after: Seq<u8>,
    r: Result<(u64, bool), Errno>,
) -> bool {
    let w = window(content, off as int, before.len() as int);
    &&& r matches Ok((n, eof))
    &&& n == w.len()
    &&& after == w + before.subrange(n as int, before.len() as int)
    &&& eof == (off + n >= content.len())
}

/// The outcome `r` of a read of a node whose content is `content`, or that fails with `ENOENT`
/// where it is `None` (its process does not exist), at offset `off`, into a buffer holding
/// `before` before the read and `after` after it. A read into an empty buffer does nothing.
pub open spec fn node_read_outcome(
    content: Option<Seq<u8>>,
    off: u64,
    before: Seq<u8>,
    after: Seq<u8>,
    r: Result<(u64, bool), Errno>,
) -> bool {
    if before.len() == 0 {
        r == Ok::<(u64, bool), Errno>((0, false)) && after == before
    } else {
        match content {
            None => r == Err::<(u64, bool), Errno>(Errno::ENOENT) && after == before,
            Some(c) => read_outcome(c, off, before, after, r),
        }
    }
}

/// Reads the content `content` at offset `off` into `buf`, for the nodes of the procfs.
fn read_node(content: Option<Vec<u8>>, off: u64, buf: &mut [u8]) -> (r: Result<(u64, bool), Errno>)
    ensures
        node_read_outcome(
            match content {
                Some(c) => Some(c@),
                None => None,
            },
            off,
            old(buf)@,
            final(buf)@,
            r,
        ),
{
    if buf.len() == 0 {
        return Ok((0, false));
    }
    match content {
        None => Err(Errno::ENOENT),
        Some(c) => Ok(read_window(c.as_slice(), off, buf)),
    }
}

/// The status node of a process in the procfs.
#[derive(Debug)]
pub struct Status {
    /// The PID of the process.
    pub pid: Pid,
}

impl Status {
    /// The permissions of the node.
    pub fn get_mode(&self) -> (m: Mode)
        ensures
            m == 0o444,
    {
        0o444
    }

    /// The owner of the node: the effective user ID of the process `proc` (the process of the
    /// node, if it exists), or root.
    pub fn get_uid(&self, proc: Option<&ProcInfo>) -> (u: Uid)
        ensures
            u == proc_owner(proc).0,
    {
        get_proc_owner(proc).0
    }

    /// The group of the node: the effective group ID of the process `proc` (the process of the
    /// node, if it exists), or root.
    pub fn get_gid(&self, proc: Option<&ProcInfo>) -> (g: Gid)
        ensures
            g == proc_owner(proc).1,
    {
        get_proc_owner(proc).1
    }

    /// Reads the status of the process `proc` (the process of the node, if it exists) at offset
    /// `offset` into `buff`.
    ///
    /// If the process does not exist, the function returns [`Errno::ENOENT`].
    pub fn read(&mut self, proc: Option<&ProcInfo>, offset: u64, buff: &mut [u8]) -> (r: Result<
        (u64, bool),
        Errno,
    >)
        requires
            proc matches Some(p) ==> p.pid == old(self).pid,
        ensures
            node_read_outcome(
                match proc {
                    Some(p) => Some(status_text(p)),
                    None => None,
                },
                offset,
                old(buff)@,
                final(buff)@,
                r,
            ),
    {
        let content = match proc {
            Some(p) => {
                if buff.len() == 0 {
                    None
                } else {
                    Some(status_content(p))
                }
            },
            None => None,
        };
        if buff.len() == 0 {
            return Ok((0, false));
        }
        read_node(content, offset, buff)
    }

    /// Writing to the node is not allowed: the function returns [`Errno::EINVAL`].
    pub fn write(&mut self, _offset: u64, _buff: &[u8]) -> (r: Result<u64, Errno>)
        ensures
            r == Err::<u64, Errno>(Errno::EINVAL),
    {
        Err(Errno::EINVAL)
    }
}

/// The stat node of a process in the procfs.
#[derive(Debug)]
pub struct Stat {
    /// The PID of the process.
    pub pid: Pid,
}

impl Stat {
    /// The permissions of the node.
    pub fn get_mode(&self) -> (m: Mode)
        ensures
            m == 0o444,
    {
        0o444
    }

    /// The owner of the node: the effective user ID of the process `proc` (the process of the
    /// node, if it exists), or root.
    pub fn get_uid(&self, proc: Option<&ProcInfo>) -> (u: Uid)
        ensures
            u == proc_owner(proc).0,
    {
        get_proc_owner(proc).0
    }

    /// The group of the node: the effective group ID of the process `proc` (the process of the
    /// node, if it exists), or root.
    pub fn get_gid(&self, proc: Option<&ProcInfo>) -> (g: Gid)
        ensures
            g == proc_owner(proc).1,
    {
        get_proc_owner(proc).1
    }

    /// Reads the stat line of the process `proc` (the process of the node, if it exists) at
    /// offset `offset` into `buff`.
    ///
    /// If the process does not exist, the function returns [`Errno::ENOENT`].
    pub fn read(&mut self, proc: Option<&ProcInfo>, offset: u64, buff: &mut [u8]) -> (r: Result<
        (u64, bool),
        Errno,
    >)
        requires
            proc matches Some(p) ==> p.pid == old(self).pid,
        ensures
            node_read_outcome(
                match proc {
                    Some(p) => Some(stat_text(p)),
                    None => None,
                },
                offset,
                old(buff)@,
                final(buff)@,
                r,
            ),
    {
        if buff.len() == 0 {
            return Ok((0, false));
        }
        let content = match proc {
            Some(p) => Some(stat_content(p)),
            None => None,
        };
        read_node(content, offset, buff)
    }

    /// Writing to the node is not allowed: the function returns [`Errno::EINVAL`].
    pub fn write(&mut self, _offset: u64, _buff: &[u8]) -> (r: Result<u64, Errno>)
        ensures
            r == Err::<u64, Errno>(Errno::EINVAL),
    {
        Err(Errno::EINVAL)
    }
}

/// What the mounts node reads of a mountpoint.
pub struct MountInfo {
    /// The source of the mountpoint, as text.
    pub source: Vec<u8>,
    /// The path to the directory where the filesystem is mounted.
    pub target: Vec<u8>,
    /// The name of the type of the filesystem.
    pub fs_type: Vec<u8>,
}

/// The line of the mounts file describing the mountpoint `m`.
pub open spec fn mount_line(m: MountInfo) -> Seq<u8> {
    m.source@ + " ".spec_bytes() + m.target@ + " ".spec_bytes() + m.fs_type@ + " TODO 0 0\n".spec_bytes()
}

/// The content of the mounts file, for the mountpoints `ms`, in order.
pub open spec fn mounts_text(ms: Seq<MountInfo>) -> Seq<u8>
    decreases ms.len(),
{
    if ms.len() == 0 {
        Seq::empty()
    } else {
        mounts_text(ms.drop_last()) + mount_line(ms.last())
    }
}

/// Returns the content of the mounts file for the mountpoints `ms`.
pub fn mounts_content(ms: &Vec<MountInfo>) -> (v: Vec<u8>)
    ensures
        v@ == mounts_text(ms@),
{
    let mut v: Vec<u8> = Vec::new();
    let mut i: usize = 0;
    while i < ms.len()
        invariant
            i <= ms@.len(),
            v@ == mounts_text(ms@.subrange(0, i as int)),
        decreases ms@.len() - i,
    {
        let ghost v0 = v@;
        let m = &ms[i];
        append(&mut v, m.source.as_slice());
        append(&mut v, " ".as_bytes());
        append(&mut v, m.target.as_slice());
        append(&mut v, " ".as_bytes());
        append(&mut v, m.fs_type.as_slice());
        append(&mut v, " TODO 0 0\n".as_bytes());
        proof {
            assert(ms@.subrange(0, i + 1).drop_last() =~= ms@.subrange(0, i as int));
            assert(v@ =~= v0 + mount_line(ms@[i as int]));
        }
        i += 1;
    }
    assert(ms@.subrange(0, ms@.len() as int) =~= ms@);
    v
}

/// The mounts node of a process in the procfs: the list of mountpoints.
#[derive(Debug)]
pub struct Mounts {
    /// The PID of the process.
    pub pid: Pid,
}

impl Mounts {
    /// The permissions of the node.
    pub fn get_mode(&self) -> (m: Mode)
        ensures
            m == 0o444,
    {
        0o444
    }

    /// The owner of the node: the effective user ID of the process `proc` (the process of the
    /// node, if it exists), or root.
    pub fn get_uid(&self, proc: Option<&ProcInfo>) -> (u: Uid)
        ensures
            u == proc_owner(proc).0,
    {
        get_proc_owner(proc).0
    }

    /// The group of the node: the effective group ID of the process `proc` (the process of the
    /// node, if it exists), or root.
    pub fn get_gid(&self, proc: Option<&ProcInfo>) -> (g: Gid)
        ensures
            g == proc_owner(proc).1,
    {
        get_proc_owner(proc).1
    }

    /// Reads the list of the mountpoints `mountpoints` at offset `offset` into `buff`: one line
    /// per mountpoint, with its source, its target, the type of its filesystem and its flags.
    pub fn read(&mut self, mountpoints: &Vec<MountInfo>, offset: u64, buff: &mut [u8]) -> (r: Result<
        (u64, bool),
        Errno,
    >)
        ensures
            node_read_outcome(Some(mounts_text(mountpoints@)), offset, old(buff)@, final(buff)@, r),
    {
        if buff.len() == 0 {
            return Ok((0, false));
        }
        let content = mounts_content(mountpoints);
        read_node(Some(content), offset, buff)
    }

    /// Writing to the node is not allowed: the function returns [`Errno::EINVAL`].
    pub fn write(&mut self, _offset: u64, _buff: &[u8]) -> (r: Result<u64, Errno>)
        ensures
            r == Err::<u64, Errno>(Errno::EINVAL),
    {
        Err(Errno::EINVAL)
    }
}


/// The outcome `r` of a read of a node whose content is `content`, or that fails with `ENOENT`
/// where it is `None` (its process does not exist), at offset `off`, into a buffer holding
/// `before` before the read and `after` after it: the window at `off` is copied to the beginning
/// of the buffer, and its length returned.
pub open spec fn content_read_outcome(
    content: Option<Seq<u8>>,
    off: u64,
    before: Seq<u8>,
    after: Seq<u8>,
    r: Result<u64, Errno>,
) -> bool {
    match content {
        None => r == Err::<u64, Errno>(Errno::ENOENT) && after == before,
        Some(c) => {
            let w = window(c, off as int, before.len() as int);
            &&& r == Ok::<u64, Errno>(w.len() as u64)
            &&& after == w + before.subrange(w.len() as int, before.len() as int)
        },
    }
}

/// The content of the cmdline file for the command line arguments `argv`: each argument,
/// followed by a null byte.
pub open spec fn cmdline_text(argv: Seq<Vec<u8>>) -> Seq<u8>
    decreases argv.len(),
{
    if argv.len() == 0 {
        Seq::empty()
    } else {
        cmdline_text(argv.drop_last()) + argv.last()@ + seq![0u8]
    }
}

/// Returns the content of the cmdline file for the command line arguments `argv`.
pub fn cmdline_content(argv: &Vec<Vec<u8>>) -> (v: Vec<u8>)
    ensures
        v@ == cmdline_text(argv@),
{
    let mut v: Vec<u8> = Vec::new();
    let mut i: usize = 0;
    while i < argv.len()
        invariant
            i <= argv@.len(),
            v@ == cmdline_text(argv@.subrange(0, i as int)),
        decreases argv@.len() - i,
    {
        let ghost v0 = v@;
        append(&mut v, argv[i].as_slice());
        v.push(0);
        proof {
            assert(argv@.subrange(0, i + 1).drop_last() =~= argv@.subrange(0, i as int));
            assert(v@ =~= v0 + argv@[i as int]@ + seq![0u8]);
        }
        i += 1;
    }
    assert(argv@.subrange(0, argv@.len() as int) =~= argv@);
    v
}

/// The cmdline node of a process in the procfs: the command line arguments of the process.
#[derive(Clone, Debug)]
pub struct Cmdline(pub Pid);

impl Cmdline {
    /// The type of the node.
    pub fn get_file_type(&self) -> (t: FileType)
        ensures
            t == FileType::Regular,
    {
        FileType::Regular
    }

    /// The permissions of the node.
    pub fn get_mode(&self) -> (m: Mode)
        ensures
            m == 0o444,
    {
        0o444
    }

    /// Reads the command line arguments of the process `proc` (the process of the node, if it
    /// exists) at offset `off` into `buf`.
    ///
    /// If the process does not exist, the function returns [`Errno::ENOENT`].
    pub fn read_content(&self, proc: Option<&ProcInfo>, off: u64, buf: &mut [u8]) -> (r: Result<u64, Errno>)
        requires
            proc matches Some(p) ==> p.pid == self.0,
        ensures
            content_read_outcome(
                match proc {
                    Some(p) => Some(cmdline_text(p.argv@)),
                    None => None,
                },
                off,
                old(buf)@,
                final(buf)@,
                r,
            ),
    {
        match proc {
            Some(p) => {
                let content = cmdline_content(&p.argv);
                let (n, _) = read_window(content.as_slice(), off, buf);
                Ok(n)
            },
            None => Err(Errno::ENOENT),
        }
    }

    /// Writing to the node is not allowed: the function returns [`Errno::EACCES`].
    pub fn write_content(&self, _off: u64, _buf: &[u8]) -> (r: Result<u64, Errno>)
        ensures
            r == Err::<u64, Errno>(Errno::EACCES),
    {
        Err(Errno::EACCES)
    }
}

/// The exe node of a process in the procfs: the path to the executable file of the process.
#[derive(Debug)]
pub struct Exe(pub Pid);

impl Exe {
    /// The type of the node.
    pub fn get_file_type(&self) -> (t: FileType)
        ensures
            t == FileType::Regular,
    {
        FileType::Regular
    }

    /// Reads the path to the executable file of the process `proc` (the process of the node,
    /// if it exists) at offset `off` into `buf`.
    ///
    /// If the process does not exist, the function returns [`Errno::ENOENT`].
    pub fn read_content(&self, proc: Option<&ProcInfo>, off: u64, buf: &mut [u8]) -> (r: Result<u64, Errno>)
        requires
            proc matches Some(p) ==> p.pid == self.0,
        ensures
            content_read_outcome(
                match proc {
                    Some(p) => Some(p.exec_path@),
                    None => None,
                },
                off,
                old(buf)@,
                final(buf)@,
                r,
            ),
    {
        match proc {
            Some(p) => {
                let (n, _) = read_window(p.exec_path.as_slice(), off, buf);
                Ok(n)
            },
            None => Err(Errno::ENOENT),
        }
    }

    /// Writing to the node is not allowed: the function returns [`Errno::EACCES`].
    pub fn write_content(&self, _off: u64, _buf: &[u8]) -> (r: Result<u64, Errno>)
        ensures
            r == Err::<u64, Errno>(Errno::EACCES),
    {
        Err(Errno::EACCES)
    }
}

/// The `self` symlink, which points to the directory of the current process.
#[derive(Debug)]
pub struct SelfNode;

impl SelfNode {
    /// The status of the node: a symbolic link with all permissions.
    pub fn get_stat(&self) -> (st: FileStat)
        ensures
            st.mode == FileType::Link.mode_bits() | 0o777,
            st.nlink == 1,
            st.uid == 0,
            st.gid == 0,
            st.size == 0,
            st.blocks == 0,
            st.dev_major == 0,
            st.dev_minor == 0,
            st.ctime == 0,
            st.mtime == 0,
            st.atime == 0,
    {
        let mut st = FileStat::default();
        st.mode = FileType::Link.to_mode() | 0o777;
        st
    }

    /// Reads the target of the link, the PID `cur_pid` of the current process, at offset `off`
    /// into `buf`.
    pub fn read_content(&self, cur_pid: Pid, off: u64, buf: &mut [u8]) -> (r: Result<(u64, bool), Errno>)
        ensures
            read_outcome(decimal(cur_pid as nat), off, old(buf)@, final(buf)@, r),
    {
        let mut v: Vec<u8> = Vec::new();
        write_decimal(&mut v, cur_pid as u64);
        assert(v@ =~= decimal(cur_pid as nat));
        Ok(read_window(v.as_slice(), off, buf))
    }

    /// Writing to the node is not allowed: the function returns [`Errno::EACCES`].
    pub fn write_content(&self, _off: u64, _buf: &[u8]) -> (r: Result<u64, Errno>)
        ensures
            r == Err::<u64, Errno>(Errno::EACCES),
    {
        Err(Errno::EACCES)
    }
}

/// The `osrelease` node: the release of the kernel.
#[derive(Debug)]
pub struct OsRelease {}

impl OsRelease {
    /// The type of the node.
    pub fn get_file_type(&self) -> (t: FileType)
        ensures
            t == FileType::Regular,
    {
        FileType::Regular
    }

    /// The permissions of the node.
    pub fn get_mode(&self) -> (m: Mode)
        ensures
            m == 0o444,
    {
        0o444
    }

    /// Reads the release `version` of the kernel, followed by a newline, at offset `off` into
    /// `buf`.
    pub fn read_content(&self, version: &[u8], off: u64, buf: &mut [u8]) -> (r: Result<u64, Errno>)
        ensures
            content_read_outcome(Some(version@ + "\n".spec_bytes()), off, old(buf)@, final(buf)@, r),
    {
        let mut v: Vec<u8> = Vec::new();
        append(&mut v, version);
        append(&mut v, "\n".as_bytes());
        assert(v@ =~= version@ + "\n".spec_bytes());
        let (n, _) = read_window(v.as_slice(), off, buf);
        Ok(n)
    }

    /// Writing to the node is not allowed: the function returns [`Errno::EACCES`].
    pub fn write_content(&self, _off: u64, _buf: &[u8]) -> (r: Result<u64, Errno>)
        ensures
            r == Err::<u64, Errno>(Errno::EACCES),
    {
        Err(Errno::EACCES)
    }
}

/// The `version` node: the name and version of the kernel.
#[derive(Debug)]
pub struct Version;

impl Version {
    /// The type of the node.
    pub fn get_file_type(&self) -> (t: FileType)
        ensures
            t == FileType::Regular,
    {
        FileType::Regular
    }

    /// The permissions of the node.
    pub fn get_mode(&self) -> (m: Mode)
        ensures
            m == 0o444,
    {
        0o444
    }

    /// Reads the name `name` of the kernel, then ` version ` and its version `version`, at
    /// offset `off` into `buf`.
    pub fn read_content(&self, name: &[u8], version: &[u8], off: u64, buf: &mut [u8]) -> (r: Result<u64, Errno>)
        ensures
            content_read_outcome(
                Some(name@ + " version ".spec_bytes() + version@),
                off,
                old(buf)@,
                final(buf)@,
                r,
            ),
    {
        let mut v: Vec<u8> = Vec::new();
        append(&mut v, name);
        append(&mut v, " version ".as_bytes());
        append(&mut v, version);
        assert(v@ =~= name@ + " version ".spec_bytes() + version@);
        let (n, _) = read_window(v.as_slice(), off, buf);
        Ok(n)
    }

    /// Writing to the node is not allowed: the function returns [`Errno::EACCES`].
    pub fn write_content(&self, _off: u64, _buf: &[u8]) -> (r: Result<(), Errno>)
        ensures
            r == Err::<(), Errno>(Errno::EACCES),
    {
        Err(Errno::EACCES)
    }
}

/// The content of the uptime node.
pub const UPTIME_TEXT: &'static str = "0.00 0.00\n";

/// The uptime node: the time elapsed since the system started up.
#[derive(Debug)]
pub struct Uptime {}

impl Uptime {
    /// The type of the node.
    pub fn get_file_type(&self) -> (t: FileType)
        ensures
            t == FileType::Regular,
    {
        FileType::Regular
    }

    /// The permissions of the node.
    pub fn get_mode(&self) -> (m: Mode)
        ensures
            m == 0o444,
    {
        0o444
    }

    /// Reads the uptime at offset `offset` into `buff`.
    pub fn read(&mut self, offset: u64, buff: &mut [u8]) -> (r: Result<(u64, bool), Errno>)
        ensures
            read_outcome(UPTIME_TEXT.spec_bytes(), offset, old(buff)@, final(buff)@, r),
    {
        Ok(read_window(UPTIME_TEXT.as_bytes(), offset, buff))
    }

    /// Writing to the node is not allowed: the function returns [`Errno::EINVAL`].
    pub fn write(&mut self, _offset: u64, _buff: &[u8]) -> (r: Result<u64, Errno>)
        ensures
            r == Err::<u64, Errno>(Errno::EINVAL),
    {
        Err(Errno::EINVAL)
    }
}


/// An entry of a directory of the procfs.
#[derive(Debug)]
pub struct ProcEntry {
    /// The inode of the entry.
    pub inode: INode,
    /// The type of the entry.
    pub entry_type: FileType,
    /// The name of the entry.
    pub name: Vec<u8>,
}

/// The node behind an entry of the directory of a process.
#[derive(Debug)]
pub enum ProcNode {
    /// The command line arguments.
    Cmdline(Cmdline),
    /// The current working directory.
    Cwd(Pid),
    /// The executable file.
    Exe(Exe),
    /// The list of mountpoints.
    Mounts(Mounts),
    /// The stat line.
    Stat(Stat),
    /// The status.
    Status(Status),
}

/// The number of entries of the directory of a process.
pub const PROC_DIR_ENTRIES: usize = 6;

/// The names of the entries of the directory of a process, sorted.
pub open spec fn proc_dir_names() -> Seq<Seq<u8>> {
    seq![
        "cmdline".spec_bytes(),
        "cwd".spec_bytes(),
        "exe".spec_bytes(),
        "mounts".spec_bytes(),
        "stat".spec_bytes(),
        "status".spec_bytes(),
    ]
}

/// Returns the name of entry `i` of the directory of a process.
fn proc_dir_name(i: usize) -> (s: &'static str)
    requires
        i < PROC_DIR_ENTRIES,
    ensures
        s.spec_bytes() == proc_dir_names()[i as int],
{
    match i {
        0 => "cmdline",
        1 => "cwd",
        2 => "exe",
        3 => "mounts",
        4 => "stat",
        _ => "status",
    }
}

/// The node of entry `i` of the directory of the process `pid`.
pub open spec fn proc_node(i: int, pid: Pid) -> ProcNode {
    if i == 0 {
        ProcNode::Cmdline(Cmdline(pid))
    } else if i == 1 {
        ProcNode::Cwd(pid)
    } else if i == 2 {
        ProcNode::Exe(Exe(pid))
    } else if i == 3 {
        ProcNode::Mounts(Mounts { pid })
    } else if i == 4 {
        ProcNode::Stat(Stat { pid })
    } else {
        ProcNode::Status(Status { pid })
    }
}

/// The index of the first name of `names` equal to `name`, if any.
pub open spec fn name_index(names: Seq<Seq<u8>>, name: Seq<u8>) -> Option<int> {
    if exists|i: int| 0 <= i < names.len() && names[i] == name {
        Some(choose|i: int| 0 <= i < names.len() && names[i] == name && forall|j: int| 0 <= j < i ==> names[j] != name)
    } else {
        None
    }
}

/// The directory of a process in the procfs.
#[derive(Debug)]
pub struct ProcDir(pub Pid);

impl ProcDir {
    /// The status of the directory: a directory that everyone can list and search, owned by the
    /// owner of the process `proc` (the process of the directory, if it exists).
    pub fn get_stat(&self, proc: Option<&ProcInfo>) -> (st: FileStat)
        ensures
            st.mode == FileType::Directory.mode_bits() | 0o555,
            st.uid == proc_owner(proc).0,
            st.gid == proc_owner(proc).1,
            st.nlink == 1,
            st.size == 0,
            st.blocks == 0,
            st.dev_major == 0,
            st.dev_minor == 0,
            st.ctime == 0,
            st.mtime == 0,
            st.atime == 0,
    {
        let (uid, gid) = get_proc_owner(proc);
        let mut st = FileStat::default();
        st.mode = FileType::Directory.to_mode() | 0o555;
        st.uid = uid;
        st.gid = gid;
        st
    }

    /// Returns the entry named `name`, with its offset in the directory and its node.
    ///
    /// If the directory has no such entry, the function returns [`Errno::ENOENT`].
    pub fn entry_by_name(&self, name: &[u8]) -> (r: Result<Option<(ProcEntry, u64, ProcNode)>, Errno>)
        ensures
            match name_index(proc_dir_names(), name@) {
                Some(i) => (r matches Ok(Some((e, off, node))) && e.inode == 0 && e.entry_type
                    == FileType::Regular && e.name@ == name@ && off == i && node == proc_node(i, self.0)),
                None => r == Err::<Option<(ProcEntry, u64, ProcNode)>, Errno>(Errno::ENOENT),
            },
    {
        let mut i: usize = 0;
        while i < PROC_DIR_ENTRIES
            invariant
                i <= PROC_DIR_ENTRIES,
                forall|j: int| 0 <= j < i ==> proc_dir_names()[j] != name@,
            decreases PROC_DIR_ENTRIES - i,
        {
            if bytes_eq(name, proc_dir_name(i).as_bytes()) {
                let node = match i {
                    0 => ProcNode::Cmdline(Cmdline(self.0)),
                    1 => ProcNode::Cwd(self.0),
                    2 => ProcNode::Exe(Exe(self.0)),
                    3 => ProcNode::Mounts(Mounts { pid: self.0 }),
                    4 => ProcNode::Stat(Stat { pid: self.0 }),
                    _ => ProcNode::Status(Status { pid: self.0 }),
                };
                proof {
                    let k = name_index(proc_dir_names(), name@);
                    assert(k == Some(i as int)) by {
                        assert(proc_dir_names()[i as int] == name@);
                        let c = choose|c: int|
                            0 <= c < proc_dir_names().len() && proc_dir_names()[c] == name@ && forall|j: int|
                                0 <= j < c ==> proc_dir_names()[j] != name@;
                        if c < i {
                        } else if c > i {
                            assert(proc_dir_names()[i as int] != name@);
                        }
                    }
                }
                let e = ProcEntry { inode: 0, entry_type: FileType::Regular, name: bytes_to_vec(name) };
                return Ok(Some((e, i as u64, node)));
            }
            i += 1;
        }
        Err(Errno::ENOENT)
    }

    /// Returns the entry at offset `off` in the directory, with the offset of the next one, or
    /// `None` past the last entry.
    ///
    /// If `off` does not fit in a `usize`, the function returns [`Errno::EINVAL`].
    pub fn next_entry(&self, off: u64) -> (r: Result<Option<(ProcEntry, u64)>, Errno>)
        ensures
            off > usize::MAX ==> r == Err::<Option<(ProcEntry, u64)>, Errno>(Errno::EINVAL),
            off <= usize::MAX && off >= PROC_DIR_ENTRIES ==> r matches Ok(None),
            off < PROC_DIR_ENTRIES ==> (r matches Ok(Some((e, next))) && e.inode == 0 && e.entry_type
                == FileType::Regular && e.name@ == proc_dir_names()[off as int] && next == off + 1),
    {
        if off > usize::MAX as u64 {
            return Err(Errno::EINVAL);
        }
        let off = off as usize;
        if off >= PROC_DIR_ENTRIES {
            return Ok(None);
        }
        let name = bytes_to_vec(proc_dir_name(off).as_bytes());
        Ok(Some((ProcEntry { inode: 0, entry_type: FileType::Regular, name }, off as u64 + 1)))
    }
}

/// The value of the decimal digits `s`.
pub open spec fn digits_value(s: Seq<u8>) -> nat
    decreases s.len(),
{
    if s.len() == 0 {
        0
    } else {
        digits_value(s.drop_last()) * 10 + (s.last() - 48) as nat
    }
}

/// All the bytes of `s` are decimal digits.
pub open spec fn all_digits(s: Seq<u8>) -> bool {
    forall|i: int| 0 <= i < s.len() ==> 48 <= #[trigger] s[i] <= 57
}

/// The PID written in `s`: decimal digits, with an optional leading `+`, at least one, whose
/// value fits in a PID.
pub open spec fn pid_of(s: Seq<u8>) -> Option<Pid> {
    let d = if s.len() > 0 && s[0] == 43 {
        s.drop_first()
    } else {
        s
    };
    if d.len() > 0 && all_digits(d) && digits_value(d) <= 0xffff {
        Some(digits_value(d) as Pid)
    } else {
        None
    }
}

/// The value of a prefix of decimal digits is at most the value of the digits.
proof fn lemma_digits_prefix(d: Seq<u8>, k: int)
    requires
        all_digits(d),
        0 <= k <= d.len(),
    ensures
        digits_value(d.subrange(0, k)) <= digits_value(d),
    decreases d.len(),
{
    if k < d.len() {
        assert(d.drop_last().subrange(0, k) =~= d.subrange(0, k));
        assert(all_digits(d.drop_last()));
        lemma_digits_prefix(d.drop_last(), k);
    } else {
        assert(d.subrange(0, k) =~= d);
    }
}

/// Parses the PID written in `s`: see [`pid_of`].
pub fn parse_pid(s: &[u8]) -> (r: Option<Pid>)
    ensures
        r == pid_of(s@),
{
    let start: usize = if s.len() > 0 && s[0] == 43 {
        1
    } else {
        0
    };
    let ghost d = if s@.len() > 0 && s@[0] == 43 {
        s@.drop_first()
    } else {
        s@
    };
    assert(d =~= s@.subrange(start as int, s@.len() as int));
    if start == s.len() {
        return None;
    }
    let mut val: u32 = 0;
    let mut i: usize = start;
    while i < s.len()
        invariant
            start <= i <= s@.len(),
            d == s@.subrange(start as int, s@.len() as int),
            d == (if s@.len() > 0 && s@[0] == 43 {
                s@.drop_first()
            } else {
                s@
            }),
            all_digits(d.subrange(0, i - start)),
            val == digits_value(d.subrange(0, i - start)),
            val <= 0xffff,
        decreases s@.len() - i,
    {
        let c = s[i];
        if c < 48 || c > 57 {
            assert(d[i - start] == c);
            assert(!all_digits(d));
            return None;
        }
        proof {
            assert(d.subrange(0, i - start + 1).drop_last() =~= d.subrange(0, i - start));
            assert(d.subrange(0, i - start + 1).last() == c);
        }
        val = val * 10 + (c - 48) as u32;
        assert(all_digits(d.subrange(0, i - start + 1)));
        assert(val == digits_value(d.subrange(0, i - start + 1)));
        if val > 0xffff {
            proof {
                if all_digits(d) {
                    lemma_digits_prefix(d, i - start + 1);
                }
            }
            return None;
        }
        i += 1;
    }
    assert(d.subrange(0, d.len() as int) =~= d);
    Some(val as Pid)
}

/// The number of static entries of the root directory of the procfs.
pub const ROOT_STATIC_ENTRIES: usize = 6;

/// The names of the static entries of the root directory of the procfs, sorted.
pub open spec fn root_names() -> Seq<Seq<u8>> {
    seq![
        "meminfo".spec_bytes(),
        "mounts".spec_bytes(),
        "self".spec_bytes(),
        "sys".spec_bytes(),
        "uptime".spec_bytes(),
        "version".spec_bytes(),
    ]
}

/// The type of static entry `i` of the root directory of the procfs.
pub open spec fn root_type(i: int) -> FileType {
    if i == 1 || i == 2 {
        FileType::Link
    } else if i == 3 {
        FileType::Directory
    } else {
        FileType::Regular
    }
}

/// Returns the name and the type of static entry `i` of the root directory of the procfs.
fn root_entry(i: usize) -> (r: (&'static str, FileType))
    requires
        i < ROOT_STATIC_ENTRIES,
    ensures
        r.0.spec_bytes() == root_names()[i as int],
        r.1 == root_type(i as int),
{
    match i {
        0 => ("meminfo", FileType::Regular),
        1 => ("mounts", FileType::Link),
        2 => ("self", FileType::Link),
        3 => ("sys", FileType::Directory),
        4 => ("uptime", FileType::Regular),
        _ => ("version", FileType::Regular),
    }
}

/// The type of the entry named `name` in the root directory of the procfs, where the processes
/// `pids` exist: a directory for the PID of a process, else the type of the static entry, if
/// any.
pub open spec fn root_entry_type(name: Seq<u8>, pids: Seq<Pid>) -> Option<FileType> {
    if pid_of(name) matches Some(pid) && pids.contains(pid) {
        Some(FileType::Directory)
    } else {
        match name_index(root_names(), name) {
            Some(i) => Some(root_type(i)),
            None => None,
        }
    }
}

/// The root directory of the procfs.
#[derive(Debug)]
pub struct RootDir;

impl RootDir {
    /// The type of the node.
    pub fn get_file_type(&self) -> (t: FileType)
        ensures
            t == FileType::Directory,
    {
        FileType::Directory
    }

    /// The permissions of the node.
    pub fn get_mode(&self) -> (m: Mode)
        ensures
            m == 0o555,
    {
        0o555
    }

    /// Reading the directory as a file is not allowed: the function returns
    /// [`Errno::EISDIR`].
    pub fn read_content(&self, _off: u64, _buf: &mut [u8]) -> (r: Result<u64, Errno>)
        ensures
            r == Err::<u64, Errno>(Errno::EISDIR),
    {
        Err(Errno::EISDIR)
    }

    /// Writing to the directory as a file is not allowed: the function returns
    /// [`Errno::EISDIR`].
    pub fn write_content(&self, _off: u64, _buf: &[u8]) -> (r: Result<u64, Errno>)
        ensures
            r == Err::<u64, Errno>(Errno::EISDIR),
    {
        Err(Errno::EISDIR)
    }

    /// Returns the entry named `name`, where the processes `pids` exist: the directory of a
    /// process for its PID, else a static entry. The returned offset is junk and should be
    /// ignored.
    pub fn entry_by_name(&self, name: &[u8], pids: &Vec<Pid>) -> (r: Result<Option<(ProcEntry, u64)>, Errno>)
        ensures
            r matches Ok(e) && match root_entry_type(name@, pids@) {
                Some(t) => (e matches Some((ent, off)) && ent.inode == 0 && ent.entry_type == t
                    && ent.name@ == name@ && off == 0),
                None => e is None,
            },
    {
        if let Some(pid) = parse_pid(name) {
            let mut k: usize = 0;
            while k < pids.len()
                invariant
                    k <= pids@.len(),
                    pid_of(name@) == Some(pid),
                    forall|j: int| 0 <= j < k ==> pids@[j] != pid,
                decreases pids@.len() - k,
            {
                if pids[k] == pid {
                    assert(pids@.contains(pid));
                    let e = ProcEntry { inode: 0, entry_type: FileType::Directory, name: bytes_to_vec(name) };
                    return Ok(Some((e, 0)));
                }
                k += 1;
            }
        }
        assert(!(pid_of(name@) matches Some(p) && pids@.contains(p)));
        let mut i: usize = 0;
        while i < ROOT_STATIC_ENTRIES
            invariant
                i <= ROOT_STATIC_ENTRIES,
                !(pid_of(name@) matches Some(p) && pids@.contains(p)),
                forall|j: int| 0 <= j < i ==> root_names()[j] != name@,
            decreases ROOT_STATIC_ENTRIES - i,
        {
            let (n, t) = root_entry(i);
            if bytes_eq(name, n.as_bytes()) {
                proof {
                    assert(name_index(root_names(), name@) == Some(i as int)) by {
                        assert(root_names()[i as int] == name@);
                        let c = choose|c: int|
                            0 <= c < root_names().len() && root_names()[c] == name@ && forall|j: int|
                                0 <= j < c ==> root_names()[j] != name@;
                        if c > i {
                            assert(root_names()[i as int] != name@);
                        }
                    }
                }
                let e = ProcEntry { inode: 0, entry_type: t, name: bytes_to_vec(name) };
                return Ok(Some((e, 0)));
            }
            i += 1;
        }
        Ok(None)
    }

    /// Returns the static entry at offset `off` in the directory, with the offset of the next
    /// one.
    pub fn next_entry(&self, off: u64) -> (r: Result<Option<(ProcEntry, u64)>, Errno>)
        requires
            off < ROOT_STATIC_ENTRIES,
        ensures
            r matches Ok(Some((e, next))) && e.inode == 0 && e.entry_type == root_type(off as int)
                && e.name@ == root_names()[off as int] && next == off + 1,
    {
        let (n, t) = root_entry(off as usize);
        Ok(Some((ProcEntry { inode: 0, entry_type: t, name: bytes_to_vec(n.as_bytes()) }, off + 1)))
    }
}

/// The procfs filesystem type.
pub struct ProcFsType {}

impl ProcFsType {
    /// The name of the filesystem type.
    pub fn get_name(&self) -> (n: &'static [u8])
        ensures
            n@ == "procfs".spec_bytes(),
    {
        "procfs".as_bytes()
    }

    /// A procfs is never detected on a device: the function returns `false`.
    pub fn detect(&self) -> (r: Result<bool, Errno>)
        ensures
            r == Ok::<bool, Errno>(false),
    {
        Ok(false)
    }
}


/// The `sys` directory of the procfs.
#[derive(Debug)]
pub struct SysDir {}

impl SysDir {
    /// The permissions of the directory.
    pub fn get_mode(&self) -> (m: Mode)
        ensures
            m == 0o555,
    {
        0o555
    }

    /// The directory belongs to root.
    pub fn get_uid(&self) -> (u: Uid)
        ensures
            u == 0,
    {
        0
    }

    /// The directory belongs to root's group.
    pub fn get_gid(&self) -> (g: Gid)
        ensures
            g == 0,
    {
        0
    }

    /// Reading the directory as a file is not allowed: the function returns [`Errno::EINVAL`].
    pub fn read(&mut self, _offset: u64, _buff: &mut [u8]) -> (r: Result<(u64, bool), Errno>)
        ensures
            r == Err::<(u64, bool), Errno>(Errno::EINVAL),
    {
        Err(Errno::EINVAL)
    }

    /// Writing to the directory as a file is not allowed: the function returns
    /// [`Errno::EINVAL`].
    pub fn write(&mut self, _offset: u64, _buff: &[u8]) -> (r: Result<u64, Errno>)
        ensures
            r == Err::<u64, Errno>(Errno::EINVAL),
    {
        Err(Errno::EINVAL)
    }
}

} // verus!
