use maestro::errno::Errno;
use maestro::file::FileType;
use maestro::procfs::{
    parse_pid, status_content, stat_content, Cmdline, Exe, MountInfo, Mounts, OsRelease,
    ProcDir, ProcInfo, ProcNode, RootDir, SelfNode, Stat, Status, Uptime, Version,
};

fn sample_proc() -> ProcInfo {
    ProcInfo {
        argv: vec![b"/bin/sh".to_vec(), b"-c".to_vec(), b"ls".to_vec()],
        exec_path: b"/bin/sh".to_vec(),
        umask: 0o22,
        state_char: b'S',
        state_name: b"sleeping".to_vec(),
        pid: 42,
        ppid: 1,
        pgid: 42,
        priority: 20,
        nice: 3,
        uid: 1000,
        euid: 1001,
        suid: 1002,
        gid: 100,
        egid: 101,
        sgid: 102,
        esp: 0xbffff000,
        eip: 0x8048000,
    }
}

fn expected_status(p: &ProcInfo, name: &str) -> String {
    format!(
        "Name: {name}
Umask: {umask:4o}
State: {state_char} ({state_name})
Tgid: 0
Ngid: 0
Pid: {pid}
PPid: {ppid}
TracerPid: 0
Uid: {uid} {euid} {suid} {ruid}
Gid: {gid} {egid} {sgid} {rgid}
FDSize: TODO
Groups: TODO
NStgid: TODO
NSpid: TODO
NSpgid: TODO
NSsid: TODO
VmPeak: TODO kB
VmSize: TODO kB
VmLck: TODO kB
VmPin: TODO kB
VmHWM: TODO kB
VmRSS: TODO kB
RssAnon: TODO kB
RssFile: TODO kB
RssShmem: TODO kB
VmData: TODO kB
VmStk: TODO kB
VmExe: TODO kB
VmLib: TODO kB
VmPTE: TODO kB
VmSwap: TODO kB
HugetlbPages: TODO kB
CoreDumping: TODO
THP_enabled: TODO
Threads: TODO
SigQ: TODO/TODO
SigPnd: 0000000000000000
ShdPnd: 0000000000000000
SigBlk: 0000000000000000
SigIgn: 0000000000000000
SigCgt: 0000000000000000
CapInh: 0000000000000000
CapPrm: 0000000000000000
CapEff: 0000000000000000
CapBnd: 000001ffffffffff
CapAmb: 0000000000000000
NoNewPrivs: 0
Seccomp: 0
Seccomp_filters: 0
Speculation_Store_Bypass: thread vulnerable
SpeculationIndirectBranch: conditional enabled
Cpus_allowed: ff
Cpus_allowed_list: 0-7
Mems_allowed: 00000001
Mems_allowed_list: 0
voluntary_ctxt_switches: 0
nonvoluntary_ctxt_switches: 0
",
        umask = p.umask,
        state_char = p.state_char as char,
        state_name = String::from_utf8(p.state_name.clone()).unwrap(),
        pid = p.pid,
        ppid = p.ppid,
        uid = p.uid,
        euid = p.euid,
        suid = p.suid,
        ruid = 0,
        gid = p.gid,
        egid = p.egid,
        sgid = p.sgid,
        rgid = 0,
    )
}

fn expected_stat(p: &ProcInfo, name: &str) -> String {
    let pid = p.pid;
    let state_char = p.state_char as char;
    let ppid = p.ppid;
    let pgid = p.pgid;
    let sid = 0;
    let user_jiffies = 0;
    let kernel_jiffies = 0;
    let priority = p.priority;
    let nice = p.nice;
    let num_threads = 1;
    let vmem_usage = 0;
    let esp = p.esp;
    let eip = p.eip;
    format!(
        "{pid} ({name}) {state_char} {ppid} {pgid} {sid} TODO TODO 0 \
0 0 0 0 {user_jiffies} {kernel_jiffies} TODO TODO {priority} {nice} {num_threads} 0 {vmem_usage} \
TODO TODO TODO TODO {esp} {eip} TODO TODO TODO TODO 0 0 0 TODO TODO TODO TODO TODO TODO TODO TODO \
TODO TODO TODO TODO TODO TODO TODO TODO TODO"
    )
}

#[test]
fn procfs_status_content() {
    let p = sample_proc();
    assert_eq!(status_content(&p), expected_status(&p, "/bin/sh").into_bytes());
    let mut q = sample_proc();
    q.argv.clear();
    q.umask = 0o7777;
    q.pid = 65535;
    assert_eq!(status_content(&q), expected_status(&q, "?").into_bytes());
    let mut r = sample_proc();
    r.umask = 0;
    assert_eq!(status_content(&r), expected_status(&r, "/bin/sh").into_bytes());
}

#[test]
fn procfs_stat_content() {
    let p = sample_proc();
    assert_eq!(stat_content(&p), expected_stat(&p, "/bin/sh").into_bytes());
    let mut q = sample_proc();
    q.argv.clear();
    q.priority = 0;
    q.nice = 0;
    assert_eq!(stat_content(&q), expected_stat(&q, "?").into_bytes());
}

#[test]
fn procfs_status_read() {
    let p = sample_proc();
    let content = expected_status(&p, "/bin/sh").into_bytes();
    let mut node = Status { pid: 42 };
    let mut buf = [0xffu8; 16];
    assert_eq!(node.read(Some(&p), 0, &mut buf), Ok((16, false)));
    assert_eq!(&buf[..], &content[..16]);
    let mut big = vec![0u8; content.len() + 10];
    assert_eq!(node.read(Some(&p), 6, &mut big), Ok(((content.len() - 6) as u64, true)));
    assert_eq!(&big[..content.len() - 6], &content[6..]);
    assert_eq!(&big[content.len() - 6..], &[0u8; 16][..]);
    let mut empty: [u8; 0] = [];
    assert_eq!(node.read(Some(&p), 0, &mut empty), Ok((0, false)));
    assert_eq!(node.read(None, 0, &mut buf), Err(Errno::ENOENT));
    assert_eq!(node.read(Some(&p), content.len() as u64, &mut buf), Ok((0, true)));
    assert_eq!(node.write(0, b"x"), Err(Errno::EINVAL));
    assert_eq!(node.get_mode(), 0o444);
    assert_eq!(node.get_uid(Some(&p)), 1001);
    assert_eq!(node.get_gid(Some(&p)), 101);
    assert_eq!(node.get_uid(None), 0);
}

#[test]
fn procfs_stat_read() {
    let p = sample_proc();
    let content = expected_stat(&p, "/bin/sh").into_bytes();
    let mut node = Stat { pid: 42 };
    let mut buf = vec![0u8; 1024];
    assert_eq!(node.read(Some(&p), 0, &mut buf), Ok((content.len() as u64, true)));
    assert_eq!(&buf[..content.len()], &content[..]);
    assert_eq!(node.read(None, 0, &mut buf), Err(Errno::ENOENT));
}

#[test]
fn procfs_mounts_read() {
    let mounts = vec![
        MountInfo { source: b"/dev/sda1".to_vec(), target: b"/".to_vec(), fs_type: b"ext2".to_vec() },
        MountInfo { source: b"procfs".to_vec(), target: b"/proc".to_vec(), fs_type: b"procfs".to_vec() },
    ];
    let mut node = Mounts { pid: 1 };
    let mut buf = vec![0u8; 128];
    let expected = b"/dev/sda1 / ext2 TODO 0 0\nprocfs /proc procfs TODO 0 0\n";
    assert_eq!(node.read(&mounts, 0, &mut buf), Ok((expected.len() as u64, true)));
    assert_eq!(&buf[..expected.len()], &expected[..]);
    assert_eq!(node.read(&vec![], 0, &mut buf), Ok((0, true)));
}

#[test]
fn procfs_cmdline_exe() {
    let p = sample_proc();
    let node = Cmdline(42);
    let mut buf = [0u8; 32];
    assert_eq!(node.read_content(Some(&p), 0, &mut buf), Ok(14));
    assert_eq!(&buf[..14], b"/bin/sh\0-c\0ls\0");
    assert_eq!(node.read_content(Some(&p), 8, &mut buf), Ok(6));
    assert_eq!(&buf[..6], b"-c\0ls\0");
    assert_eq!(node.read_content(None, 0, &mut buf), Err(Errno::ENOENT));
    assert_eq!(node.write_content(0, b"x"), Err(Errno::EACCES));
    let exe = Exe(42);
    let mut small = [0u8; 4];
    assert_eq!(exe.read_content(Some(&p), 1, &mut small), Ok(4));
    assert_eq!(&small, b"bin/");
    assert_eq!(exe.read_content(Some(&p), 100, &mut small), Ok(0));
}

#[test]
fn procfs_static_nodes() {
    let mut buf = [0u8; 32];
    assert_eq!(SelfNode.read_content(1234, 0, &mut buf), Ok((4, true)));
    assert_eq!(&buf[..4], b"1234");
    assert_eq!(SelfNode.read_content(0, 0, &mut buf), Ok((1, true)));
    assert_eq!(buf[0], b'0');
    assert_eq!(SelfNode.get_stat().mode, 0o120777);
    assert_eq!(OsRelease {}.read_content(b"0.1.0", 0, &mut buf), Ok(6));
    assert_eq!(&buf[..6], b"0.1.0\n");
    assert_eq!(Version.read_content(b"maestro", b"0.1.0", 0, &mut buf), Ok(21));
    assert_eq!(&buf[..21], b"maestro version 0.1.0");
    assert_eq!(Uptime {}.read(0, &mut buf), Ok((10, true)));
    assert_eq!(&buf[..10], b"0.00 0.00\n");
    assert_eq!(Uptime {}.read(5, &mut buf[..2]), Ok((2, false)));
}

#[test]
fn procfs_parse_pid() {
    assert_eq!(parse_pid(b"0"), Some(0));
    assert_eq!(parse_pid(b"42"), Some(42));
    assert_eq!(parse_pid(b"+42"), Some(42));
    assert_eq!(parse_pid(b"0042"), Some(42));
    assert_eq!(parse_pid(b"65535"), Some(65535));
    assert_eq!(parse_pid(b"65536"), None);
    assert_eq!(parse_pid(b"99999999999"), None);
    assert_eq!(parse_pid(b""), None);
    assert_eq!(parse_pid(b"+"), None);
    assert_eq!(parse_pid(b"-1"), None);
    assert_eq!(parse_pid(b"12a"), None);
    assert_eq!(parse_pid(b"self"), None);
    for s in ["0", "7", "+13", "65535", "65536", "", "+", "1x"] {
        assert_eq!(parse_pid(s.as_bytes()), s.parse::<u16>().ok());
    }
}

#[test]
fn procfs_proc_dir() {
    let dir = ProcDir(7);
    let (e, off, node) = dir.entry_by_name(b"status").unwrap().unwrap();
    assert_eq!(e.name, b"status".to_vec());
    assert_eq!(e.entry_type, FileType::Regular);
    assert_eq!(off, 5);
    assert!(matches!(node, ProcNode::Status(Status { pid: 7 })));
    let (_, off, node) = dir.entry_by_name(b"cmdline").unwrap().unwrap();
    assert_eq!(off, 0);
    assert!(matches!(node, ProcNode::Cmdline(Cmdline(7))));
    assert!(matches!(dir.entry_by_name(b"nope"), Err(Errno::ENOENT)));
    assert!(matches!(dir.entry_by_name(b"stat\0"), Err(Errno::ENOENT)));
    let (e, next) = dir.next_entry(2).unwrap().unwrap();
    assert_eq!(e.name, b"exe".to_vec());
    assert_eq!(next, 3);
    assert!(dir.next_entry(6).unwrap().is_none());
    let p = sample_proc();
    let st = dir.get_stat(Some(&p));
    assert_eq!(st.mode, 0o040555);
    assert_eq!((st.uid, st.gid), (1001, 101));
    let st = dir.get_stat(None);
    assert_eq!((st.uid, st.gid), (0, 0));
}

#[test]
fn procfs_root_dir() {
    let root = RootDir;
    let pids = vec![1, 42];
    let (e, _) = root.entry_by_name(b"42", &pids).unwrap().unwrap();
    assert_eq!(e.entry_type, FileType::Directory);
    assert_eq!(e.name, b"42".to_vec());
    assert!(root.entry_by_name(b"43", &pids).unwrap().is_none());
    let (e, _) = root.entry_by_name(b"self", &pids).unwrap().unwrap();
    assert_eq!(e.entry_type, FileType::Link);
    let (e, _) = root.entry_by_name(b"sys", &pids).unwrap().unwrap();
    assert_eq!(e.entry_type, FileType::Directory);
    let (e, _) = root.entry_by_name(b"version", &pids).unwrap().unwrap();
    assert_eq!(e.entry_type, FileType::Regular);
    assert!(root.entry_by_name(b"cmdline", &pids).unwrap().is_none());
    let (e, next) = root.next_entry(0).unwrap().unwrap();
    assert_eq!(e.name, b"meminfo".to_vec());
    assert_eq!(next, 1);
    let (e, _) = root.next_entry(1).unwrap().unwrap();
    assert_eq!(e.entry_type, FileType::Link);
    let mut buf = [0u8; 4];
    assert_eq!(root.read_content(0, &mut buf), Err(Errno::EISDIR));
}
