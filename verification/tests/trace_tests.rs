use maestro::trace::{sample, SampleOp};

#[test]
fn trace_sample_record() {
    let v = sample(b"buddy", SampleOp::Alloc, 0x1000, 3, &[0xc010_0000, 0xc020_0000, 0, 5]);
    let mut expected = vec![5u8];
    expected.extend_from_slice(b"buddy");
    expected.push(0);
    expected.extend_from_slice(&0x1000u64.to_le_bytes());
    expected.extend_from_slice(&3u64.to_le_bytes());
    expected.push(2);
    expected.extend_from_slice(&0xc010_0000u64.to_le_bytes());
    expected.extend_from_slice(&0xc020_0000u64.to_le_bytes());
    assert_eq!(v, expected);
}

#[test]
fn trace_sample_ops() {
    assert_eq!(SampleOp::Alloc.number(), 0);
    assert_eq!(SampleOp::Realloc.number(), 1);
    assert_eq!(SampleOp::Free.number(), 2);
    let v = sample(b"", SampleOp::Free, usize::MAX, 0, &[]);
    assert_eq!(v[0], 0);
    assert_eq!(v[1], 2);
    assert_eq!(&v[2..10], &(usize::MAX as u64).to_le_bytes());
    assert_eq!(v[18], 0);
    assert_eq!(v.len(), 19);
    // A full callstack, with no null frame
    let frames = [1usize; 64];
    let v = sample(b"x", SampleOp::Realloc, 0, 0, &frames);
    assert_eq!(v[19], 64);
    assert_eq!(v.len(), 20 + 64 * 8);
}

#[test]
fn stats_meminfo_text() {
    use_meminfo();
}

fn use_meminfo() {
    let m = maestro::stats::MemInfo { mem_total: 1024, mem_free: 512, mem_available: 600, active: 10, inactive: 0 };
    let expected = format!(
        "MemTotal: {} kB
MemFree: {} kB
MemAvailable: {} kB
Active: {} kB
Inactive: {} kB\n",
        m.mem_total, m.mem_free, m.mem_available, m.active, m.inactive
    );
    assert_eq!(m.to_text(), expected.into_bytes());
    let z = maestro::stats::MemInfo::new();
    assert_eq!(z.to_text(), b"MemTotal: 0 kB\nMemFree: 0 kB\nMemAvailable: 0 kB\nActive: 0 kB\nInactive: 0 kB\n".to_vec());
}
