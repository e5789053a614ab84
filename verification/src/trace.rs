//! Memory usage tracing: the samples that allocators send to the **COM2** serial port.
use vstd::prelude::*;

verus! {

/// The operation being sampled.
#[derive(Clone, Copy, Debug, PartialEq, Eq, Structural)]
pub enum SampleOp {
    /// An allocation.
    Alloc,
    /// A reallocation.
    Realloc,
    /// A free.
    Free,
}

/// The number of the operation `op` in a sample.
pub open spec fn op_number(op: SampleOp) -> u8 {
    match op {
        SampleOp::Alloc => 0,
        SampleOp::Realloc => 1,
        SampleOp::Free => 2,
    }
}

impl SampleOp {
    /// Returns the number of the operation in a sample.
    pub fn number(&self) -> (n: u8)
        ensures
            n == op_number(*self),
    {
        match self {
            SampleOp::Alloc => 0,
            SampleOp::Realloc => 1,
            SampleOp::Free => 2,
        }
    }
}

/// The bytes of `x` in little-endian order.
pub open spec fn le_bytes(x: u64) -> Seq<u8> {
    Seq::new(8, |i: int| ((x as nat / pow256(i)) % 256) as u8)
}

/// `256` to the power `i`.
pub open spec fn pow256(i: int) -> nat
    decreases i,
{
    if i <= 0 {
        1
    } else {
        256 * pow256(i - 1)
    }
}

/// Appends the bytes of `x` in little-endian order to `v`.
fn push_le(v: &mut Vec<u8>, x: u64)
    ensures
        final(v)@ == old(v)@ + le_bytes(x),
{
    let mut y = x;
    let mut i: usize = 0;
    assert(pow256(0) == 1);
    assert(v@ =~= old(v)@ + le_bytes(x).take(0));
    while i < 8
        invariant
            i <= 8,
            y as nat == x as nat / pow256(i as int),
            v@ == old(v)@ + le_bytes(x).take(i as int),
        decreases 8 - i,
    {
        proof {
            assert(pow256(i + 1) == 256 * pow256(i as int));
            assert(pow256(i as int) > 0) by {
                lemma_pow256_pos(i as int);
            }
            assert((x as nat / pow256(i as int)) / 256 == x as nat / pow256(i + 1)) by (nonlinear_arith)
                requires
                    pow256(i + 1) == 256 * pow256(i as int),
                    pow256(i as int) > 0,
            ;
        }
        v.push((y % 256) as u8);
        y = y / 256;
        i += 1;
        assert(v@ =~= old(v)@ + le_bytes(x).take(i as int));
    }
    assert(le_bytes(x).take(8) =~= le_bytes(x));
}

proof fn lemma_pow256_pos(i: int)
    ensures
        pow256(i) > 0,
    decreases i,
{
    if i > 0 {
        lemma_pow256_pos(i - 1);
    }
}

/// The number of frames of the callstack `frames`: those before the first null one.
pub open spec fn callstack_len(frames: Seq<usize>) -> int {
    if exists|i: int| 0 <= i < frames.len() && frames[i] == 0 {
        choose|i: int| 0 <= i < frames.len() && frames[i] == 0 && forall|j: int| 0 <= j < i ==> frames[j] != 0
    } else {
        frames.len() as int
    }
}

/// The frames of `frames` in little-endian order, one after the other.
pub open spec fn frames_bytes(frames: Seq<usize>) -> Seq<u8>
    decreases frames.len(),
{
    if frames.len() == 0 {
        Seq::empty()
    } else {
        frames_bytes(frames.drop_last()) + le_bytes(frames.last() as u64)
    }
}

/// The sample sent for the operation `op` of the allocator named `allocator`, on the address
/// `addr` with the size `size`, from the callstack `callstack`: the length of the name (modulo
/// `256`) and the name, the number of the operation, the address and the size, the number of
/// frames and the frames.
pub open spec fn sample_bytes(allocator: Seq<u8>, op: SampleOp, addr: usize, size: usize, callstack: Seq<usize>) -> Seq<u8> {
    let n = callstack_len(callstack);
    seq![(allocator.len() % 256) as u8] + allocator + seq![op_number(op)] + le_bytes(addr as u64) + le_bytes(
        size as u64,
    ) + seq![(n % 256) as u8] + frames_bytes(callstack.take(n))
}

/// Returns the sample for the operation `op` of the allocator named `allocator`, on the address
/// `addr` with the size `size`, from the callstack `callstack`: see [`sample_bytes`].
pub fn sample(allocator: &[u8], op: SampleOp, addr: usize, size: usize, callstack: &[usize]) -> (v: Vec<u8>)
    ensures
        v@ == sample_bytes(allocator@, op, addr, size, callstack@),
{
    let mut v: Vec<u8> = Vec::new();
    v.push((allocator.len() % 256) as u8);
    crate::procfs::append(&mut v, allocator);
    v.push(op.number());
    push_le(&mut v, addr as u64);
    push_le(&mut v, size as u64);
    let mut n: usize = 0;
    while n < callstack.len() && callstack[n] != 0
        invariant
            n <= callstack@.len(),
            forall|j: int| 0 <= j < n ==> callstack@[j] != 0,
        decreases callstack@.len() - n,
    {
        n += 1;
    }
    proof {
        if n < callstack@.len() {
            let c = choose|i: int|
                0 <= i < callstack@.len() && callstack@[i] == 0 && forall|j: int| 0 <= j < i ==> callstack@[j] != 0;
            assert(callstack@[n as int] == 0);
            if c < n {
            } else if c > n {
            }
        }
    }
    assert(n == callstack_len(callstack@));
    v.push((n % 256) as u8);
    let ghost prefix = v@;
    let mut i: usize = 0;
    while i < n
        invariant
            i <= n,
            n <= callstack@.len(),
            v@ == prefix + frames_bytes(callstack@.take(i as int)),
        decreases n - i,
    {
        push_le(&mut v, callstack[i] as u64);
        proof {
            assert(callstack@.take(i + 1).drop_last() =~= callstack@.take(i as int));
        }
        i += 1;
        assert(v@ =~= prefix + frames_bytes(callstack@.take(i as int)));
    }
    assert(v@ =~= sample_bytes(allocator@, op, addr, size, callstack@));
    v
}

} // verus!
