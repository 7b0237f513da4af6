//! The saved state of a render: the buffer's dimensions followed by its
//! per-channel radiance sums.
//!
//! Layout: width and height as little-endian `u64`, then `width * height * 3`
//! values of eight little-endian bytes each, row-major and channel-interleaved.
//! The values are carried as the bit patterns of the sums, so this module only
//! deals in bytes and integers. The sample count is not part of the record.
use vstd::prelude::*;
use vstd::arithmetic::div_mod::{lemma_breakdown, lemma_div_denominator};

verus! {

/// 256 to the power `n`.
pub open spec fn pow256(n: nat) -> nat
    decreases n,
{
    if n == 0 {
        1
    } else {
        256 * pow256((n - 1) as nat)
    }
}

/// The lowest `n` bytes of `v`, least significant first.
pub open spec fn le_bytes(v: nat, n: nat) -> Seq<u8> {
    Seq::new(n, |k: int| ((v / pow256(k as nat)) % 256) as u8)
}

/// The number spelled by `b`, least significant byte first.
pub open spec fn le_value(b: Seq<u8>) -> nat
    decreases b.len(),
{
    if b.len() == 0 {
        0
    } else {
        b[0] as nat + 256 * le_value(b.drop_first())
    }
}

/// Each value as eight little-endian bytes, in order.
pub open spec fn values_bytes(values: Seq<u64>) -> Seq<u8>
    decreases values.len(),
{
    if values.len() == 0 {
        Seq::empty()
    } else {
        values_bytes(values.drop_last()) + le_bytes(values.last() as nat, 8)
    }
}

/// The full record for a buffer of the given dimensions and contents.
pub open spec fn checkpoint_bytes(width: nat, height: nat, values: Seq<u64>) -> Seq<u8> {
    le_bytes(width, 8) + le_bytes(height, 8) + values_bytes(values)
}

/// The width stored at the head of a record.
pub open spec fn stored_width(b: Seq<u8>) -> nat {
    le_value(b.subrange(0, 8))
}

/// The height stored after the width.
pub open spec fn stored_height(b: Seq<u8>) -> nat {
    le_value(b.subrange(8, 16))
}

/// The `i`-th value stored after the header.
pub open spec fn stored_value(b: Seq<u8>, i: int) -> nat {
    le_value(b.subrange(16 + 8 * i, 24 + 8 * i))
}

/// Number of values in a record of the given dimensions.
pub open spec fn value_count(width: nat, height: nat) -> nat {
    width * height * 3
}

/// Number of bytes in a record of the given dimensions.
pub open spec fn record_len(width: nat, height: nat) -> nat {
    16 + 8 * value_count(width, height)
}

/// Whether a record of the given dimensions can be addressed on this machine.
pub open spec fn addressable(width: nat, height: nat) -> bool {
    &&& width <= usize::MAX
    &&& height <= usize::MAX
    &&& record_len(width, height) <= usize::MAX
}

/// What can go wrong when reading a record back.
#[derive(Clone, Copy, Debug, PartialEq, Eq, Structural)]
pub enum CheckpointError {
    /// Fewer bytes than the header announces (or no full header).
    Truncated,
    /// The announced dimensions describe more data than this machine can address.
    Oversized,
}

/// A record read back: dimensions and the stored bit patterns.
pub struct Checkpoint {
    pub width: usize,
    pub height: usize,
    pub values: Vec<u64>,
}

/// What `decode_checkpoint` owes for the bytes `b`.
pub open spec fn decoded(b: Seq<u8>, r: Result<Checkpoint, CheckpointError>) -> bool {
    if b.len() < 16 {
        r == Err::<Checkpoint, CheckpointError>(CheckpointError::Truncated)
    } else if !addressable(stored_width(b), stored_height(b)) {
        r == Err::<Checkpoint, CheckpointError>(CheckpointError::Oversized)
    } else if b.len() < record_len(stored_width(b), stored_height(b)) {
        r == Err::<Checkpoint, CheckpointError>(CheckpointError::Truncated)
    } else {
        match r {
            Ok(c) => {
                &&& c.width == stored_width(b)
                &&& c.height == stored_height(b)
                &&& c.values@.len() == value_count(c.width as nat, c.height as nat)
                &&& forall|i: int|
                    0 <= i < c.values@.len() ==> #[trigger] c.values@[i] == stored_value(b, i)
            },
            Err(_) => false,
        }
    }
}

proof fn lemma_pow256_positive(n: nat)
    ensures
        pow256(n) > 0,
    decreases n,
{
    if n > 0 {
        lemma_pow256_positive((n - 1) as nat);
    }
}

proof fn lemma_pow256_eight()
    ensures
        pow256(7) == 0x100_0000_0000_0000,
        pow256(8) == 0x1_0000_0000_0000_0000,
{
    reveal_with_fuel(pow256, 9);
}

/// Reading back the lowest `n` bytes of `v` gives `v` modulo `256^n`.
proof fn lemma_le_round_trip(v: nat, n: nat)
    ensures
        le_value(le_bytes(v, n)) == v % pow256(n),
    decreases n,
{
    let s = le_bytes(v, n);
    if n == 0 {
        assert(s.len() == 0);
    } else {
        let m = (n - 1) as nat;
        lemma_pow256_positive(m);
        assert forall|k: int| 0 <= k < m implies #[trigger] s.drop_first()[k] == le_bytes(
            v / 256,
            m,
        )[k] by {
            lemma_pow256_positive(k as nat);
            lemma_div_denominator(v as int, 256, pow256(k as nat) as int);
            assert(pow256((k + 1) as nat) == 256 * pow256(k as nat));
        }
        assert(s.drop_first() =~= le_bytes(v / 256, m));
        lemma_le_round_trip(v / 256, m);
        assert(pow256(0) == 1);
        assert(v / 1 == v);
        assert(s[0] as nat == v % 256);
        lemma_breakdown(v as int, 256, pow256(m) as int);
    }
}

/// A little-endian number is below `256` to the power of its length.
proof fn lemma_le_value_bound(b: Seq<u8>)
    ensures
        le_value(b) < pow256(b.len()),
    decreases b.len(),
{
    if b.len() > 0 {
        let rest = b.drop_first();
        lemma_le_value_bound(rest);
        let lv = le_value(rest);
        let p = pow256(rest.len());
        assert(256 * lv <= 256 * (p - 1)) by (nonlinear_arith)
            requires
                lv <= p - 1,
        ;
        assert(b.len() == rest.len() + 1);
    }
}

/// Eight bytes of a `u64` read back give the same `u64`.
proof fn lemma_u64_round_trip(v: u64)
    ensures
        le_value(le_bytes(v as nat, 8)) == v,
{
    lemma_le_round_trip(v as nat, 8);
    lemma_pow256_eight();
}

/// Where each value's bytes stand in `values_bytes`.
proof fn lemma_values_bytes(values: Seq<u64>)
    ensures
        values_bytes(values).len() == 8 * values.len(),
        forall|i: int|
            0 <= i < values.len() ==> #[trigger] values_bytes(values).subrange(8 * i, 8 * i + 8)
                == le_bytes(values[i] as nat, 8),
    decreases values.len(),
{
    if values.len() > 0 {
        let init = values.drop_last();
        lemma_values_bytes(init);
        let all = values_bytes(values);
        let head = values_bytes(init);
        assert forall|i: int| 0 <= i < values.len() implies #[trigger] all.subrange(
            8 * i,
            8 * i + 8,
        ) == le_bytes(values[i] as nat, 8) by {
            if i < init.len() {
                assert(all.subrange(8 * i, 8 * i + 8) =~= head.subrange(8 * i, 8 * i + 8));
            } else {
                assert(all.subrange(8 * i, 8 * i + 8) =~= le_bytes(values.last() as nat, 8));
            }
        }
    }
}

/// A record written by `encode_checkpoint` for a buffer of `width` by `height`
/// pixels reads back as the same dimensions and the same values.
pub proof fn lemma_checkpoint_round_trip(width: u64, height: u64, values: Seq<u64>)
    requires
        values.len() == value_count(width as nat, height as nat),
        addressable(width as nat, height as nat),
    ensures
        ({
            let b = checkpoint_bytes(width as nat, height as nat, values);
            &&& b.len() == record_len(width as nat, height as nat)
            &&& stored_width(b) == width
            &&& stored_height(b) == height
            &&& forall|i: int| 0 <= i < values.len() ==> #[trigger] stored_value(b, i) == values[i]
        }),
{
    let b = checkpoint_bytes(width as nat, height as nat, values);
    let vb = values_bytes(values);
    lemma_values_bytes(values);
    assert(b.subrange(0, 8) =~= le_bytes(width as nat, 8));
    assert(b.subrange(8, 16) =~= le_bytes(height as nat, 8));
    lemma_u64_round_trip(width);
    lemma_u64_round_trip(height);
    assert forall|i: int| 0 <= i < values.len() implies #[trigger] stored_value(b, i)
        == values[i] by {
        assert(b.subrange(16 + 8 * i, 24 + 8 * i) =~= vb.subrange(8 * i, 8 * i + 8));
        lemma_u64_round_trip(values[i]);
    }
}

/// Appends the eight little-endian bytes of `v`.
fn push_le(out: &mut Vec<u8>, v: u64)
    ensures
        final(out)@ == old(out)@ + le_bytes(v as nat, 8),
{
    let ghost start = old(out)@;
    let mut x: u64 = v;
    let mut k: usize = 0;
    assert(pow256(0) == 1);
    assert(v as nat / 1 == v as nat);
    while k < 8
        invariant
            k <= 8,
            x as nat == v as nat / pow256(k as nat),
            out@ == start + le_bytes(v as nat, 8).take(k as int),
        decreases 8 - k,
    {
        proof {
            lemma_pow256_positive(k as nat);
            lemma_div_denominator(v as int, pow256(k as nat) as int, 256);
            assert(pow256((k + 1) as nat) == 256 * pow256(k as nat));
        }
        out.push((x % 256) as u8);
        x = x / 256;
        k = k + 1;
        assert(out@ =~= start + le_bytes(v as nat, 8).take(k as int));
    }
    assert(le_bytes(v as nat, 8).take(8) =~= le_bytes(v as nat, 8));
}

/// Reads eight little-endian bytes starting at `at`.
fn read_le(b: &[u8], at: usize) -> (r: u64)
    requires
        at + 8 <= b@.len(),
        at + 8 <= usize::MAX,
    ensures
        r as nat == le_value(b@.subrange(at as int, at + 8)),
{
    let mut v: u64 = 0;
    let mut k: usize = 8;
    proof {
        lemma_pow256_eight();
    }
    while k > 0
        invariant
            k <= 8,
            at + 8 <= b@.len(),
            at + 8 <= usize::MAX,
            v as nat == le_value(b@.subrange(at + k, at + 8)),
            pow256(7) == 0x100_0000_0000_0000,
        decreases k,
    {
        k = k - 1;
        let ghost tail = b@.subrange(at + k + 1, at + 8);
        let ghost s = b@.subrange(at + k, at + 8);
        proof {
            lemma_le_value_bound(tail);
            assert(s.drop_first() =~= tail);
            if tail.len() < 7 {
                lemma_pow_monotone(tail.len(), 7);
            }
        }
        v = v * 256 + b[at + k] as u64;
    }
    v
}

proof fn lemma_pow_monotone(a: nat, b: nat)
    requires
        a <= b,
    ensures
        pow256(a) <= pow256(b),
    decreases b,
{
    if a < b {
        lemma_pow_monotone(a, (b - 1) as nat);
        lemma_pow256_positive((b - 1) as nat);
    }
}

/// Writes the record for a buffer of `width` by `height` pixels holding `values`.
pub fn encode_checkpoint(width: usize, height: usize, values: &[u64]) -> (r: Vec<u8>)
    requires
        16 + 8 * values@.len() <= usize::MAX,
    ensures
        r@ == checkpoint_bytes(width as nat, height as nat, values@),
{
    let mut out: Vec<u8> = Vec::new();
    push_le(&mut out, width as u64);
    push_le(&mut out, height as u64);
    let ghost head = out@;
    let mut i: usize = 0;
    while i < values.len()
        invariant
            i <= values@.len(),
            head == le_bytes(width as nat, 8) + le_bytes(height as nat, 8),
            out@ == head + values_bytes(values@.take(i as int)),
        decreases values@.len() - i,
    {
        push_le(&mut out, values[i]);
        proof {
            let next = values@.take(i + 1);
            assert(next.drop_last() =~= values@.take(i as int));
        }
        i = i + 1;
    }
    assert(values@.take(values@.len() as int) =~= values@);
    out
}

/// Reads a record back: its dimensions and the `width * height * 3` values
/// that follow them. Bytes past the announced values are not read.
pub fn decode_checkpoint(bytes: &[u8]) -> (r: Result<Checkpoint, CheckpointError>)
    ensures
        decoded(bytes@, r),
{
    if bytes.len() < 16 {
        return Err(CheckpointError::Truncated);
    }
    let width = read_le(bytes, 0);
    let height = read_le(bytes, 8);
    if width > usize::MAX as u64 || height > usize::MAX as u64 {
        return Err(CheckpointError::Oversized);
    }
    let w = width as usize;
    let h = height as usize;
    let count = match w.checked_mul(h) {
        Some(p) => match p.checked_mul(3) {
            Some(c) => c,
            None => {
                return Err(CheckpointError::Oversized);
            },
        },
        None => {
            proof {
                assert(w * h <= w * h * 3) by (nonlinear_arith);
            }
            return Err(CheckpointError::Oversized);
        },
    };
    let total = match count.checked_mul(8) {
        Some(t) => match t.checked_add(16) {
            Some(total) => total,
            None => {
                return Err(CheckpointError::Oversized);
            },
        },
        None => {
            return Err(CheckpointError::Oversized);
        },
    };
    if bytes.len() < total {
        return Err(CheckpointError::Truncated);
    }
    let mut values: Vec<u64> = Vec::new();
    let mut i: usize = 0;
    while i < count
        invariant
            i <= count,
            count == w * h * 3,
            total == 16 + 8 * count,
            total <= bytes@.len(),
            values@.len() == i,
            forall|j: int| 0 <= j < i ==> #[trigger] values@[j] == stored_value(bytes@, j),
        decreases count - i,
    {
        let v = read_le(bytes, 16 + 8 * i);
        values.push(v);
        i = i + 1;
    }
    Ok(Checkpoint { width: w, height: h, values })
}

} // verus!
