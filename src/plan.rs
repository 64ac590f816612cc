//! Cutting a file of known size into consecutive byte ranges.
use vstd::prelude::*;
use vstd::arithmetic::div_mod::{lemma_fundamental_div_mod, lemma_fundamental_div_mod_converse};
use vstd::arithmetic::mul::lemma_mul_inequality;

verus! {

/// One chunk of a transfer: its position in the plan and the bytes it
/// covers, both ends inclusive.
#[derive(Clone, Copy, Debug, PartialEq, Eq, Structural)]
pub struct ChunkRange {
    pub index: usize,
    pub start: u64,
    pub end: u64,
}

/// Number of chunks of `chunk_size` bytes needed for `total` bytes, rounded up.
pub open spec fn chunk_count(total: nat, chunk_size: nat) -> nat {
    if chunk_size == 0 {
        0
    } else {
        ((total + chunk_size - 1) / (chunk_size as int)) as nat
    }
}

/// First byte of chunk `i`.
pub open spec fn chunk_start(i: int, chunk_size: nat) -> int {
    i * chunk_size
}

/// Last byte of chunk `i`: the chunk is full unless it is the last one.
pub open spec fn chunk_end(i: int, total: nat, chunk_size: nat) -> int {
    if (i + 1) * chunk_size <= total {
        (i + 1) * chunk_size - 1
    } else {
        total - 1
    }
}

/// The ranges that a file of `total` bytes is cut into.
pub open spec fn planned_ranges(total: u64, chunk_size: u64) -> Seq<ChunkRange> {
    Seq::new(
        chunk_count(total as nat, chunk_size as nat),
        |i: int|
            ChunkRange {
                index: i as usize,
                start: chunk_start(i, chunk_size as nat) as u64,
                end: chunk_end(i, total as nat, chunk_size as nat) as u64,
            },
    )
}

/// The chunk that holds byte `b`.
pub open spec fn chunk_of(b: int, chunk_size: nat) -> int {
    b / (chunk_size as int)
}

/// Byte `b` lies in range `r`.
pub open spec fn covers(r: ChunkRange, b: int) -> bool {
    r.start <= b <= r.end
}

/// Length in bytes of a range.
pub open spec fn range_len(r: ChunkRange) -> int {
    r.end - r.start + 1
}

/// `ceil(total / chunk_size) == k` whenever the `k`-th multiple of
/// `chunk_size` is the first one to reach `total`.
pub proof fn lemma_chunk_count_is(total: nat, chunk_size: nat, k: nat)
    requires
        chunk_size > 0,
        k == 0 ==> total == 0,
        k > 0 ==> (k - 1) * chunk_size < total <= k * chunk_size,
    ensures
        chunk_count(total, chunk_size) == k,
{
    if k == 0 {
        lemma_fundamental_div_mod_converse(chunk_size - 1, chunk_size as int, 0, chunk_size - 1);
    } else {
        let x = total + chunk_size - 1;
        let r = x - (k - 1) * chunk_size - chunk_size;
        assert(k * chunk_size == (k - 1) * chunk_size + chunk_size) by (nonlinear_arith);
        assert(0 <= r < chunk_size);
        assert(x == (k as int) * (chunk_size as int) + r) by (nonlinear_arith)
            requires
                r == x - (k - 1) * chunk_size - chunk_size,
                k * chunk_size == (k - 1) * chunk_size + chunk_size,
        ;
        lemma_fundamental_div_mod_converse(x, chunk_size as int, k as int, r);
    }
}

/// When the first `i + 1` chunks do not cover the file, there are more than
/// `i + 1` chunks.
proof fn lemma_more_chunks_after(total: nat, chunk_size: nat, i: nat)
    requires
        chunk_size > 0,
        (i + 1) * chunk_size < total,
    ensures
        chunk_count(total, chunk_size) > i + 1,
{
    let k = chunk_count(total, chunk_size);
    let x = total + chunk_size - 1;
    assert((i + 2) * chunk_size <= x) by (nonlinear_arith)
        requires
            (i + 1) * chunk_size < total,
            x == total + chunk_size - 1,
    ;
    vstd::arithmetic::div_mod::lemma_div_is_ordered(((i + 2) * chunk_size) as int, x as int, chunk_size as int);
    vstd::arithmetic::div_mod::lemma_div_multiples_vanish((i + 2) as int, chunk_size as int);
    assert((i + 2) * chunk_size == chunk_size * (i + 2)) by (nonlinear_arith);
}

/// The chunk count is the first multiple of `chunk_size` to reach `total`.
pub proof fn lemma_chunk_count_bounds(total: nat, chunk_size: nat)
    requires
        chunk_size > 0,
    ensures
        chunk_count(total, chunk_size) == 0 <==> total == 0,
        chunk_count(total, chunk_size) > 0 ==> (chunk_count(total, chunk_size) - 1) * chunk_size
            < total <= chunk_count(total, chunk_size) * chunk_size,
{
    let k = chunk_count(total, chunk_size);
    let x = total + chunk_size - 1;
    lemma_fundamental_div_mod(x as int, chunk_size as int);
    vstd::arithmetic::div_mod::lemma_div_pos_is_pos(x as int, chunk_size as int);
    let r = x % (chunk_size as int);
    assert(k == x / (chunk_size as int));
    assert(x == chunk_size * k + r);
    assert(0 <= r < chunk_size);
    assert(chunk_size * k == k * chunk_size) by (nonlinear_arith);
    if k > 0 {
        assert((k - 1) * chunk_size == k * chunk_size - chunk_size) by (nonlinear_arith);
    } else {
        assert(chunk_size * k == 0) by (nonlinear_arith)
            requires
                k == 0,
        ;
        assert(total == 0);
    }
    if total == 0 {
        lemma_chunk_count_is(0, chunk_size, 0);
    }
}

/// Every planned chunk lies inside the file: it starts at or before its end,
/// and its end is a byte of the file.
pub proof fn lemma_planned_chunk_inside(total: nat, chunk_size: nat, i: int)
    requires
        chunk_size > 0,
        0 <= i < chunk_count(total, chunk_size),
    ensures
        0 <= chunk_start(i, chunk_size) <= chunk_end(i, total, chunk_size) < total,
        chunk_end(i, total, chunk_size) + 1 == total || chunk_end(i, total, chunk_size) + 1
            == chunk_start(i + 1, chunk_size),
        i + 1 == chunk_count(total, chunk_size) <==> chunk_end(i, total, chunk_size) + 1 == total,
{
    let k = chunk_count(total, chunk_size);
    lemma_chunk_count_bounds(total, chunk_size);
    lemma_mul_inequality(i, k - 1, chunk_size as int);
    assert(0 <= i * chunk_size) by (nonlinear_arith)
        requires
            i >= 0,
    ;
    assert((i + 1) * chunk_size == i * chunk_size + chunk_size) by (nonlinear_arith);
    if i + 1 < k {
        lemma_mul_inequality(i + 1, k - 1, chunk_size as int);
    }
}

/// The plan partitions the file: the first chunk starts at byte 0, each
/// following chunk starts right after the one before it ends, every chunk
/// holds at least one byte, the last one ends at the last byte of the file,
/// byte `b` lies in chunk `b / chunk_size` and in no other, and there are
/// `ceil(total_size / chunk_size)` chunks.
pub proof fn lemma_plan_partitions(total_size: u64, chunk_size: u64)
    requires
        chunk_size > 0,
        chunk_count(total_size as nat, chunk_size as nat) <= usize::MAX,
    ensures
        planned_ranges(total_size, chunk_size).len() == chunk_count(
            total_size as nat,
            chunk_size as nat,
        ),
        total_size == 0 <==> planned_ranges(total_size, chunk_size).len() == 0,
        total_size > 0 ==> planned_ranges(total_size, chunk_size)[0].start == 0
            && planned_ranges(total_size, chunk_size).last().end == total_size - 1,
        forall|i: int|
            0 <= i < planned_ranges(total_size, chunk_size).len() ==> {
                let r = #[trigger] planned_ranges(total_size, chunk_size)[i];
                &&& r.index == i
                &&& r.start <= r.end < total_size
            },
        forall|i: int|
            0 <= i < planned_ranges(total_size, chunk_size).len() - 1 ==> #[trigger] planned_ranges(
                total_size,
                chunk_size,
            )[i + 1].start == planned_ranges(total_size, chunk_size)[i].end + 1,
        forall|b: int|
            0 <= b < total_size ==> {
                let i = #[trigger] chunk_of(b, chunk_size as nat);
                &&& 0 <= i < planned_ranges(total_size, chunk_size).len()
                &&& planned_ranges(total_size, chunk_size)[i].start <= b
                    <= planned_ranges(total_size, chunk_size)[i].end
            },
        forall|b: int, i: int, j: int|
            0 <= i < planned_ranges(total_size, chunk_size).len() && 0 <= j
                < planned_ranges(total_size, chunk_size).len() && #[trigger] covers(
                planned_ranges(total_size, chunk_size)[i],
                b,
            ) && #[trigger] covers(planned_ranges(total_size, chunk_size)[j], b) ==> i == j,
{
    let t = total_size as nat;
    let c = chunk_size as nat;
    let p = planned_ranges(total_size, chunk_size);
    let k = chunk_count(t, c);
    lemma_chunk_count_bounds(t, c);
    assert forall|i: int| 0 <= i < p.len() implies {
        let r = #[trigger] p[i];
        &&& r.index == i
        &&& r.start <= r.end < total_size
        &&& r.start == chunk_start(i, c)
        &&& r.end == chunk_end(i, t, c)
    } by {
        lemma_planned_chunk_inside(t, c, i);
    }
    assert forall|i: int| 0 <= i < p.len() - 1 implies #[trigger] p[i + 1].start == p[i].end
        + 1 by {
        lemma_planned_chunk_inside(t, c, i);
        lemma_planned_chunk_inside(t, c, i + 1);
    }
    if total_size > 0 {
        lemma_planned_chunk_inside(t, c, 0);
        lemma_planned_chunk_inside(t, c, k - 1);
    }
    assert forall|b: int| 0 <= b < total_size implies {
        let i = #[trigger] chunk_of(b, c);
        &&& 0 <= i < p.len()
        &&& p[i].start <= b <= p[i].end
    } by {
        let i = b / (c as int);
        lemma_fundamental_div_mod(b, c as int);
        assert(c * i == i * c) by (nonlinear_arith);
        assert(i >= 0) by (nonlinear_arith)
            requires
                b >= 0,
                c > 0,
                i == b / (c as int),
        ;
        assert(i < k) by {
            if i >= k {
                lemma_mul_inequality(k as int, i, c as int);
            }
        }
        lemma_planned_chunk_inside(t, c, i);
        assert((i + 1) * c == i * c + c) by (nonlinear_arith);
        assert(p[i].start <= b <= p[i].end);
    }
    assert forall|b: int, i: int, j: int|
        0 <= i < p.len() && 0 <= j < p.len() && #[trigger] covers(p[i], b) && #[trigger] covers(
            p[j],
            b,
        ) implies i == j by {
        lemma_planned_chunk_inside(t, c, i);
        lemma_planned_chunk_inside(t, c, j);
        if i < j {
            lemma_mul_inequality(i + 1, j, c as int);
            assert((i + 1) * c == i * c + c) by (nonlinear_arith);
        } else if j < i {
            lemma_mul_inequality(j + 1, i, c as int);
            assert((j + 1) * c == j * c + c) by (nonlinear_arith);
        }
    }
}

/// The ranges of a transfer of `total_size` bytes in chunks of `chunk_size`
/// bytes, in order: chunk `i` starts at `i * chunk_size` and is full except
/// perhaps for the last one, which ends at the last byte of the file. An
/// empty file has no chunk.
pub fn plan_chunks(total_size: u64, chunk_size: u64) -> (r: Vec<ChunkRange>)
    requires
        chunk_size > 0,
        chunk_count(total_size as nat, chunk_size as nat) <= usize::MAX,
    ensures
        r@ == planned_ranges(total_size, chunk_size),
{
    let mut ranges: Vec<ChunkRange> = Vec::new();
    let mut start: u64 = 0;
    let mut i: usize = 0;
    if total_size == 0 {
        proof {
            lemma_chunk_count_is(0, chunk_size as nat, 0);
        }
        assert(ranges@ =~= planned_ranges(total_size, chunk_size));
        return ranges;
    }
    loop
        invariant
            chunk_size > 0,
            total_size > 0,
            chunk_count(total_size as nat, chunk_size as nat) <= usize::MAX,
            start as int == i * chunk_size,
            start < total_size,
            ranges@.len() == i,
            forall|j: int|
                0 <= j < i ==> ranges@[j] == (ChunkRange {
                    index: j as usize,
                    start: chunk_start(j, chunk_size as nat) as u64,
                    end: chunk_end(j, total_size as nat, chunk_size as nat) as u64,
                }),
        decreases total_size - start,
    {
        assert((i + 1) * chunk_size == i * chunk_size + chunk_size) by (nonlinear_arith);
        if total_size - start <= chunk_size {
            ranges.push(ChunkRange { index: i, start, end: total_size - 1 });
            proof {
                lemma_chunk_count_is(total_size as nat, chunk_size as nat, (i + 1) as nat);
            }
            assert(ranges@ =~= planned_ranges(total_size, chunk_size));
            return ranges;
        }
        proof {
            lemma_more_chunks_after(total_size as nat, chunk_size as nat, i as nat);
        }
        ranges.push(ChunkRange { index: i, start, end: start + chunk_size - 1 });
        start = start + chunk_size;
        i = i + 1;
    }
}

} // verus!
