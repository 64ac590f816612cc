//! Putting the chunks back together and checking the result.
use vstd::prelude::*;
use crate::error::TransferError;
use crate::plan::{chunk_count, lemma_plan_partitions, planned_ranges};

verus! {

/// The SHA-256 digest of `data`.
pub uninterp spec fn sha256_of(data: Seq<u8>) -> Seq<u8>;

/// Relies on sha2's `Sha256::digest`: the 32-byte SHA-256 digest of the input,
/// which depends on the input alone.
#[verifier::external_body]
fn sha256(data: &[u8]) -> (r: Vec<u8>)
    ensures
        r@ == sha256_of(data@),
        r@.len() == 32,
{
    <sha2::Sha256 as sha2::Digest>::digest(data).to_vec()
}

/// The bytes of each part.
pub open spec fn part_bytes(parts: Seq<Vec<u8>>) -> Seq<Seq<u8>> {
    parts.map_values(|p: Vec<u8>| p@)
}

/// The value of an ASCII hexadecimal digit of either case, or 16 for any
/// other byte.
pub open spec fn hex_value(b: u8) -> nat {
    if 48 <= b <= 57 {
        (b - 48) as nat
    } else if 65 <= b <= 70 {
        (b - 55) as nat
    } else if 97 <= b <= 102 {
        (b - 87) as nat
    } else {
        16
    }
}

/// `hex` spells `digest` in hexadecimal, two digits per byte, high digit
/// first, in either case.
pub open spec fn hex_matches(digest: Seq<u8>, hex: Seq<u8>) -> bool {
    &&& hex.len() == 2 * digest.len()
    &&& forall|i: int|
        0 <= i < digest.len() ==> hex_value(#[trigger] hex[2 * i]) < 16 && hex_value(hex[2 * i + 1])
            < 16 && hex_value(hex[2 * i]) * 16 + hex_value(hex[2 * i + 1]) == digest[i]
}

fn hex_digit_value(b: u8) -> (r: u8)
    ensures
        r as nat == hex_value(b),
{
    if 48 <= b && b <= 57 {
        b - 48
    } else if 65 <= b && b <= 70 {
        b - 55
    } else if 97 <= b && b <= 102 {
        b - 87
    } else {
        16
    }
}

/// Whether `expected_hex` spells `digest` in hexadecimal.
pub fn digest_matches_hex(digest: &[u8], expected_hex: &[u8]) -> (r: bool)
    ensures
        r == hex_matches(digest@, expected_hex@),
{
    let hex_len = expected_hex.len();
    if digest.len() > usize::MAX / 2 || hex_len != 2 * digest.len() {
        return false;
    }
    let mut i: usize = 0;
    while i < digest.len()
        invariant
            i <= digest@.len(),
            digest@.len() <= usize::MAX / 2,
            expected_hex@.len() == 2 * digest@.len(),
            forall|k: int|
                0 <= k < i ==> hex_value(#[trigger] expected_hex@[2 * k]) < 16 && hex_value(
                    expected_hex@[2 * k + 1],
                ) < 16 && hex_value(expected_hex@[2 * k]) * 16 + hex_value(expected_hex@[2 * k + 1])
                    == digest@[k],
        decreases digest@.len() - i,
    {
        let hi = hex_digit_value(expected_hex[2 * i]);
        let lo = hex_digit_value(expected_hex[2 * i + 1]);
        if hi >= 16 || lo >= 16 || (hi as u16) * 16 + (lo as u16) != digest[i] as u16 {
            proof {
                let k = i as int;
                assert(!(hex_value(expected_hex@[2 * k]) < 16 && hex_value(expected_hex@[2 * k + 1])
                    < 16 && hex_value(expected_hex@[2 * k]) * 16 + hex_value(expected_hex@[2 * k + 1])
                    == digest@[k]));
            }
            return false;
        }
        assert(hex_value(expected_hex@[2 * (i as int)]) * 16 + hex_value(
            expected_hex@[2 * (i as int) + 1],
        ) == digest@[i as int]);
        i = i + 1;
    }
    assert(expected_hex@.len() == 2 * digest@.len());
    assert(hex_matches(digest@, expected_hex@));
    true
}

/// The parts in index order, joined; `ChunkEmpty` if one of them is empty.
/// The result does not depend on the order in which the parts arrived.
pub fn merge_parts(parts: &Vec<Vec<u8>>) -> (r: Result<Vec<u8>, TransferError>)
    ensures
        r is Err <==> exists|i: int| 0 <= i < parts@.len() && (#[trigger] parts@[i])@.len() == 0,
        r is Err ==> r == Err::<Vec<u8>, TransferError>(TransferError::ChunkEmpty),
        r matches Ok(v) ==> v@ == part_bytes(parts@).flatten(),
{
    let mut k: usize = 0;
    while k < parts.len()
        invariant
            k <= parts@.len(),
            forall|i: int| 0 <= i < k ==> (#[trigger] parts@[i])@.len() > 0,
        decreases parts@.len() - k,
    {
        if parts[k].len() == 0 {
            return Err(TransferError::ChunkEmpty);
        }
        k = k + 1;
    }
    let mut out: Vec<u8> = Vec::new();
    let mut k: usize = 0;
    assert(part_bytes(parts@).take(0) =~= Seq::<Seq<u8>>::empty());
    while k < parts.len()
        invariant
            k <= parts@.len(),
            out@ == part_bytes(parts@).take(k as int).flatten(),
        decreases parts@.len() - k,
    {
        let part = &parts[k];
        let ghost before = out@;
        let mut b: usize = 0;
        while b < part.len()
            invariant
                b <= part@.len(),
                out@ == before + part@.take(b as int),
            decreases part@.len() - b,
        {
            out.push(part[b]);
            assert(part@.take(b + 1) =~= part@.take(b as int).push(part@[b as int]));
            b = b + 1;
        }
        proof {
            assert(part@.take(part@.len() as int) =~= part@);
            assert(part_bytes(parts@).take(k + 1) =~= part_bytes(parts@).take(k as int).push(
                part@,
            ));
            part_bytes(parts@).take(k as int).lemma_flatten_push(part@);
        }
        k = k + 1;
    }
    assert(part_bytes(parts@).take(parts@.len() as int) =~= part_bytes(parts@));
    Ok(out)
}

/// Checks the length of an output written in place: `SizeMismatch` unless it
/// is `total_size`.
pub fn check_output_size(written: u64, total_size: u64) -> (r: Result<(), TransferError>)
    ensures
        r is Ok <==> written == total_size,
        r is Err ==> r == Err::<(), TransferError>(TransferError::SizeMismatch),
{
    if written != total_size {
        Err(TransferError::SizeMismatch)
    } else {
        Ok(())
    }
}

/// The output is acceptable: it has `total_size` bytes, and its SHA-256
/// digest is the expected one where one was given.
pub open spec fn output_verdict(data: Seq<u8>, total_size: u64, expected_hex: Option<Seq<u8>>) -> Result<
    (),
    TransferError,
> {
    if data.len() != total_size {
        Err(TransferError::SizeMismatch)
    } else if expected_hex matches Some(h) && h.len() > 0 && !hex_matches(sha256_of(data), h) {
        Err(TransferError::HashMismatch)
    } else {
        Ok(())
    }
}

/// Checks an assembled output: `SizeMismatch` if its length is not
/// `total_size`; otherwise, where a non-empty expected digest is given in
/// hexadecimal, `HashMismatch` if the SHA-256 digest of the output differs.
pub fn verify_output(data: &[u8], total_size: u64, expected_hex: Option<&[u8]>) -> (r: Result<
    (),
    TransferError,
>)
    ensures
        r == output_verdict(
            data@,
            total_size,
            match expected_hex {
                Some(h) => Some(h@),
                None => None,
            },
        ),
{
    if data.len() as u64 != total_size {
        return Err(TransferError::SizeMismatch);
    }
    match expected_hex {
        Some(h) => {
            if h.len() > 0 {
                let digest = sha256(data);
                if !digest_matches_hex(digest.as_slice(), h) {
                    return Err(TransferError::HashMismatch);
                }
            }
            Ok(())
        },
        None => Ok(()),
    }
}

/// Merges the parts in index order and checks the result; see
/// [`merge_parts`] and [`verify_output`].
pub fn finalize(parts: &Vec<Vec<u8>>, total_size: u64, expected_hex: Option<&[u8]>) -> (r: Result<
    Vec<u8>,
    TransferError,
>)
    ensures
        (exists|i: int| 0 <= i < parts@.len() && (#[trigger] parts@[i])@.len() == 0) ==> r == Err::<
            Vec<u8>,
            TransferError,
        >(TransferError::ChunkEmpty),
        !(exists|i: int| 0 <= i < parts@.len() && (#[trigger] parts@[i])@.len() == 0) ==> {
            let joined = part_bytes(parts@).flatten();
            match output_verdict(
                joined,
                total_size,
                match expected_hex {
                    Some(h) => Some(h@),
                    None => None,
                },
            ) {
                Ok(_) => r matches Ok(v) && v@ == joined,
                Err(e) => r == Err::<Vec<u8>, TransferError>(e),
            }
        },
{
    let merged = merge_parts(parts)?;
    verify_output(merged.as_slice(), total_size, expected_hex)?;
    Ok(merged)
}

/// The parts that a server holding `content` sends for the planned chunks.
pub open spec fn served_parts(content: Seq<u8>, chunk_size: u64) -> Seq<Seq<u8>> {
    let p = planned_ranges(content.len() as u64, chunk_size);
    Seq::new(p.len(), |i: int| content.subrange(p[i].start as int, p[i].end + 1))
}

/// Merging the parts that were served for the planned chunks gives back the
/// content byte for byte, whichever run fetched which chunk; and no such part
/// is empty.
pub proof fn lemma_merge_reassembles(content: Seq<u8>, chunk_size: u64)
    requires
        chunk_size > 0,
        content.len() <= u64::MAX,
        chunk_count(content.len(), chunk_size as nat) <= usize::MAX,
    ensures
        served_parts(content, chunk_size).flatten() == content,
        forall|i: int|
            0 <= i < served_parts(content, chunk_size).len() ==> (#[trigger] served_parts(
                content,
                chunk_size,
            )[i]).len() > 0,
{
    let total = content.len() as u64;
    let p = planned_ranges(total, chunk_size);
    let parts = served_parts(content, chunk_size);
    lemma_plan_partitions(total, chunk_size);
    // The first `k` parts join into the bytes before chunk `k`.
    assert forall|k: int| 0 <= k <= parts.len() implies #[trigger] parts.take(k).flatten()
        == content.take(if k == 0 {
        0
    } else {
        p[k - 1].end + 1
    }) by {
        lemma_prefix_flatten(content, chunk_size, k);
    }
    assert(parts.take(parts.len() as int) =~= parts);
    if parts.len() == 0 {
        assert(content =~= content.take(0));
    } else {
        assert(content.take(content.len() as int) =~= content);
    }
}

proof fn lemma_prefix_flatten(content: Seq<u8>, chunk_size: u64, k: int)
    requires
        chunk_size > 0,
        content.len() <= u64::MAX,
        chunk_count(content.len(), chunk_size as nat) <= usize::MAX,
        0 <= k <= served_parts(content, chunk_size).len(),
    ensures
        served_parts(content, chunk_size).take(k).flatten() == content.take(
            if k == 0 {
                0
            } else {
                planned_ranges(content.len() as u64, chunk_size)[k - 1].end + 1
            },
        ),
    decreases k,
{
    let total = content.len() as u64;
    let p = planned_ranges(total, chunk_size);
    let parts = served_parts(content, chunk_size);
    lemma_plan_partitions(total, chunk_size);
    if k == 0 {
        assert(parts.take(0) =~= Seq::<Seq<u8>>::empty());
        assert(content.take(0) =~= Seq::<u8>::empty());
    } else {
        lemma_prefix_flatten(content, chunk_size, k - 1);
        assert(parts.take(k) =~= parts.take(k - 1).push(parts[k - 1]));
        parts.take(k - 1).lemma_flatten_push(parts[k - 1]);
        let before = if k - 1 == 0 {
            0
        } else {
            p[k - 2].end + 1
        };
        assert(p[k - 1].start == before) by {
            if k - 1 > 0 {
                assert(p[(k - 2) + 1].start == p[k - 2].end + 1);
            }
        }
        assert(content.take(before) + content.subrange(before, p[k - 1].end + 1) =~= content.take(
            p[k - 1].end + 1,
        ));
    }
}

} // verus!
