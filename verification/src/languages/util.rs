//! Line bookkeeping over raw bytes.

use vstd::prelude::*;
use vstd::string::StrSliceExecFns;
use vstd::string::StringSliceAdditionalSpecFns;

verus! {

/// Byte offsets at which lines begin: offset 0, then one offset after
/// each newline byte.
pub open spec fn spec_nl_offsets(b: Seq<u8>) -> Seq<int>
    decreases b.len(),
{
    if b.len() == 0 {
        Seq::empty()
    } else {
        spec_nl_offsets(b.drop_last()) + if b.last() == 10u8 {
            seq![b.len() as int]
        } else {
            Seq::empty()
        }
    }
}

pub open spec fn spec_line_offsets(b: Seq<u8>) -> Seq<int> {
    seq![0int] + spec_nl_offsets(b)
}

/// Newline offsets are positive, bounded by the length, and strictly
/// increasing.
pub proof fn lemma_nl_offsets_sorted(b: Seq<u8>)
    ensures
        forall|i: int|
            0 <= i < spec_nl_offsets(b).len() ==> 0 < #[trigger] spec_nl_offsets(b)[i]
                <= b.len(),
        forall|i: int, j: int|
            0 <= i < j < spec_nl_offsets(b).len() ==> #[trigger] spec_nl_offsets(b)[i]
                < #[trigger] spec_nl_offsets(b)[j],
    decreases b.len(),
{
    if b.len() > 0 {
        lemma_nl_offsets_sorted(b.drop_last());
        let pre = spec_nl_offsets(b.drop_last());
        let cur = spec_nl_offsets(b);
        assert(b.drop_last().len() == b.len() - 1);
        assert forall|i: int| 0 <= i < cur.len() implies 0 < #[trigger] cur[i] <= b.len() by {
            if i < pre.len() {
                assert(cur[i] == pre[i]);
                assert(0 < pre[i] <= b.len() - 1);
            } else {
                assert(b.last() == 10u8);
                assert(cur[i] == b.len() as int);
            }
        }
        assert forall|i: int, j: int| 0 <= i < j < cur.len() implies #[trigger] cur[i] < #[trigger] cur[j] by {
            assert(cur[i] == pre[i]);
            if j < pre.len() {
                assert(cur[j] == pre[j]);
            } else {
                assert(b.last() == 10u8);
                assert(cur[j] == b.len() as int);
                assert(pre[i] <= b.len() - 1);
            }
        }
    }
}

/// Build a vector of byte offsets for each line start. The result has
/// one element per line plus the leading zero; element `i` is the
/// starting byte of line `i + 1` counted 1-based.
#[verifier::loop_isolation(false)]
pub fn line_offsets(src: &str) -> (r: Vec<usize>)
    ensures
        r@.map_values(|x: usize| x as int) == spec_line_offsets(src.spec_bytes()),
{
    let bytes: Vec<u8> = src.as_bytes_vec();
    let mut offs: Vec<usize> = Vec::new();
    offs.push(0);
    proof {
        assert(offs@.map_values(|x: usize| x as int) =~= seq![0int] + spec_nl_offsets(
            bytes@.subrange(0, 0),
        )) by {
            assert(bytes@.subrange(0, 0) =~= Seq::<u8>::empty());
        }
    }
    let mut i: usize = 0;
    while i < bytes.len()
        invariant
            i <= bytes@.len(),
            bytes@ == src.spec_bytes(),
            offs@.map_values(|x: usize| x as int) == seq![0int] + spec_nl_offsets(
                bytes@.subrange(0, i as int),
            ),
        decreases bytes.len() - i,
    {
        let ghost o0 = offs@;
        proof {
            assert(bytes@.subrange(0, i as int + 1).drop_last() =~= bytes@.subrange(0, i as int));
            assert(bytes@.subrange(0, i as int + 1).last() == bytes@[i as int]);
        }
        if bytes[i] == 10u8 {
            offs.push(i + 1);
            proof {
                assert(offs@.map_values(|x: usize| x as int) =~= o0.map_values(
                    |x: usize| x as int,
                ).push(i as int + 1));
                assert(seq![0int] + spec_nl_offsets(bytes@.subrange(0, i as int + 1)) =~= (
                seq![0int] + spec_nl_offsets(bytes@.subrange(0, i as int))).push(i as int + 1));
            }
        } else {
            proof {
                assert(spec_nl_offsets(bytes@.subrange(0, i as int + 1)) =~= spec_nl_offsets(
                    bytes@.subrange(0, i as int),
                ));
            }
        }
        i = i + 1;
    }
    proof {
        assert(bytes@.subrange(0, bytes@.len() as int) =~= bytes@);
    }
    offs
}

/// The number of offsets in `offs` that are at most `byte`.
pub open spec fn spec_count_le(offs: Seq<int>, byte: int) -> int
    decreases offs.len(),
{
    if offs.len() == 0 {
        0
    } else {
        spec_count_le(offs.drop_last(), byte) + if offs.last() <= byte {
            1int
        } else {
            0int
        }
    }
}

pub proof fn lemma_count_le_sorted_prefix(offs: Seq<int>, byte: int, k: int)
    requires
        0 <= k <= offs.len(),
        forall|i: int, j: int| 0 <= i < j < offs.len() ==> offs[i] < offs[j],
        forall|i: int| 0 <= i < k ==> offs[i] <= byte,
        forall|i: int| k <= i < offs.len() ==> offs[i] > byte,
    ensures
        spec_count_le(offs, byte) == k,
    decreases offs.len(),
{
    if offs.len() > 0 {
        if k == offs.len() {
            lemma_count_le_sorted_prefix(offs.drop_last(), byte, k - 1);
        } else {
            lemma_count_le_sorted_prefix(offs.drop_last(), byte, k);
        }
    }
}

/// Convert a byte index to a 1-based line number using precomputed
/// offsets: the number of line starts at or before the byte.
#[verifier::loop_isolation(false)]
pub fn byte_to_line(offs: &Vec<usize>, byte: usize) -> (r: u32)
    requires
        forall|i: int, j: int|
            0 <= i < j < offs@.len() ==> offs@[i] < offs@[j],
    ensures
        r as int == spec_count_le(offs@.map_values(|x: usize| x as int), byte as int) as u32
            as int,
{
    let mut k: usize = 0;
    while k < offs.len() && offs[k] <= byte
        invariant
            k <= offs@.len(),
            forall|i: int| 0 <= i < k ==> offs@[i] <= byte,
        decreases offs.len() - k,
    {
        k = k + 1;
    }
    proof {
        let m = offs@.map_values(|x: usize| x as int);
        assert forall|i: int| k as int <= i < m.len() implies m[i] > byte as int by {
            assert(k < offs@.len());
            assert(offs@[k as int] > byte);
            if i > k as int {
                assert(offs@[k as int] < offs@[i]);
            }
            assert(m[i] == offs@[i] as int);
        }
        lemma_count_le_sorted_prefix(m, byte as int, k as int);
    }
    #[verifier::truncate] (k as u32)
}

} // verus!
