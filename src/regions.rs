//! Data regions: the byte spans copied out of the watched buffer.
//!
//! A list of regions is stored in the header in a canonical flat form: sixteen
//! words holding up to eight `(offset, length)` pairs in order, padded with
//! zeros. Since every region has a non-zero length, the first pair with a zero
//! length marks the end of the list.
use vstd::prelude::*;
use crate::errors::AccountHistoryProgramError;

verus! {

/// The most regions a history can copy.
pub const MAX_DATA_REGIONS: usize = 8;

/// The number of words of the flat form.
pub const FLAT_REGION_WORDS: usize = 16;

/// One past the last byte of a region.
pub open spec fn region_end(r: (u32, u32)) -> int {
    r.0 as int + r.1 as int
}

/// At most eight regions, each non-empty, each starting at or after the end
/// of the one before it (so offsets strictly ascend and no two overlap).
pub open spec fn spec_valid_regions(r: Seq<(u32, u32)>) -> bool {
    &&& r.len() <= MAX_DATA_REGIONS
    &&& forall|i: int| 0 <= i < r.len() ==> (#[trigger] r[i]).1 > 0
    &&& forall|i: int| 1 <= i < r.len() ==> (#[trigger] r[i]).0 as int >= region_end(r[i - 1])
}

/// The flat form: the pairs in order, then zeros up to sixteen words.
pub open spec fn spec_flatten(r: Seq<(u32, u32)>) -> Seq<u32> {
    Seq::new(
        FLAT_REGION_WORDS as nat,
        |j: int|
            if j / 2 < r.len() {
                if j % 2 == 0 {
                    r[j / 2].0
                } else {
                    r[j / 2].1
                }
            } else {
                0u32
            },
    )
}

/// The number of leading pairs of a flat form, from pair `k` on, before the
/// first pair of zero length.
pub open spec fn spec_region_count(flat: Seq<u32>, k: nat) -> nat
    decreases 8 - k,
{
    if k < 8 && flat[2 * k as int + 1] != 0 {
        spec_region_count(flat, k + 1)
    } else {
        k
    }
}

/// The pairs of a flat form up to the first one of zero length.
pub open spec fn spec_unflatten(flat: Seq<u32>) -> Seq<(u32, u32)> {
    Seq::new(spec_region_count(flat, 0), |i: int| (flat[2 * i], flat[2 * i + 1]))
}

/// A flat form that the validator could have produced.
pub open spec fn spec_canonical(flat: Seq<u32>) -> bool {
    &&& flat.len() == FLAT_REGION_WORDS
    &&& spec_valid_regions(spec_unflatten(flat))
    &&& spec_flatten(spec_unflatten(flat)) == flat
}

/// Sum of the lengths of the pairs `0..k` of a flat form.
pub open spec fn spec_flat_len_sum(flat: Seq<u32>, k: nat) -> nat
    decreases k,
{
    if k == 0 {
        0
    } else {
        spec_flat_len_sum(flat, (k - 1) as nat) + flat[2 * (k - 1) as int + 1] as nat
    }
}

/// Sum of the lengths of a list of regions.
pub open spec fn spec_regions_len_sum(r: Seq<(u32, u32)>) -> nat
    decreases r.len(),
{
    if r.len() == 0 {
        0
    } else {
        spec_regions_len_sum(r.drop_last()) + r.last().1 as nat
    }
}

proof fn lemma_count_of_flatten(r: Seq<(u32, u32)>, k: nat)
    requires
        spec_valid_regions(r),
        k <= r.len(),
    ensures
        spec_region_count(spec_flatten(r), k) == r.len(),
    decreases r.len() - k,
{
    let flat = spec_flatten(r);
    if k < r.len() {
        assert(flat[2 * k as int + 1] == r[k as int].1);
        lemma_count_of_flatten(r, k + 1);
    } else if k < 8 {
        assert(flat[2 * k as int + 1] == 0);
    }
}

/// Decoding the flat form of a valid list of regions gives the list back.
pub proof fn lemma_flatten_round_trip(r: Seq<(u32, u32)>)
    requires
        spec_valid_regions(r),
    ensures
        spec_unflatten(spec_flatten(r)) == r,
        spec_canonical(spec_flatten(r)),
{
    lemma_count_of_flatten(r, 0);
    let flat = spec_flatten(r);
    let back = spec_unflatten(flat);
    assert forall|i: int| 0 <= i < r.len() implies back[i] == r[i] by {
        assert(flat[2 * i] == r[i].0);
        assert(flat[2 * i + 1] == r[i].1);
    }
    assert(back =~= r);
}

/// Sum of the region lengths of the flat form equals that of the list.
pub proof fn lemma_flat_len_sum(r: Seq<(u32, u32)>, k: nat)
    requires
        spec_valid_regions(r),
        k <= 8,
    ensures
        spec_flat_len_sum(spec_flatten(r), k) == spec_regions_len_sum(
            r.take(if k < r.len() { k as int } else { r.len() as int }),
        ),
    decreases k,
{
    let flat = spec_flatten(r);
    if k > 0 {
        lemma_flat_len_sum(r, (k - 1) as nat);
        let m = if k < r.len() { k as int } else { r.len() as int };
        if k <= r.len() {
            assert(r.take(k as int).drop_last() =~= r.take(k - 1));
            assert(flat[2 * (k - 1) as int + 1] == r[k - 1].1);
        } else {
            assert(flat[2 * (k - 1) as int + 1] == 0);
        }
    }
}

/// Checks a list of regions and returns its flat form.
///
/// Fails with `InvalidDataRegions` when there are more than eight regions, a
/// region is empty, or a region starts before the end of the one before it.
pub fn sanitize_data_regions(pairs: &[(u32, u32)]) -> (r: Result<[u32; 16], AccountHistoryProgramError>)
    ensures
        r is Ok <==> spec_valid_regions(pairs@),
        r is Err ==> r == Err::<[u32; 16], _>(AccountHistoryProgramError::InvalidDataRegions),
        r matches Ok(flat) ==> flat@ == spec_flatten(pairs@),
{
    if pairs.len() > MAX_DATA_REGIONS {
        return Err(AccountHistoryProgramError::InvalidDataRegions);
    }
    let mut loc = [0u32; 16];
    let mut i: usize = 0;
    while i < pairs.len()
        invariant
            pairs@.len() <= MAX_DATA_REGIONS,
            i <= pairs@.len(),
            spec_valid_regions(pairs@.take(i as int)),
            loc@ == spec_flatten(pairs@.take(i as int)),
        decreases pairs@.len() - i,
    {
        let pair = pairs[i];
        if pair.1 == 0 {
            return Err(AccountHistoryProgramError::InvalidDataRegions);
        }
        if i > 0 {
            let prev = pairs[i - 1];
            if (pair.0 as u64) < (prev.0 as u64) + (prev.1 as u64) {
                assert(!spec_valid_regions(pairs@)) by {
                    assert(pairs@[i as int] == pair);
                }
                return Err(AccountHistoryProgramError::InvalidDataRegions);
            }
        }
        let ghost before = loc@;
        loc[2 * i] = pair.0;
        loc[2 * i + 1] = pair.1;
        proof {
            let t = pairs@.take(i + 1);
            assert(t[i as int] == pair);
            assert forall|j: int| 0 <= j < i implies t[j] == pairs@.take(i as int)[j] by {}
            assert(loc@ =~= spec_flatten(t));
        }
        i = i + 1;
    }
    assert(pairs@.take(pairs@.len() as int) =~= pairs@);
    Ok(loc)
}

/// The list of regions held by a flat form: its pairs up to the first one of
/// zero length.
pub fn unflatten_data_regions(flat: &[u32; 16]) -> (r: Vec<(u32, u32)>)
    ensures
        r@ == spec_unflatten(flat@),
{
    let mut out: Vec<(u32, u32)> = Vec::new();
    let mut k: usize = 0;
    while k < MAX_DATA_REGIONS && flat[2 * k + 1] != 0
        invariant
            k <= 8,
            flat@.len() == 16,
            spec_region_count(flat@, k as nat) == spec_region_count(flat@, 0),
            out@ =~= Seq::new(k as nat, |i: int| (flat@[2 * i], flat@[2 * i + 1])),
        decreases 8 - k,
    {
        out.push((flat[2 * k], flat[2 * k + 1]));
        k = k + 1;
    }
    out
}

} // verus!
