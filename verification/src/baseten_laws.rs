//! Which cache control is accepted, and what is told where it is not.

use vstd::prelude::*;

use crate::baseten_ext::{
    error_at, error_from, ranges_error, BasetenExt, CacheControlError, CacheControlRange,
    CacheControlTier,
};

verus! {

/// Whether a tier is the same as another or lower: premium is the highest and basic the lowest.
pub open spec fn no_higher(tier: CacheControlTier, than: CacheControlTier) -> bool {
    match than {
        CacheControlTier::Premium => true,
        CacheControlTier::Standard => !(tier is Premium),
        CacheControlTier::Basic => tier is Basic,
    }
}

/// Whether the range at position `i` holds a token, if it ends, and is the one that does not end
/// exactly if it is the last; and whether it starts where the one before it ends and is no higher
/// than that one.
pub open spec fn in_place(ranges: Seq<CacheControlRange>, i: int) -> bool {
    &&& match ranges[i].end {
        Some(end) => ranges[i].start < end && i + 1 < ranges.len(),
        None => i + 1 == ranges.len(),
    }
    &&& i > 0 ==> {
        &&& ranges[i - 1].end == Some(ranges[i].start)
        &&& no_higher(ranges[i].tier, ranges[i - 1].tier)
    }
}

proof fn lemma_tier_order(tier: CacheControlTier, than: CacheControlTier)
    ensures
        no_higher(tier, than) == (tier.rank() <= than.rank()),
{
}

proof fn lemma_first_error(ranges: Seq<CacheControlRange>, from: int)
    requires
        0 <= from,
    ensures
        match error_from(ranges, from) {
            Some(error) => exists|i: int|
                {
                    &&& from <= i < ranges.len()
                    &&& #[trigger] error_at(ranges, i) == Some(error)
                    &&& forall|k: int| from <= k < i ==> #[trigger] error_at(ranges, k) is None
                },
            None => forall|k: int|
                from <= k < ranges.len() ==> #[trigger] error_at(ranges, k) is None,
        },
    decreases ranges.len() - from,
{
    if from < ranges.len() {
        if error_at(ranges, from) is None {
            lemma_first_error(ranges, from + 1);
            if let Some(error) = error_from(ranges, from + 1) {
                let i = choose|i: int|
                    {
                        &&& from + 1 <= i < ranges.len()
                        &&& #[trigger] error_at(ranges, i) == Some(error)
                        &&& forall|k: int|
                            from + 1 <= k < i ==> #[trigger] error_at(ranges, k) is None
                    };
                assert(error_at(ranges, i) == Some(error));
                assert forall|k: int| from <= k < i implies #[trigger] error_at(
                    ranges,
                    k,
                ) is None by {}
            } else {
                assert forall|k: int| from <= k < ranges.len() implies #[trigger] error_at(
                    ranges,
                    k,
                ) is None by {}
            }
        }
    }
}

/// Ranges are accepted exactly if there are any, the first starts at 0, and each is in its place.
pub proof fn law_ranges_in_place_are_accepted(ranges: Seq<CacheControlRange>)
    ensures
        ranges_error(ranges) is None <==> {
            &&& ranges.len() > 0
            &&& ranges[0].start == 0
            &&& forall|i: int| 0 <= i < ranges.len() ==> #[trigger] in_place(ranges, i)
        },
{
    lemma_first_error(ranges, 0);
    assert forall|i: int| 0 <= i < ranges.len() implies (#[trigger] in_place(ranges, i)) == (
    error_at(ranges, i) is None) by {
        if i > 0 {
            lemma_tier_order(ranges[i].tier, ranges[i - 1].tier);
        }
    }
    if ranges_error(ranges) is None {
        assert forall|i: int| 0 <= i < ranges.len() implies #[trigger] in_place(ranges, i) by {
            assert(error_at(ranges, i) is None);
        }
    } else if ranges.len() > 0 && ranges[0].start == 0 {
        let error = ranges_error(ranges)->0;
        let i = choose|i: int|
            {
                &&& 0 <= i < ranges.len()
                &&& #[trigger] error_at(ranges, i) == Some(error)
                &&& forall|k: int| 0 <= k < i ==> #[trigger] error_at(ranges, k) is None
            };
        assert(!in_place(ranges, i));
    }
}

/// What is told of ranges that are refused is true of the first of them that is out of place.
pub proof fn law_faults_are_told_as_they_are(ranges: Seq<CacheControlRange>)
    ensures
        ranges_error(ranges) == Some(CacheControlError::NoRanges) <==> ranges.len() == 0,
        ranges_error(ranges) == Some(CacheControlError::NotFromZero) <==> ranges.len() > 0
            && ranges[0].start > 0,
        ranges_error(ranges) matches Some(error) ==> ranges.len() > 0 && ranges[0].start == 0
            ==> exists|i: int|
            {
                &&& 0 <= i < ranges.len()
                &&& forall|k: int| 0 <= k < i ==> #[trigger] in_place(ranges, k)
                &&& !#[trigger] in_place(ranges, i)
                &&& match error {
                    CacheControlError::VoidRange => ranges[i].end matches Some(end) && end
                        <= ranges[i].start,
                    CacheControlError::LastNotOpen => i == ranges.len() - 1 && ranges[i].end
                        is Some,
                    CacheControlError::OpenBeforeLast => i < ranges.len() - 1 && ranges[i].end
                        is None,
                    CacheControlError::NotAdjacent => i > 0 && ranges[i - 1].end != Some(
                        ranges[i].start,
                    ),
                    CacheControlError::TierRises => i > 0 && !no_higher(
                        ranges[i].tier,
                        ranges[i - 1].tier,
                    ),
                    _ => false,
                }
            },
{
    lemma_first_error(ranges, 0);
    if ranges_error(ranges) is Some && ranges.len() > 0 && ranges[0].start == 0 {
        let error = ranges_error(ranges)->0;
        let i = choose|i: int|
            {
                &&& 0 <= i < ranges.len()
                &&& #[trigger] error_at(ranges, i) == Some(error)
                &&& forall|k: int| 0 <= k < i ==> #[trigger] error_at(ranges, k) is None
            };
        if i > 0 {
            lemma_tier_order(ranges[i].tier, ranges[i - 1].tier);
        }
        assert forall|k: int| 0 <= k < i implies #[trigger] in_place(ranges, k) by {
            assert(error_at(ranges, k) is None);
            if k > 0 {
                lemma_tier_order(ranges[k].tier, ranges[k - 1].tier);
            }
        }
        assert(!in_place(ranges, i));
    }
}

/// Extensions are accepted exactly if their ranges are, where they have any, and what was
/// generated is worth no more than the end of the prompt: the tier of the last range, or the
/// standard one where there is none.
pub proof fn law_answers_are_worth_no_more_than_the_prompt(ext: BasetenExt)
    ensures
        ext.error() is None <==> {
            &&& ext.cache_control matches Some(ranges) ==> ranges_error(ranges@) is None
            &&& ext.decode_cache_control matches Some(decode) ==> no_higher(
                decode.tier,
                match ext.cache_control {
                    Some(ranges) => ranges@[ranges@.len() - 1].tier,
                    None => CacheControlTier::Standard,
                },
            )
        },
        ext.cache_control matches Some(ranges) ==> ranges_error(ranges@) is Some ==> ext.error()
            == ranges_error(ranges@),
        ext.error() is Some && (ext.cache_control matches Some(ranges) ==> ranges_error(ranges@)
            is None) ==> ext.error() == Some(CacheControlError::DecodeTierTooHigh),
{
    if let Some(decode) = ext.decode_cache_control {
        if let Some(ranges) = ext.cache_control {
            if ranges@.len() > 0 {
                lemma_tier_order(decode.tier, ranges@[ranges@.len() - 1].tier);
            }
        } else {
            lemma_tier_order(decode.tier, CacheControlTier::Standard);
        }
    }
}

} // verus!
