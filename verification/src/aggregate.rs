use vstd::prelude::*;

verus! {

/// One report unit per tracking list: the list's name and, co-indexed by
/// position, the media ids, the user's personal scores and the global
/// average scores.
#[derive(Debug, Clone)]
pub struct AnilistScores {
    pub list_type: String,
    pub anilist_id: Vec<i64>,
    pub user_score: Vec<i64>,
    pub global_avg_score: Vec<i64>,
}

impl AnilistScores {
    /// The three columns are aligned 1:1 by position.
    pub open spec fn wf(self) -> bool {
        self.anilist_id@.len() == self.user_score@.len() && self.user_score@.len()
            == self.global_avg_score@.len()
    }
}

/// Joins a list's extracted (id, personal score) pairs with the batch of
/// global average scores, by position. The join has no id-matching
/// fallback: sequences of unequal length are rejected outright, never
/// truncated. It fails exactly on unequal lengths.
pub fn join(list_type: String, ids: Vec<i64>, scores: Vec<i64>, avgs: Vec<i64>) -> (r: Option<
    AnilistScores,
>)
    ensures
        r is Some <==> (ids@.len() == scores@.len() && scores@.len() == avgs@.len()),
        match r {
            Some(s) => s.wf() && s.list_type@ == list_type@ && s.anilist_id@ == ids@
                && s.user_score@ == scores@ && s.global_avg_score@ == avgs@,
            None => true,
        },
{
    if ids.len() == scores.len() && scores.len() == avgs.len() {
        Some(
            AnilistScores {
                list_type,
                anilist_id: ids,
                user_score: scores,
                global_avg_score: avgs,
            },
        )
    } else {
        None
    }
}

/// The sum of a score column, as an unbounded integer.
pub open spec fn spec_sum(s: Seq<i64>) -> int
    decreases s.len(),
{
    if s.len() == 0 {
        0
    } else {
        spec_sum(s.drop_last()) + s.last()
    }
}

/// Sums a score column. A 128-bit accumulator cannot overflow: a vector
/// holds fewer than 2^64 elements of magnitude at most 2^63.
pub fn sum_scores(v: &Vec<i64>) -> (s: i128)
    ensures
        s as int == spec_sum(v@),
{
    let mut acc: i128 = 0;
    let mut i: usize = 0;
    let n = v.len();
    proof {
        assert(n <= usize::MAX);
    }
    while i < v.len()
        invariant
            i <= v.len(),
            v@.len() <= 0xffff_ffff_ffff_ffff,
            acc as int == spec_sum(v@.take(i as int)),
            -(i as int) * 0x8000_0000_0000_0000 <= acc as int,
            acc as int <= (i as int) * 0x7fff_ffff_ffff_ffff,
        decreases v.len() - i,
    {
        let ghost pre = v@.take(i as int);
        let ghost cur = v@.take(i + 1);
        proof {
            assert(cur.drop_last() =~= pre);
            assert(cur.last() == v@[i as int]);
        }
        acc = acc + v[i] as i128;
        i = i + 1;
    }
    proof {
        assert(v@.take(i as int) =~= v@);
    }
    acc
}

/// The summary metric of one list: its name and the taste ratio as an
/// exact rational, the sum of the user's personal scores over the sum
/// of the global average scores. A ratio near 1 means the user's scale
/// centers on the global average.
pub struct TasteSummary {
    pub list_type: String,
    pub user_sum: i128,
    pub avg_sum: i128,
}

/// Computes the taste summary of a joined list. The ratio is undefined
/// when the global-average sum is 0; that case is signalled explicitly
/// with `None`, never coerced to a number.
pub fn compute_taste_ratio(s: &AnilistScores) -> (r: Option<TasteSummary>)
    ensures
        r is Some <==> spec_sum(s.global_avg_score@) != 0,
        match r {
            Some(t) => t.list_type@ == s.list_type@ && t.user_sum as int == spec_sum(
                s.user_score@,
            ) && t.avg_sum as int == spec_sum(s.global_avg_score@) && t.avg_sum != 0,
            None => true,
        },
{
    let user_sum = sum_scores(&s.user_score);
    let avg_sum = sum_scores(&s.global_avg_score);
    if avg_sum == 0 {
        None
    } else {
        Some(
            TasteSummary {
                list_type: String::from_str(s.list_type.as_str()),
                user_sum,
                avg_sum,
            },
        )
    }
}

} // verus!
