use vstd::prelude::*;

use crate::digits::{dec_digits, spec_parse_u64, parse_u64_range, lemma_dec_digits_ok};
use crate::json::{
    Json, json_members, spec_obj_get, spec_get, spec_as_i64, spec_as_arr, spec_as_str,
    lemma_obj_get_at,
};

verus! {

// ---------------------------------------------------------------------------
// List selection
// ---------------------------------------------------------------------------

/// Only the "Watching" and "Completed" lists are reported; every other
/// list in a response is dropped.
pub open spec fn selected_name(name: Seq<char>) -> bool {
    name == "Watching"@ || name == "Completed"@
}

/// Decides whether a tracking list with the given name is part of the
/// report.
pub fn list_selected(name: &String) -> (r: bool)
    ensures
        r == selected_name(name@),
{
    let watching: String = String::from_str("Watching");
    let completed: String = String::from_str("Completed");
    *name == watching || *name == completed
}

/// A list named "Paused" is never selected, so it can reach neither the
/// report files nor the console summary.
pub proof fn lemma_paused_list_dropped()
    ensures
        !selected_name("Paused"@),
{
    reveal_strlit("Paused");
    reveal_strlit("Watching");
    reveal_strlit("Completed");
    assert("Paused"@.len() == 6 && "Watching"@.len() == 8 && "Completed"@.len() == 9);
}

// ---------------------------------------------------------------------------
// Navigating the list-collection response
// ---------------------------------------------------------------------------

/// The array of lists inside a list-collection response:
/// `data.MediaListCollection.lists`. `None` when that structure is
/// absent, which is fatal for the run.
pub open spec fn spec_lists(resp: Json) -> Option<Seq<Json>> {
    match spec_get(resp, "data"@) {
        Some(d) => match spec_get(d, "MediaListCollection"@) {
            Some(c) => match spec_get(c, "lists"@) {
                Some(l) => spec_as_arr(l),
                None => None,
            },
            None => None,
        },
        None => None,
    }
}

/// Pulls the array of lists out of a list-collection response.
pub fn extract_lists<'a>(resp: &'a Json) -> (r: Option<&'a Vec<Json>>)
    ensures
        match r {
            Some(a) => spec_lists(*resp) == Some(a@),
            None => spec_lists(*resp) == None::<Seq<Json>>,
        },
{
    match resp.get("data") {
        Some(d) => match d.get("MediaListCollection") {
            Some(c) => match c.get("lists") {
                Some(l) => l.as_array(),
                None => None,
            },
            None => None,
        },
        None => None,
    }
}

/// The name of a list, when it carries one as a string.
pub open spec fn spec_list_name(list: Json) -> Option<Seq<char>> {
    match spec_get(list, "name"@) {
        Some(v) => spec_as_str(v),
        None => None,
    }
}

pub fn list_name<'a>(list: &'a Json) -> (r: Option<&'a String>)
    ensures
        match r {
            Some(s) => spec_list_name(*list) == Some(s@),
            None => spec_list_name(*list) == None::<Seq<char>>,
        },
{
    match list.get("name") {
        Some(v) => v.as_string(),
        None => None,
    }
}

// ---------------------------------------------------------------------------
// Per-entry extraction (lenient parse)
// ---------------------------------------------------------------------------

pub open spec fn entry_id(e: Json) -> Option<i64> {
    match spec_get(e, "mediaId"@) {
        Some(v) => spec_as_i64(v),
        None => None,
    }
}

pub open spec fn entry_score(e: Json) -> Option<i64> {
    match spec_get(e, "score"@) {
        Some(v) => spec_as_i64(v),
        None => None,
    }
}

/// An entry is well formed when both fields are present and integral;
/// any other entry is silently skipped.
pub open spec fn entry_ok(e: Json) -> bool {
    entry_id(e) is Some && entry_score(e) is Some
}

/// The media ids of the well-formed entries, in declared order.
pub open spec fn ids_of(es: Seq<Json>) -> Seq<i64>
    decreases es.len(),
{
    if es.len() == 0 {
        Seq::<i64>::empty()
    } else {
        ids_of(es.drop_last()) + if entry_ok(es.last()) {
            seq![entry_id(es.last()).unwrap()]
        } else {
            Seq::<i64>::empty()
        }
    }
}

/// The personal scores of the well-formed entries, in declared order.
pub open spec fn scores_of(es: Seq<Json>) -> Seq<i64>
    decreases es.len(),
{
    if es.len() == 0 {
        Seq::<i64>::empty()
    } else {
        scores_of(es.drop_last()) + if entry_ok(es.last()) {
            seq![entry_score(es.last()).unwrap()]
        } else {
            Seq::<i64>::empty()
        }
    }
}

/// The entries array of a list; empty when absent or not an array.
pub open spec fn list_entries(list: Json) -> Seq<Json> {
    match spec_get(list, "entries"@) {
        Some(v) => match spec_as_arr(v) {
            Some(a) => a,
            None => Seq::<Json>::empty(),
        },
        None => Seq::<Json>::empty(),
    }
}

/// Reads a list's entries array and returns the media ids and personal
/// scores of its well-formed entries, co-indexed and in declared order.
/// An entry missing either field, or carrying a non-integer there, is
/// skipped without error.
pub fn parse_entry_values(list_value: &Json) -> (r: (Vec<i64>, Vec<i64>))
    ensures
        r.0@ == ids_of(list_entries(*list_value)),
        r.1@ == scores_of(list_entries(*list_value)),
        r.0@.len() == r.1@.len(),
{
    let ghost es = list_entries(*list_value);
    let mut ids: Vec<i64> = Vec::new();
    let mut scores: Vec<i64> = Vec::new();
    let arr_opt: Option<&Vec<Json>> = match list_value.get("entries") {
        Some(v) => v.as_array(),
        None => None,
    };
    match arr_opt {
        None => {
            proof {
                assert(es =~= Seq::<Json>::empty());
            }
            (ids, scores)
        },
        Some(arr) => {
            let mut j: usize = 0;
            while j < arr.len()
                invariant
                    es == arr@,
                    j <= arr.len(),
                    ids@ == ids_of(es.take(j as int)),
                    scores@ == scores_of(es.take(j as int)),
                    ids@.len() == scores@.len(),
                decreases arr.len() - j,
            {
                let e = &arr[j];
                let ghost pre = es.take(j as int);
                let ghost cur = es.take(j + 1);
                proof {
                    assert(cur.drop_last() =~= pre);
                    assert(cur.last() == es[j as int]);
                }
                let id_opt: Option<i64> = match e.get("mediaId") {
                    Some(v) => v.as_i64(),
                    None => None,
                };
                let score_opt: Option<i64> = match e.get("score") {
                    Some(v) => v.as_i64(),
                    None => None,
                };
                if let (Some(id), Some(score)) = (id_opt, score_opt) {
                    assert(entry_ok(es[j as int]) && entry_id(es[j as int]) == Some(id)
                        && entry_score(es[j as int]) == Some(score));
                    ids.push(id);
                    scores.push(score);
                } else {
                    assert(!entry_ok(es[j as int]));
                }
                j = j + 1;
            }
            proof {
                assert(es.take(j as int) =~= es);
            }
            (ids, scores)
        },
    }
}

/// With every entry well formed, extraction keeps the length and the
/// declared order: position p of both outputs comes from entry p.
pub proof fn lemma_extract_keeps_order(es: Seq<Json>)
    requires
        forall|p: int| 0 <= p < es.len() ==> entry_ok(#[trigger] es[p]),
    ensures
        ids_of(es).len() == es.len(),
        scores_of(es).len() == es.len(),
        forall|p: int|
            0 <= p < es.len() ==> ids_of(es)[p] == entry_id(#[trigger] es[p]).unwrap()
                && scores_of(es)[p] == entry_score(es[p]).unwrap(),
    decreases es.len(),
{
    if es.len() > 0 {
        let pre = es.drop_last();
        assert(forall|p: int| 0 <= p < pre.len() ==> pre[p] == #[trigger] es[p]);
        lemma_extract_keeps_order(pre);
        assert(entry_ok(es.last()));
        assert(forall|p: int|
            0 <= p < es.len() ==> ids_of(es)[p] == entry_id(#[trigger] es[p]).unwrap()
                && scores_of(es)[p] == entry_score(es[p]).unwrap()) by {
            assert(forall|p: int| 0 <= p < pre.len() ==> ids_of(es)[p] == ids_of(pre)[p]
                && scores_of(es)[p] == #[trigger] scores_of(pre)[p]);
        }
    }
}

// ---------------------------------------------------------------------------
// Batched average-score extraction
// ---------------------------------------------------------------------------

/// The alias under which the batched query requests the score of the id
/// at position i: `query_{i}`.
pub open spec fn alias_seq(i: nat) -> Seq<char> {
    "query_"@ + dec_digits(i)
}

/// What a member key parses to when read as an alias: the prefix
/// `query_` followed by a canonical decimal index.
pub open spec fn spec_parse_alias(s: Seq<char>) -> Option<u64> {
    if s.len() > 6 && s.take(6) == "query_"@ {
        spec_parse_u64(s.skip(6))
    } else {
        None
    }
}

/// Every alias the query builder writes parses back to its index.
pub proof fn lemma_alias_roundtrip(i: u64)
    ensures
        spec_parse_alias(alias_seq(i as nat)) == Some(i),
{
    reveal_strlit("query_");
    lemma_dec_digits_ok(i as nat);
    let s = alias_seq(i as nat);
    assert(s.len() > 6);
    assert(s.take(6) =~= "query_"@);
    assert(s.skip(6) =~= dec_digits(i as nat));
    crate::digits::lemma_parse_dec_roundtrip(i);
}

/// Parses a member key as a batch alias.
pub fn parse_alias(s: &str) -> (r: Option<u64>)
    ensures
        r == spec_parse_alias(s@),
{
    proof {
        reveal_strlit("query_");
    }
    let n = s.unicode_len();
    if n <= 6 {
        return None;
    }
    let prefix_ok = s.get_char(0) == 'q' && s.get_char(1) == 'u' && s.get_char(2) == 'e'
        && s.get_char(3) == 'r' && s.get_char(4) == 'y' && s.get_char(5) == '_';
    if !prefix_ok {
        proof {
            if s@.take(6) == "query_"@ {
                assert(s@[0] == s@.take(6)[0] && s@[1] == s@.take(6)[1] && s@[2] == s@.take(6)[2]
                    && s@[3] == s@.take(6)[3] && s@[4] == s@.take(6)[4] && s@[5] == s@.take(6)[5]);
                assert(false);
            }
        }
        return None;
    }
    proof {
        assert(s@.take(6) =~= "query_"@);
    }
    let r = parse_u64_range(s, 6, n);
    proof {
        assert(s@.subrange(6, n as int) =~= s@.skip(6));
    }
    r
}

/// The global average score carried by one aliased sub-object: the
/// `averageScore` field when present and integral, 0 otherwise.
pub open spec fn member_score(v: Json) -> i64 {
    match spec_get(v, "averageScore"@) {
        Some(s) => match spec_as_i64(s) {
            Some(x) => x,
            None => 0,
        },
        None => 0,
    }
}

pub fn score_of_member(v: &Json) -> (r: i64)
    ensures
        r == member_score(*v),
{
    match v.get("averageScore") {
        Some(s) => match s.as_i64() {
            Some(x) => x,
            None => 0,
        },
        None => 0,
    }
}

/// How many members carry the alias of index i as their key.
pub open spec fn alias_count(ms: Seq<(String, Json)>, i: nat) -> nat
    decreases ms.len(),
{
    if ms.len() == 0 {
        0
    } else {
        (if ms[0].0@ == alias_seq(i) {
            1nat
        } else {
            0nat
        }) + alias_count(ms.drop_first(), i)
    }
}

pub proof fn lemma_alias_count_zero(ms: Seq<(String, Json)>, i: nat)
    requires
        forall|q: int| 0 <= q < ms.len() ==> (#[trigger] ms[q]).0@ != alias_seq(i),
    ensures
        alias_count(ms, i) == 0,
    decreases ms.len(),
{
    if ms.len() > 0 {
        assert(forall|q: int|
            0 <= q < ms.drop_first().len() ==> #[trigger] ms.drop_first()[q] == ms[q + 1]);
        lemma_alias_count_zero(ms.drop_first(), i);
    }
}

/// A well-formed batched response with k members: every key is the
/// alias of some index below k, and each of the k aliases occurs
/// exactly once. This is the shape the service owes for a batch of k
/// aliased sub-queries, in whatever key order it chooses.
pub open spec fn batched_wf(ms: Seq<(String, Json)>) -> bool {
    &&& forall|p: int|
        0 <= p < ms.len() ==> exists|i: nat| i < ms.len() && (#[trigger] ms[p]).0@ == alias_seq(i)
    &&& forall|i: nat| i < ms.len() ==> #[trigger] alias_count(ms, i) == 1
}

/// The score of the member keyed by the alias of index i; 0 when absent.
pub open spec fn alias_member_score(ms: Seq<(String, Json)>, i: nat) -> i64 {
    match spec_obj_get(ms, alias_seq(i)) {
        Some(v) => member_score(v),
        None => 0,
    }
}

/// Reads a batched average-score response object and returns the score
/// sequence restored to request order: the member keyed `query_{i}`
/// contributes position i, however the response ordered its keys. A
/// member whose key is no alias, or whose index has no place in a
/// complete batch of this size, is dropped; a member without an
/// integral `averageScore` contributes 0.
pub fn extract_batched_averages(data: &Json) -> (r: Vec<i64>)
    ensures
        r@.len() <= json_members(*data).len(),
        batched_wf(json_members(*data)) ==> r@.len() == json_members(*data).len(),
        batched_wf(json_members(*data)) ==> forall|i: int|
            0 <= i < r@.len() ==> r@[i] == alias_member_score(json_members(*data), i as nat),
{
    let ghost msv = json_members(*data);
    let mut out: Vec<i64> = Vec::new();
    let ms: &Vec<(String, Json)> = match data {
        Json::Obj(m) => m,
        _ => {
            return out;
        },
    };
    let n = ms.len();
    let mut i: usize = 0;
    while i < n
        invariant
            msv == ms@,
            json_members(*data) == msv,
            n == ms.len(),
            i <= n,
            out@.len() <= i,
            batched_wf(msv) ==> out@.len() == i,
            batched_wf(msv) ==> forall|j: int|
                0 <= j < out@.len() ==> out@[j] == alias_member_score(msv, j as nat),
        decreases n - i,
    {
        let mut hit: Option<usize> = None;
        let mut p: usize = 0;
        while p < n && hit.is_none()
            invariant
                msv == ms@,
                n == ms.len(),
                i < n,
                p <= n,
                match hit {
                    Some(q) => q < n && spec_parse_alias(msv[q as int].0@) == Some(i as u64)
                        && forall|t: int| 0 <= t < q ==> (#[trigger] msv[t]).0@ != alias_seq(
                        i as nat,
                    ),
                    None => forall|t: int| 0 <= t < p ==> (#[trigger] msv[t]).0@ != alias_seq(
                        i as nat,
                    ),
                },
            decreases n - p, (if hit.is_none() { 1int } else { 0int }),
        {
            match parse_alias(ms[p].0.as_str()) {
                Some(j) => {
                    if j == i as u64 {
                        hit = Some(p);
                    } else {
                        proof {
                            if msv[p as int].0@ == alias_seq(i as nat) {
                                lemma_alias_roundtrip(i as u64);
                            }
                        }
                        p = p + 1;
                    }
                },
                None => {
                    proof {
                        if msv[p as int].0@ == alias_seq(i as nat) {
                            lemma_alias_roundtrip(i as u64);
                        }
                    }
                    p = p + 1;
                },
            }
        }
        match hit {
            Some(q) => {
                let score = score_of_member(&ms[q].1);
                proof {
                    if batched_wf(msv) {
                        let j = choose|j: nat|
                            j < msv.len() && msv[q as int].0@ == alias_seq(j);
                        lemma_alias_roundtrip(j as u64);
                        assert(spec_parse_alias(msv[q as int].0@) == Some(j as u64));
                        assert(j == i as nat);
                        lemma_obj_get_at(msv, alias_seq(i as nat), q as int);
                        assert(alias_member_score(msv, i as nat) == member_score(
                            msv[q as int].1,
                        ));
                    }
                }
                out.push(score);
            },
            None => {
                proof {
                    if batched_wf(msv) {
                        assert(alias_count(msv, i as nat) == 1);
                        lemma_alias_count_zero(msv, i as nat);
                        assert(false);
                    }
                }
            },
        }
        i = i + 1;
    }
    out
}

/// Reads a full batched average-score response: the scores come from
/// its `data` object. `None` when the response has no object there,
/// which abandons the affected list.
pub fn avg_scores_from_response(resp: &Json) -> (r: Option<Vec<i64>>)
    ensures
        match r {
            Some(v) => ({
                let d = spec_get(*resp, "data"@);
                &&& d is Some
                &&& d.unwrap() is Obj
                &&& v@.len() <= json_members(d.unwrap()).len()
                &&& batched_wf(json_members(d.unwrap())) ==> v@.len() == json_members(
                    d.unwrap(),
                ).len()
                &&& batched_wf(json_members(d.unwrap())) ==> forall|i: int|
                    0 <= i < v@.len() ==> v@[i] == alias_member_score(
                        json_members(d.unwrap()),
                        i as nat,
                    )
            }),
            None => spec_get(*resp, "data"@) is None || !(spec_get(*resp, "data"@).unwrap()
                is Obj),
        },
{
    match resp.get("data") {
        Some(d) => match d {
            Json::Obj(_) => Some(extract_batched_averages(d)),
            _ => None,
        },
        None => None,
    }
}

} // verus!
