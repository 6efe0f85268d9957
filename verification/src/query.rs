use vstd::prelude::*;

use crate::digits::{dec_digits, dec_int, u64_to_string, i64_to_string};
use crate::extract::alias_seq;
use crate::json::{Json, json_members};

verus! {

/// The fixed document of the list-collection query: both variables are
/// passed through as caller-provided strings.
pub open spec fn list_query_doc() -> Seq<char> {
    "query ($username: String, $media: MediaType) {\n  MediaListCollection (userName: $username, type: $media) {\n    lists {\n        name\n        entries {\n            mediaId,\n            score\n        }\n    }\n  }\n}\n"@
}

pub fn user_media_query_document() -> (r: &'static str)
    ensures
        r@ == list_query_doc(),
{
    "query ($username: String, $media: MediaType) {\n  MediaListCollection (userName: $username, type: $media) {\n    lists {\n        name\n        entries {\n            mediaId,\n            score\n        }\n    }\n  }\n}\n"
}

/// The alias under which position i of the id sequence is requested.
pub fn alias_string(i: u64) -> (s: String)
    ensures
        s@ == alias_seq(i as nat),
{
    let mut s = String::from_str("query_");
    let digits = u64_to_string(i);
    s.append(digits.as_str());
    s
}

/// One aliased sub-query of the batched document: requests the global
/// average score of one media id under the alias of its position.
pub open spec fn media_field_block(i: nat, id: int) -> Seq<char> {
    "\n    "@ + alias_seq(i) + ": Media (id: "@ + dec_int(id)
        + ", type: $media) {\n        averageScore\n    }\n"@
}

/// The concatenation of the aliased sub-queries for every id, in
/// position order.
pub open spec fn media_fields(ids: Seq<i64>) -> Seq<char>
    decreases ids.len(),
{
    if ids.len() == 0 {
        Seq::<char>::empty()
    } else {
        media_fields(ids.drop_last()) + media_field_block((ids.len() - 1) as nat, ids.last() as int)
    }
}

/// The full batched average-score document: one aliased sub-query per
/// id, fetched in a single round trip under one `$media` variable. An
/// empty id sequence yields a syntactically empty batch.
pub open spec fn batch_query_doc(ids: Seq<i64>) -> Seq<char> {
    "query ($media: MediaType) {"@ + media_fields(ids) + "\n}\n"@
}

/// Builds the batched average-score document for the given ids.
pub fn build_batch_query_doc(ids: &Vec<i64>) -> (s: String)
    ensures
        s@ == batch_query_doc(ids@),
{
    let mut s = String::from_str("query ($media: MediaType) {");
    let ghost head = "query ($media: MediaType) {"@;
    let mut i: usize = 0;
    while i < ids.len()
        invariant
            i <= ids.len(),
            s@ == head + media_fields(ids@.take(i as int)),
        decreases ids.len() - i,
    {
        let ghost pre = ids@.take(i as int);
        let ghost cur = ids@.take(i + 1);
        proof {
            assert(cur.drop_last() =~= pre);
            assert(cur.last() == ids@[i as int]);
        }
        s.append("\n    ");
        let alias = alias_string(i as u64);
        s.append(alias.as_str());
        s.append(": Media (id: ");
        let id_text = i64_to_string(ids[i]);
        s.append(id_text.as_str());
        s.append(", type: $media) {\n        averageScore\n    }\n");
        i = i + 1;
    }
    proof {
        assert(ids@.take(i as int) =~= ids@);
    }
    s.append("\n}\n");
    s
}

/// The value of a string member, for stating what a built payload holds.
pub open spec fn is_str_val(j: Json, s: Seq<char>) -> bool {
    match j {
        Json::Str(x) => x@ == s,
        _ => false,
    }
}

/// Builds the wire payload of the list-collection query: the fixed
/// document under "query" and the two caller-provided variables.
pub fn build_list_query_payload(username: &str, media: &str) -> (p: Json)
    ensures
        json_members(p).len() == 2,
        json_members(p)[0].0@ == "query"@,
        is_str_val(json_members(p)[0].1, list_query_doc()),
        json_members(p)[1].0@ == "variables"@,
        ({
            let vars = json_members(json_members(p)[1].1);
            &&& vars.len() == 2
            &&& vars[0].0@ == "username"@
            &&& is_str_val(vars[0].1, username@)
            &&& vars[1].0@ == "media"@
            &&& is_str_val(vars[1].1, media@)
        }),
{
    let doc = String::from_str(user_media_query_document());
    let vars = Json::Obj(
        vec![
            (String::from_str("username"), Json::Str(String::from_str(username))),
            (String::from_str("media"), Json::Str(String::from_str(media))),
        ],
    );
    Json::Obj(vec![(String::from_str("query"), Json::Str(doc)), (String::from_str("variables"), vars)])
}

/// Builds the wire payload of the batched average-score query for the
/// given ids, under the single `$media` variable.
pub fn build_batch_query_payload(media: &str, ids: &Vec<i64>) -> (p: Json)
    ensures
        json_members(p).len() == 2,
        json_members(p)[0].0@ == "query"@,
        is_str_val(json_members(p)[0].1, batch_query_doc(ids@)),
        json_members(p)[1].0@ == "variables"@,
        ({
            let vars = json_members(json_members(p)[1].1);
            &&& vars.len() == 1
            &&& vars[0].0@ == "media"@
            &&& is_str_val(vars[0].1, media@)
        }),
{
    let doc = build_batch_query_doc(ids);
    let vars = Json::Obj(vec![(String::from_str("media"), Json::Str(String::from_str(media)))]);
    Json::Obj(vec![(String::from_str("query"), Json::Str(doc)), (String::from_str("variables"), vars)])
}

} // verus!
