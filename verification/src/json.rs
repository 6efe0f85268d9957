use vstd::prelude::*;

verus! {

/// The pipeline's own model of a JSON document: exactly the shapes the
/// response extractor reads. Numbers are modelled as signed 64-bit
/// integers; any other number in a response carries no information the
/// pipeline uses and is represented as `Null` by the caller that builds
/// the value.
#[verifier::ext_equal]
pub enum Json {
    Null,
    Bool(bool),
    Int(i64),
    Str(String),
    Arr(Vec<Json>),
    Obj(Vec<(String, Json)>),
}

/// The members of an object; every other value has none.
pub open spec fn json_members(j: Json) -> Seq<(String, Json)> {
    match j {
        Json::Obj(m) => m@,
        _ => Seq::<(String, Json)>::empty(),
    }
}

/// First member with the given key, scanning in member order.
pub open spec fn spec_obj_get(ms: Seq<(String, Json)>, key: Seq<char>) -> Option<Json>
    decreases ms.len(),
{
    if ms.len() == 0 {
        None
    } else if ms[0].0@ == key {
        Some(ms[0].1)
    } else {
        spec_obj_get(ms.drop_first(), key)
    }
}

pub open spec fn spec_get(j: Json, key: Seq<char>) -> Option<Json> {
    spec_obj_get(json_members(j), key)
}

pub open spec fn spec_as_i64(j: Json) -> Option<i64> {
    match j {
        Json::Int(v) => Some(v),
        _ => None,
    }
}

pub open spec fn spec_as_arr(j: Json) -> Option<Seq<Json>> {
    match j {
        Json::Arr(a) => Some(a@),
        _ => None,
    }
}

pub open spec fn spec_as_str(j: Json) -> Option<Seq<char>> {
    match j {
        Json::Str(s) => Some(s@),
        _ => None,
    }
}

/// If member `p` holds the key and no earlier member does, the lookup
/// returns member `p`'s value.
pub proof fn lemma_obj_get_at(ms: Seq<(String, Json)>, key: Seq<char>, p: int)
    requires
        0 <= p < ms.len(),
        ms[p].0@ == key,
        forall|q: int| 0 <= q < p ==> #[trigger] ms[q].0@ != key,
    ensures
        spec_obj_get(ms, key) == Some(ms[p].1),
    decreases p,
{
    if p > 0 {
        lemma_obj_get_at(ms.drop_first(), key, p - 1);
    }
}

/// If no member holds the key, the lookup fails.
pub proof fn lemma_obj_get_none(ms: Seq<(String, Json)>, key: Seq<char>)
    requires
        forall|q: int| 0 <= q < ms.len() ==> #[trigger] ms[q].0@ != key,
    ensures
        spec_obj_get(ms, key) == None::<Json>,
    decreases ms.len(),
{
    if ms.len() > 0 {
        lemma_obj_get_none(ms.drop_first(), key);
    }
}

impl Json {
    /// Looks the key up among an object's members; `None` on any other
    /// value and on a missing key.
    pub fn get<'a>(&'a self, key: &str) -> (r: Option<&'a Json>)
        ensures
            match r {
                Some(v) => spec_get(*self, key@) == Some(*v),
                None => spec_get(*self, key@) == None::<Json>,
            },
    {
        match self {
            Json::Obj(ms) => {
                let key_string = String::from_str(key);
                let ghost msv = json_members(*self);
                let mut p: usize = 0;
                while p < ms.len()
                    invariant
                        msv == ms@,
                        json_members(*self) == msv,
                        p <= ms.len(),
                        key_string@ == key@,
                        forall|q: int| 0 <= q < p ==> #[trigger] msv[q].0@ != key@,
                    decreases ms.len() - p,
                {
                    if ms[p].0 == key_string {
                        proof {
                            lemma_obj_get_at(msv, key@, p as int);
                        }
                        return Some(&ms[p].1);
                    }
                    p = p + 1;
                }
                proof {
                    lemma_obj_get_none(msv, key@);
                }
                None
            },
            _ => None,
        }
    }

    pub fn as_i64(&self) -> (r: Option<i64>)
        ensures
            r == spec_as_i64(*self),
    {
        match self {
            Json::Int(v) => Some(*v),
            _ => None,
        }
    }

    pub fn as_array<'a>(&'a self) -> (r: Option<&'a Vec<Json>>)
        ensures
            match r {
                Some(a) => spec_as_arr(*self) == Some(a@),
                None => spec_as_arr(*self) == None::<Seq<Json>>,
            },
    {
        match self {
            Json::Arr(a) => Some(a),
            _ => None,
        }
    }

    pub fn as_string<'a>(&'a self) -> (r: Option<&'a String>)
        ensures
            match r {
                Some(s) => spec_as_str(*self) == Some(s@),
                None => spec_as_str(*self) == None::<Seq<char>>,
            },
    {
        match self {
            Json::Str(s) => Some(s),
            _ => None,
        }
    }
}

} // verus!
