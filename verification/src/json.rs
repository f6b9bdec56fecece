//! JSON documents as plain values.
//!
//! Model APIs speak JSON. What the library reads out of a reply, and what it
//! builds to send, is held in `Json`: a tree of plain values whose meaning the
//! contracts can state. Turning text into a `Json` and back is the JSON
//! library's work and happens at the edge, where the bytes arrive and leave.
use vstd::prelude::*;
use crate::text::{parse_u64_spec, parse_u64_digits, str_eq, copy_str};

verus! {

/// A JSON value. A number is kept as the text the JSON library prints for
/// it; an object keeps its members in order, each key once.
#[derive(Debug, PartialEq)]
pub enum Json {
    Null,
    Bool(bool),
    Num(String),
    Str(String),
    Arr(Vec<Json>),
    Obj(Vec<(String, Json)>),
}

pub ghost enum JsonV {
    Null,
    Bool(bool),
    Num(Seq<char>),
    Str(Seq<char>),
    Arr(Seq<JsonV>),
    Obj(Seq<(Seq<char>, JsonV)>),
}

impl Json {
    pub open spec fn to_v(&self) -> JsonV
        decreases self,
    {
        match self {
            Json::Null => JsonV::Null,
            Json::Bool(b) => JsonV::Bool(*b),
            Json::Num(n) => JsonV::Num(n@),
            Json::Str(s) => JsonV::Str(s@),
            Json::Arr(v) => JsonV::Arr(
                Seq::new(
                    v.len() as nat,
                    |i: int|
                        if 0 <= i < v.len() {
                            v@[i].to_v()
                        } else {
                            JsonV::Null
                        },
                ),
            ),
            Json::Obj(v) => JsonV::Obj(
                Seq::new(
                    v.len() as nat,
                    |i: int|
                        if 0 <= i < v.len() {
                            (v@[i].0@, v@[i].1.to_v())
                        } else {
                            (Seq::empty(), JsonV::Null)
                        },
                ),
            ),
        }
    }
}

impl View for Json {
    type V = JsonV;

    open spec fn view(&self) -> JsonV {
        self.to_v()
    }
}

/// The value of the first member named `key`.
pub open spec fn member(fields: Seq<(Seq<char>, JsonV)>, key: Seq<char>) -> Option<JsonV>
    decreases fields.len(),
{
    if fields.len() == 0 {
        None
    } else if fields[0].0 == key {
        Some(fields[0].1)
    } else {
        member(fields.drop_first(), key)
    }
}

/// `value.get(key)`: a member of an object; nothing for anything else.
pub open spec fn get_v(j: JsonV, key: Seq<char>) -> Option<JsonV> {
    match j {
        JsonV::Obj(fields) => member(fields, key),
        _ => None,
    }
}

/// `value.as_str()`.
pub open spec fn str_v(j: JsonV) -> Option<Seq<char>> {
    match j {
        JsonV::Str(s) => Some(s),
        _ => None,
    }
}

/// `value.as_bool()`.
pub open spec fn bool_v(j: JsonV) -> Option<bool> {
    match j {
        JsonV::Bool(b) => Some(b),
        _ => None,
    }
}

/// `value.as_u64()`: a number written as plain digits, within `u64`.
pub open spec fn u64_v(j: JsonV) -> Option<u64> {
    match j {
        JsonV::Num(n) => match parse_u64_spec(n) {
            Some(v) => Some(v as u64),
            None => None,
        },
        _ => None,
    }
}

/// `value.as_array()`.
pub open spec fn arr_v(j: JsonV) -> Option<Seq<JsonV>> {
    match j {
        JsonV::Arr(xs) => Some(xs),
        _ => None,
    }
}

/// A member's text, when it is there and is a string.
pub open spec fn get_str(j: JsonV, key: Seq<char>) -> Option<Seq<char>> {
    match get_v(j, key) {
        Some(v) => str_v(v),
        None => None,
    }
}

/// A member's elements, when it is there and is an array.
pub open spec fn get_arr(j: JsonV, key: Seq<char>) -> Option<Seq<JsonV>> {
    match get_v(j, key) {
        Some(v) => arr_v(v),
        None => None,
    }
}

/// A member's number, when it is there and is a `u64`.
pub open spec fn get_u64(j: JsonV, key: Seq<char>) -> Option<u64> {
    match get_v(j, key) {
        Some(v) => u64_v(v),
        None => None,
    }
}

/// The keys of an object, in order.
pub open spec fn keys_v(fields: Seq<(Seq<char>, JsonV)>) -> Seq<Seq<char>> {
    fields.map_values(|f: (Seq<char>, JsonV)| f.0)
}

pub open spec fn is_obj(j: JsonV) -> bool {
    j is Obj
}

impl Json {
    /// A member of an object.
    pub fn get(&self, key: &str) -> (r: Option<&Json>)
        ensures
            match r {
                Some(v) => get_v(self@, key@) == Some(v@),
                None => get_v(self@, key@) is None,
            },
    {
        match self {
            Json::Obj(fields) => {
                let ghost fv: Seq<(Seq<char>, JsonV)> = match self@ {
                    JsonV::Obj(f) => f,
                    _ => seq![],
                };
                assert(fv.len() == fields.len());
                assert(fv.subrange(0, fv.len() as int) =~= fv);
                let mut i: usize = 0;
                while i < fields.len()
                    invariant
                        i <= fields.len(),
                        fv.len() == fields.len(),
                        self@ == JsonV::Obj(fv),
                        forall|k: int| 0 <= k < fv.len() ==> #[trigger] fv[k] == (fields@[k].0@, fields@[k].1@),
                        get_v(self@, key@) == member(fv.subrange(i as int, fv.len() as int), key@),
                    decreases fields.len() - i,
                {
                    assert(fv.subrange(i as int, fv.len() as int)[0] == fv[i as int]);
                    assert(fv[i as int] == (fields@[i as int].0@, fields@[i as int].1@));
                    if str_eq(fields[i].0.as_str(), key) {
                        return Some(&fields[i].1);
                    }
                    assert(fv.subrange(i as int, fv.len() as int).drop_first() =~= fv.subrange(i + 1, fv.len() as int));
                    i = i + 1;
                }
                None
            },
            _ => None,
        }
    }

    /// The text of a string.
    pub fn as_str(&self) -> (r: Option<&str>)
        ensures
            match r {
                Some(s) => str_v(self@) == Some(s@),
                None => str_v(self@) is None,
            },
    {
        match self {
            Json::Str(s) => Some(s.as_str()),
            _ => None,
        }
    }

    /// The elements of an array.
    pub fn as_array(&self) -> (r: Option<&Vec<Json>>)
        ensures
            match r {
                Some(v) => arr_v(self@) == Some(v@.map_values(|x: Json| x@)),
                None => arr_v(self@) is None,
            },
    {
        match self {
            Json::Arr(v) => {
                assert(arr_v(self@).unwrap() =~= v@.map_values(|x: Json| x@));
                Some(v)
            },
            _ => None,
        }
    }

    /// A number that is a whole number within `u64`.
    pub fn as_u64(&self) -> (r: Option<u64>)
        ensures
            r == u64_v(self@),
    {
        match self {
            Json::Num(n) => parse_u64_digits(n.as_str()),
            _ => None,
        }
    }

    pub fn is_object(&self) -> (r: bool)
        ensures
            r == is_obj(self@),
    {
        match self {
            Json::Obj(_) => true,
            _ => false,
        }
    }

    /// The value of a boolean.
    pub fn as_bool(&self) -> (r: Option<bool>)
        ensures
            r == bool_v(self@),
    {
        match self {
            Json::Bool(b) => Some(*b),
            _ => None,
        }
    }

    pub fn is_null(&self) -> (r: bool)
        ensures
            r == (self@ is Null),
    {
        match self {
            Json::Null => true,
            _ => false,
        }
    }

    /// A copy, equal in every part.
    pub fn copy(&self) -> (r: Json)
        ensures
            r@ == self@,
        decreases self,
    {
        match self {
            Json::Null => Json::Null,
            Json::Bool(b) => Json::Bool(*b),
            Json::Num(n) => Json::Num(copy_str(n.as_str())),
            Json::Str(s) => Json::Str(copy_str(s.as_str())),
            Json::Arr(v) => {
                let mut out: Vec<Json> = Vec::new();
                let mut i: usize = 0;
                while i < v.len()
                    invariant
                        i <= v.len(),
                        out.len() == i,
                        forall|k: int| 0 <= k < i ==> (#[trigger] out@[k])@ == v@[k]@,
                        *self == Json::Arr(*v),
                    decreases v.len() - i,
                {
                    proof {
                        assert(decreases_to!(*self => self->Arr_0));
                        assert(decreases_to!(*v => v[i as int]));
                    }
                    out.push(v[i].copy());
                    i = i + 1;
                }
                let r = Json::Arr(out);
                assert(r@ =~= self@) by {
                    if let JsonV::Arr(a) = r@ {
                        if let JsonV::Arr(b) = self@ {
                            assert(a =~= b);
                        }
                    }
                }
                r
            },
            Json::Obj(v) => {
                let mut out: Vec<(String, Json)> = Vec::new();
                let mut i: usize = 0;
                while i < v.len()
                    invariant
                        i <= v.len(),
                        out.len() == i,
                        forall|k: int| 0 <= k < i ==> (#[trigger] out@[k]).0@ == v@[k].0@ && out@[k].1@ == v@[k].1@,
                        *self == Json::Obj(*v),
                    decreases v.len() - i,
                {
                    proof {
                        assert(decreases_to!(*self => self->Obj_0));
                        assert(decreases_to!(*v => v[i as int]));
                        assert(decreases_to!(v[i as int] => v[i as int].1));
                    }
                    out.push((copy_str(v[i].0.as_str()), v[i].1.copy()));
                    i = i + 1;
                }
                let r = Json::Obj(out);
                assert(r@ =~= self@) by {
                    if let JsonV::Obj(a) = r@ {
                        if let JsonV::Obj(b) = self@ {
                            assert(a =~= b);
                        }
                    }
                }
                r
            },
        }
    }
}

/// The keys of an object, in order; none for anything else.
pub fn object_keys(j: &Json) -> (r: Vec<String>)
    ensures
        match j@ {
            JsonV::Obj(fields) => crate::order::views(r@) == keys_v(fields),
            _ => r@.len() == 0,
        },
{
    let mut out: Vec<String> = Vec::new();
    match j {
        Json::Obj(fields) => {
            let mut i: usize = 0;
            while i < fields.len()
                invariant
                    i <= fields.len(),
                    out.len() == i,
                    forall|k: int| 0 <= k < i ==> (#[trigger] out@[k])@ == fields@[k].0@,
                decreases fields.len() - i,
            {
                out.push(copy_str(fields[i].0.as_str()));
                i = i + 1;
            }
            proof {
                if let JsonV::Obj(f) = j@ {
                    assert(crate::order::views(out@) =~= keys_v(f));
                }
            }
        },
        _ => {},
    }
    out
}

pub open spec fn pairs_view(v: Seq<(String, Json)>) -> Seq<(Seq<char>, JsonV)> {
    v.map_values(|f: (String, Json)| (f.0@, f.1@))
}

pub open spec fn jsons_view(v: Seq<Json>) -> Seq<JsonV> {
    v.map_values(|x: Json| x@)
}

/// An object of these members, in this order.
pub fn obj_from(fields: Vec<(String, Json)>) -> (r: Json)
    ensures
        r@ == JsonV::Obj(pairs_view(fields@)),
{
    let r = Json::Obj(fields);
    proof {
        if let JsonV::Obj(a) = r@ {
            assert(a =~= pairs_view(fields@));
        }
    }
    r
}

/// An array of these elements, in this order.
pub fn arr_from(items: Vec<Json>) -> (r: Json)
    ensures
        r@ == JsonV::Arr(jsons_view(items@)),
{
    let r = Json::Arr(items);
    proof {
        if let JsonV::Arr(a) = r@ {
            assert(a =~= jsons_view(items@));
        }
    }
    r
}

pub fn push_field(fields: &mut Vec<(String, Json)>, k: &str, v: Json)
    ensures
        pairs_view(final(fields)@) == pairs_view(old(fields)@).push((k@, v@)),
{
    let ghost before = fields@;
    let ghost vv = v@;
    fields.push((copy_str(k), v));
    assert(pairs_view(fields@) =~= pairs_view(before).push((k@, vv)));
}

pub fn push_item(items: &mut Vec<Json>, v: Json)
    ensures
        jsons_view(final(items)@) == jsons_view(old(items)@).push(v@),
{
    let ghost before = items@;
    let ghost vv = v@;
    items.push(v);
    assert(jsons_view(items@) =~= jsons_view(before).push(vv));
}

pub fn jstr(s: &str) -> (r: Json)
    ensures
        r@ == JsonV::Str(s@),
{
    Json::Str(copy_str(s))
}

} // verus!
