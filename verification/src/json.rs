//! A small JSON value model: what the tool layer reads from its callers and
//! writes back. Only the shapes the tools use are modelled; numbers are
//! signed 64-bit integers.

use vstd::prelude::*;
use crate::text::str_eq;

verus! {

broadcast use {vstd::std_specs::vec::group_vec_axioms, vstd::seq::group_seq_axioms};

/// Ghost view of a `JsonValue`.
#[verifier::ext_equal]
pub enum JsonView {
    Null,
    Bool(bool),
    Int(i64),
    Str(Seq<char>),
    Arr(Seq<JsonView>),
    Obj(Seq<(Seq<char>, JsonView)>),
}

/// A JSON value: null, a boolean, an integer, a string, an array, or an
/// object whose members keep their insertion order.
pub enum JsonValue {
    Null,
    Bool(bool),
    Int(i64),
    Str(String),
    Arr(Vec<JsonValue>),
    Obj(Vec<(String, JsonValue)>),
}

/// The ghost view of a `JsonValue`.
pub open spec fn json_view_of(v: JsonValue) -> JsonView
    decreases v,
{
    match v {
        JsonValue::Null => JsonView::Null,
        JsonValue::Bool(b) => JsonView::Bool(b),
        JsonValue::Int(n) => JsonView::Int(n),
        JsonValue::Str(s) => JsonView::Str(s@),
        JsonValue::Arr(items) => JsonView::Arr(json_views_of(items@)),
        JsonValue::Obj(entries) => JsonView::Obj(json_entries_of(entries@)),
    }
}

/// The ghost views of a sequence of values.
pub open spec fn json_views_of(s: Seq<JsonValue>) -> Seq<JsonView>
    decreases s,
{
    if s.len() == 0 {
        Seq::empty()
    } else {
        json_views_of(s.drop_last()).push(json_view_of(s.last()))
    }
}

/// The ghost views of a sequence of object members.
pub open spec fn json_entries_of(s: Seq<(String, JsonValue)>) -> Seq<(Seq<char>, JsonView)>
    decreases s,
{
    if s.len() == 0 {
        Seq::empty()
    } else {
        json_entries_of(s.drop_last()).push((s.last().0@, json_view_of(s.last().1)))
    }
}

pub proof fn lemma_json_views_index(s: Seq<JsonValue>, i: int)
    requires
        0 <= i < s.len(),
    ensures
        json_views_of(s).len() == s.len(),
        json_views_of(s)[i] == json_view_of(s[i]),
    decreases s,
{
    lemma_json_views_len(s);
    if i < s.len() - 1 {
        lemma_json_views_index(s.drop_last(), i);
        assert(s.drop_last()[i] == s[i]);
    } else {
        assert(s.last() == s[i]);
    }
}

pub proof fn lemma_json_views_len(s: Seq<JsonValue>)
    ensures
        json_views_of(s).len() == s.len(),
    decreases s,
{
    if s.len() > 0 {
        lemma_json_views_len(s.drop_last());
    }
}

pub proof fn lemma_json_entries_len(s: Seq<(String, JsonValue)>)
    ensures
        json_entries_of(s).len() == s.len(),
    decreases s,
{
    if s.len() > 0 {
        lemma_json_entries_len(s.drop_last());
    }
}

pub proof fn lemma_json_entries_index(s: Seq<(String, JsonValue)>, i: int)
    requires
        0 <= i < s.len(),
    ensures
        json_entries_of(s).len() == s.len(),
        json_entries_of(s)[i] == (s[i].0@, json_view_of(s[i].1)),
    decreases s,
{
    lemma_json_entries_len(s);
    if i < s.len() - 1 {
        lemma_json_entries_index(s.drop_last(), i);
        assert(s.drop_last()[i] == s[i]);
    } else {
        assert(s.last() == s[i]);
    }
}

impl JsonValue {
    /// The ghost view of this value.
    pub open spec fn jv(&self) -> JsonView {
        json_view_of(*self)
    }
}

pub broadcast proof fn lemma_json_views_push(s: Seq<JsonValue>, x: JsonValue)
    ensures
        #[trigger] json_views_of(s.push(x)) == json_views_of(s).push(json_view_of(x)),
{
    assert(s.push(x).drop_last() =~= s);
    assert(s.push(x).last() == x);
}

pub broadcast proof fn lemma_json_entries_push(s: Seq<(String, JsonValue)>, x: (String, JsonValue))
    ensures
        #[trigger] json_entries_of(s.push(x)) == json_entries_of(s).push(
            (x.0@, json_view_of(x.1)),
        ),
{
    assert(s.push(x).drop_last() =~= s);
    assert(s.push(x).last() == x);
}

/// The value of the first member named `key`, if any.
pub open spec fn obj_lookup(entries: Seq<(Seq<char>, JsonView)>, key: Seq<char>) -> Option<
    JsonView,
>
    decreases entries.len(),
{
    if entries.len() == 0 {
        None
    } else if entries[0].0 == key {
        Some(entries[0].1)
    } else {
        obj_lookup(entries.drop_first(), key)
    }
}

impl JsonView {
    /// Member lookup on objects; `None` on everything else.
    pub open spec fn get(self, key: Seq<char>) -> Option<JsonView> {
        match self {
            JsonView::Obj(entries) => obj_lookup(entries, key),
            _ => None,
        }
    }
}

impl JsonValue {
    /// Whether this value is an object.
    pub fn is_object(&self) -> (r: bool)
        ensures
            r == (self.jv() is Obj),
    {
        match self {
            JsonValue::Obj(_) => true,
            _ => false,
        }
    }

    /// The first member named `key`, when this is an object holding one.
    pub fn get(&self, key: &str) -> (r: Option<&JsonValue>)
        ensures
            match r {
                Some(v) => self.jv().get(key@) == Some(v.jv()),
                None => self.jv().get(key@) is None,
            },
    {
        match self {
            JsonValue::Obj(entries) => {
                let ghost eview = json_entries_of(entries@);
                proof {
                    lemma_json_entries_len(entries@);
                    assert(eview.subrange(0, eview.len() as int) =~= eview);
                }
                let mut i: usize = 0;
                while i < entries.len()
                    invariant
                        self is Obj,
                        self->Obj_0 == *entries,
                        i <= entries.len(),
                        eview == json_entries_of(entries@),
                        eview.len() == entries@.len(),
                        obj_lookup(eview, key@) == obj_lookup(
                            eview.subrange(i as int, eview.len() as int),
                            key@,
                        ),
                    decreases entries.len() - i,
                {
                    let ghost tail = eview.subrange(i as int, eview.len() as int);
                    proof {
                        lemma_json_entries_index(entries@, i as int);
                        assert(tail[0] == eview[i as int]);
                        assert(tail.drop_first() =~= eview.subrange(
                            i + 1,
                            eview.len() as int,
                        ));
                    }
                    if str_eq(entries[i].0.as_str(), key) {
                        proof {
                            assert(eview[i as int].0 == key@);
                            assert(obj_lookup(tail, key@) == Some(eview[i as int].1));
                            assert(self->Obj_0@ == entries@);
                            assert(json_view_of(*self) == JsonView::Obj(
                                json_entries_of(self->Obj_0@),
                            ));
                            assert(self.jv() == JsonView::Obj(eview));
                            assert(entries@[i as int].1.jv() == eview[i as int].1);
                        }
                        return Some(&entries[i].1);
                    }
                    proof {
                        assert(eview[i as int].0 != key@);
                        assert(obj_lookup(tail, key@) == obj_lookup(tail.drop_first(), key@));
                    }
                    i = i + 1;
                }
                proof {
                    assert(eview.subrange(i as int, eview.len() as int).len() == 0);
                }
                None
            },
            _ => None,
        }
    }

    /// The held string, when this is a string.
    pub fn as_str(&self) -> (r: Option<&String>)
        ensures
            match r {
                Some(s) => self.jv() == JsonView::Str(s@),
                None => !(self.jv() is Str),
            },
    {
        match self {
            JsonValue::Str(s) => Some(s),
            _ => None,
        }
    }

    /// The held integer, when this is an integer.
    pub fn as_i64(&self) -> (r: Option<i64>)
        ensures
            match r {
                Some(n) => self.jv() == JsonView::Int(n),
                None => !(self.jv() is Int),
            },
    {
        match self {
            JsonValue::Int(n) => Some(*n),
            _ => None,
        }
    }

    /// The held boolean, when this is a boolean.
    pub fn as_bool(&self) -> (r: Option<bool>)
        ensures
            match r {
                Some(b) => self.jv() == JsonView::Bool(b),
                None => !(self.jv() is Bool),
            },
    {
        match self {
            JsonValue::Bool(b) => Some(*b),
            _ => None,
        }
    }
}

} // verus!
