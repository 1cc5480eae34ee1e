//! The JSON values the engine works on.  Parsing and serialization are
//! serde_json's work, reached over two trusted functions; the tree itself —
//! nulls, booleans, numbers, strings, arrays and keyed members — is the
//! library's own, so that the mapper and the flattener are verified on it.
//! Numbers pass through as serde_json numbers, opaque and untouched.
//!
//! `JModel` is the mathematical shape of a tree and `jview` reads it off;
//! every contract over JSON speaks of models.

use vstd::prelude::*;

verus! {

#[verifier::external_type_specification]
#[verifier::external_body]
pub struct ExNumber(serde_json::Number);

#[verifier::external_type_specification]
#[verifier::external_body]
pub struct ExValue(serde_json::Value);

/// One JSON value.  Object members keep their order; a lookup takes the
/// first member with the key.
pub enum JVal {
    Null,
    Bool(bool),
    Num(serde_json::Number),
    Str(String),
    Arr(Vec<JVal>),
    Obj(Vec<(String, JVal)>),
}

/// The mathematical shape of a JSON value.
pub enum JModel {
    Null,
    Bool(bool),
    Num(serde_json::Number),
    Str(Seq<char>),
    Arr(Seq<JModel>),
    Obj(Seq<(Seq<char>, JModel)>),
}

/// The model of a value.
pub open spec fn jview(v: JVal) -> JModel
    decreases v,
{
    match v {
        JVal::Null => JModel::Null,
        JVal::Bool(b) => JModel::Bool(b),
        JVal::Num(n) => JModel::Num(n),
        JVal::Str(s) => JModel::Str(s@),
        JVal::Arr(xs) => JModel::Arr(jviews(xs@)),
        JVal::Obj(ms) => JModel::Obj(jview_members(ms@)),
    }
}

/// The models of a sequence of values.
pub open spec fn jviews(s: Seq<JVal>) -> Seq<JModel>
    decreases s,
{
    if s.len() == 0 {
        Seq::empty()
    } else {
        jviews(s.drop_last()).push(jview(s.last()))
    }
}

/// The models of object members.
pub open spec fn jview_members(s: Seq<(String, JVal)>) -> Seq<(Seq<char>, JModel)>
    decreases s,
{
    if s.len() == 0 {
        Seq::empty()
    } else {
        jview_members(s.drop_last()).push((s.last().0@, jview(s.last().1)))
    }
}

/// A member sequence models member by member.
pub proof fn lemma_jview_members_index(s: Seq<(String, JVal)>, i: int)
    requires
        0 <= i < s.len(),
    ensures
        jview_members(s).len() == s.len(),
        jview_members(s)[i] == (s[i].0@, jview(s[i].1)),
    decreases s.len(),
{
    lemma_jview_members_len(s);
    if i == s.len() - 1 {
    } else {
        assert(s.drop_last()[i] == s[i]);
        lemma_jview_members_index(s.drop_last(), i);
    }
}

/// Member models keep the count.
pub proof fn lemma_jview_members_len(s: Seq<(String, JVal)>)
    ensures
        jview_members(s).len() == s.len(),
    decreases s.len(),
{
    if s.len() > 0 {
        lemma_jview_members_len(s.drop_last());
    }
}

/// A value sequence models value by value.
pub proof fn lemma_jviews_index(s: Seq<JVal>, i: int)
    requires
        0 <= i < s.len(),
    ensures
        jviews(s).len() == s.len(),
        jviews(s)[i] == jview(s[i]),
    decreases s.len(),
{
    lemma_jviews_len(s);
    if i == s.len() - 1 {
    } else {
        assert(s.drop_last()[i] == s[i]);
        lemma_jviews_index(s.drop_last(), i);
    }
}

/// Value models keep the count.
pub proof fn lemma_jviews_len(s: Seq<JVal>)
    ensures
        jviews(s).len() == s.len(),
    decreases s.len(),
{
    if s.len() > 0 {
        lemma_jviews_len(s.drop_last());
    }
}

/// What a text parses to, if it is JSON: named, serde_json's reading of it
/// (object members in serde_json's key order).
pub uninterp spec fn json_parse_of(s: Seq<char>) -> Option<JModel>;

/// The canonical text of a value: named, serde_json's rendering of it.
pub uninterp spec fn json_text_of(v: JModel) -> Seq<char>;

/// Relies on serde_json's `from_str`: `Some` exactly on well-formed JSON,
/// and then the parsed tree.
#[verifier::external_body]
pub fn parse_json(s: &str) -> (r: Option<JVal>)
    ensures
        match r {
            Some(v) => json_parse_of(s@) == Some(jview(v)),
            None => json_parse_of(s@) is None,
        },
{
    match serde_json::from_str::<serde_json::Value>(s) {
        Ok(v) => Some(jval_of_value(v)),
        Err(_) => None,
    }
}

/// Relies on serde_json's value tree: each variant carried over, members in
/// the map's order.
#[verifier::external_body]
fn jval_of_value(v: serde_json::Value) -> JVal {
    match v {
        serde_json::Value::Null => JVal::Null,
        serde_json::Value::Bool(b) => JVal::Bool(b),
        serde_json::Value::Number(n) => JVal::Num(n),
        serde_json::Value::String(s) => JVal::Str(s),
        serde_json::Value::Array(xs) => JVal::Arr(xs.into_iter().map(jval_of_value).collect()),
        serde_json::Value::Object(m) => JVal::Obj(
            m.into_iter().map(|(k, x)| (k, jval_of_value(x))).collect(),
        ),
    }
}

/// Relies on serde_json's value tree: the inverse carry-over.
#[verifier::external_body]
fn value_of_jval(v: JVal) -> serde_json::Value {
    match v {
        JVal::Null => serde_json::Value::Null,
        JVal::Bool(b) => serde_json::Value::Bool(b),
        JVal::Num(n) => serde_json::Value::Number(n),
        JVal::Str(s) => serde_json::Value::String(s),
        JVal::Arr(xs) => serde_json::Value::Array(xs.into_iter().map(value_of_jval).collect()),
        JVal::Obj(m) => serde_json::Value::Object(
            m.into_iter().map(|(k, x)| (k, value_of_jval(x))).collect(),
        ),
    }
}

/// Relies on serde_json's `to_string`: the value's canonical text (a tree
/// with one model serializes to one text).
#[verifier::external_body]
pub fn json_to_string(v: JVal) -> (r: String)
    ensures
        r@ == json_text_of(jview(v)),
{
    serde_json::to_string(&value_of_jval(v)).unwrap_or_else(|_| String::new())
}

/// Relies on `serde_json::Number`'s derived `Clone`: the clone is the same
/// number.
pub assume_specification[ <serde_json::Number as Clone>::clone ](n: &serde_json::Number) -> (r:
    serde_json::Number)
    ensures
        r == *n,
;

impl JVal {
    /// A deep copy: same model.
    pub fn duplicate(&self) -> (r: JVal)
        ensures
            jview(r) == jview(*self),
        decreases *self,
    {
        broadcast use vstd::std_specs::vec::axiom_vec_index_decreases;
        broadcast use vstd::std_specs::vec::axiom_vec_decreases_to_view;
        broadcast use vstd::seq::axiom_seq_index_decreases;

        match self {
            JVal::Null => JVal::Null,
            JVal::Bool(b) => JVal::Bool(*b),
            JVal::Num(n) => JVal::Num(n.clone()),
            JVal::Str(s) => JVal::Str(s.clone()),
            JVal::Arr(xs) => {
                let n = xs.len();
                let mut out: Vec<JVal> = Vec::new();
                let mut i: usize = 0;
                assert(jviews(out@) =~= jviews(xs@.take(0)));
                while i < n
                    invariant
                        n == xs@.len(),
                        i <= n,
                        out@.len() == i,
                        jviews(out@) == jviews(xs@.take(i as int)),
                        decreases_to!(*self => *xs),
                    decreases n - i,
                {
                    proof {
                        assert(decreases_to!(*xs => xs@[i as int]));
                    }
                    let ghost out0 = out@;
                    out.push(xs[i].duplicate());
                    proof {
                        assert(out@.drop_last() =~= out0);
                        assert(xs@.take(i + 1).drop_last() =~= xs@.take(i as int));
                        assert(xs@.take(i + 1).last() == xs@[i as int]);
                    }
                    i += 1;
                }
                assert(xs@.take(n as int) =~= xs@);
                JVal::Arr(out)
            },
            JVal::Obj(ms) => {
                let n = ms.len();
                let mut out: Vec<(String, JVal)> = Vec::new();
                let mut i: usize = 0;
                assert(jview_members(out@) =~= jview_members(ms@.take(0)));
                while i < n
                    invariant
                        n == ms@.len(),
                        i <= n,
                        out@.len() == i,
                        jview_members(out@) == jview_members(ms@.take(i as int)),
                        decreases_to!(*self => *ms),
                    decreases n - i,
                {
                    proof {
                        assert(decreases_to!(*ms => ms@[i as int]));
                        assert(decreases_to!(ms@[i as int] => ms@[i as int].1));
                    }
                    let key = ms[i].0.clone();
                    let v = ms[i].1.duplicate();
                    let ghost out0 = out@;
                    out.push((key, v));
                    proof {
                        assert(out@.drop_last() =~= out0);
                        assert(ms@.take(i + 1).drop_last() =~= ms@.take(i as int));
                        assert(ms@.take(i + 1).last() == ms@[i as int]);
                    }
                    i += 1;
                }
                assert(ms@.take(n as int) =~= ms@);
                JVal::Obj(out)
            },
        }
    }
}

} // verus!
