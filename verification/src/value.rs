//! The JSON value model.
//!
//! Values are stored exactly as they were spelled in the source text: a
//! number keeps its literal digits and a string keeps the raw bytes between
//! its quotes, escape sequences included.  Serializing a parsed value
//! therefore reproduces the source losslessly, and object members keep their
//! source order.

use vstd::prelude::*;

verus! {

/// A JSON value as the engine stores it.
#[derive(Debug, PartialEq, Eq)]
pub enum JsonValue {
    Null,
    Bool(bool),
    /// The literal text of a number, e.g. `-12.5e3`.
    Num(Vec<u8>),
    /// The raw contents of a string literal, without the surrounding quotes.
    Str(Vec<u8>),
    Arr(Vec<JsonValue>),
    Obj(Vec<(Vec<u8>, JsonValue)>),
}

/// The mathematical model of a [`JsonValue`].
pub enum JsonVal {
    Null,
    Bool(bool),
    Num(Seq<u8>),
    Str(Seq<u8>),
    Arr(Seq<JsonVal>),
    Obj(Seq<(Seq<u8>, JsonVal)>),
}

/// The model of a stored value.
pub open spec fn view_of(v: JsonValue) -> JsonVal
    decreases v, 1int,
{
    match v {
        JsonValue::Null => JsonVal::Null,
        JsonValue::Bool(b) => JsonVal::Bool(b),
        JsonValue::Num(n) => JsonVal::Num(n@),
        JsonValue::Str(s) => JsonVal::Str(s@),
        JsonValue::Arr(items) => JsonVal::Arr(views_of(items@)),
        JsonValue::Obj(members) => JsonVal::Obj(member_views_of(members@)),
    }
}

/// The models of a sequence of stored values, in order.
pub open spec fn views_of(items: Seq<JsonValue>) -> Seq<JsonVal>
    decreases items, 0int,
{
    if items.len() == 0 {
        Seq::empty()
    } else {
        seq![view_of(items[0])] + views_of(items.subrange(1, items.len() as int))
    }
}

/// The models of a sequence of stored object members, in order.
pub open spec fn member_views_of(members: Seq<(Vec<u8>, JsonValue)>) -> Seq<(Seq<u8>, JsonVal)>
    decreases members, 0int,
{
    if members.len() == 0 {
        Seq::empty()
    } else {
        seq![(members[0].0@, view_of(members[0].1))] + member_views_of(
            members.subrange(1, members.len() as int),
        )
    }
}

/// `views_of` is the element-wise model.
pub proof fn lemma_views_of(items: Seq<JsonValue>)
    ensures
        views_of(items).len() == items.len(),
        forall|i: int| 0 <= i < items.len() ==> views_of(items)[i] == view_of(items[i]),
    decreases items.len(),
{
    if items.len() > 0 {
        lemma_views_of(items.subrange(1, items.len() as int));
    }
}

/// `member_views_of` is the element-wise model.
pub proof fn lemma_member_views_of(members: Seq<(Vec<u8>, JsonValue)>)
    ensures
        member_views_of(members).len() == members.len(),
        forall|i: int|
            0 <= i < members.len() ==> member_views_of(members)[i] == (
                members[i].0@,
                view_of(members[i].1),
            ),
    decreases members.len(),
{
    if members.len() > 0 {
        lemma_member_views_of(members.subrange(1, members.len() as int));
    }
}

/// Appending a value appends its model.
pub proof fn lemma_views_of_push(items: Seq<JsonValue>, v: JsonValue)
    ensures
        views_of(items.push(v)) == views_of(items) + seq![view_of(v)],
{
    lemma_views_of(items);
    lemma_views_of(items.push(v));
    assert(views_of(items.push(v)) =~= views_of(items) + seq![view_of(v)]);
}

/// Appending a member appends its model.
pub proof fn lemma_member_views_of_push(members: Seq<(Vec<u8>, JsonValue)>, k: Vec<u8>, v: JsonValue)
    ensures
        member_views_of(members.push((k, v))) == member_views_of(members) + seq![(k@, view_of(v))],
{
    lemma_member_views_of(members);
    lemma_member_views_of(members.push((k, v)));
    assert(member_views_of(members.push((k, v))) =~= member_views_of(members) + seq![
        (k@, view_of(v)),
    ]);
}

/// Concatenating stored values concatenates their models.
pub proof fn lemma_views_of_concat(a: Seq<JsonValue>, b: Seq<JsonValue>)
    ensures
        views_of(a + b) == views_of(a) + views_of(b),
{
    lemma_views_of(a);
    lemma_views_of(b);
    lemma_views_of(a + b);
    assert(views_of(a + b) =~= views_of(a) + views_of(b));
}

impl View for JsonValue {
    type V = JsonVal;

    open spec fn view(&self) -> JsonVal {
        view_of(*self)
    }
}

/// The value of the first member named `field`, if any.
pub open spec fn lookup(members: Seq<(Seq<u8>, JsonVal)>, field: Seq<u8>) -> Option<JsonVal>
    decreases members.len(),
{
    if members.len() == 0 {
        None
    } else if members[0].0 == field {
        Some(members[0].1)
    } else {
        lookup(members.drop_first(), field)
    }
}

/// Member access on a value: `None` unless the value is an object with a
/// member named `field`.
pub open spec fn get_field(v: JsonVal, field: Seq<u8>) -> Option<JsonVal> {
    match v {
        JsonVal::Obj(members) => lookup(members, field),
        _ => None,
    }
}

impl JsonValue {
    /// Member access, mirroring [`get_field`] on the model.
    pub fn get<'a>(&'a self, field: &[u8]) -> (r: Option<&'a JsonValue>)
        ensures
            match r {
                Some(v) => get_field(self@, field@) == Some(v@),
                None => get_field(self@, field@) is None,
            },
    {
        match self {
            JsonValue::Obj(members) => {
                let ghost mv = member_views_of(members@);
                proof {
                    lemma_member_views_of(members@);
                    assert(mv.skip(0) =~= mv);
                }
                let n = members.len();
                let mut i: usize = 0;
                while i < n
                    invariant
                        n == members@.len(),
                        mv == member_views_of(members@),
                        mv.len() == n,
                        forall|j: int|
                            0 <= j < n ==> mv[j] == (members@[j].0@, view_of(members@[j].1)),
                        i <= n,
                        self@ == JsonVal::Obj(mv),
                        lookup(mv, field@) == lookup(mv.skip(i as int), field@),
                    decreases n - i,
                {
                    proof {
                        assert(mv.skip(i as int)[0] == mv[i as int]);
                        assert(mv.skip(i as int).drop_first() =~= mv.skip(i as int + 1));
                    }
                    if crate::bytestr::bytes_eq(members[i].0.as_slice(), field) {
                        return Some(&members[i].1);
                    }
                    i = i + 1;
                }
                proof {
                    assert(mv.skip(n as int) =~= Seq::<(Seq<u8>, JsonVal)>::empty());
                }
                None
            },
            _ => None,
        }
    }
}

/// The sort key of a record: the byte string stored at `field`, or the empty
/// string when the member is missing or is not a string.
pub open spec fn sort_key(v: JsonVal, field: Seq<u8>) -> Seq<u8> {
    match get_field(v, field) {
        Some(JsonVal::Str(s)) => s,
        _ => Seq::empty(),
    }
}

/// Compute [`sort_key`]: a copy of the key bytes.
pub fn sort_key_of(v: &JsonValue, field: &[u8]) -> (r: Vec<u8>)
    ensures
        r@ == sort_key(v@, field@),
{
    match v.get(field) {
        Some(JsonValue::Str(s)) => vstd::slice::slice_to_vec(s.as_slice()),
        _ => Vec::new(),
    }
}

} // verus!

verus! {

impl JsonValue {
    /// A deep copy with the same model.
    pub fn duplicate(&self) -> (r: JsonValue)
        ensures
            r@ == self@,
        decreases *self, 1int,
    {
        match self {
            JsonValue::Null => JsonValue::Null,
            JsonValue::Bool(b) => JsonValue::Bool(*b),
            JsonValue::Num(n) => JsonValue::Num(vstd::slice::slice_to_vec(n.as_slice())),
            JsonValue::Str(s) => JsonValue::Str(vstd::slice::slice_to_vec(s.as_slice())),
            JsonValue::Arr(items) => JsonValue::Arr(duplicate_values(items.as_slice())),
            JsonValue::Obj(members) => JsonValue::Obj(duplicate_members(members.as_slice())),
        }
    }
}

/// Deep-copy a sequence of values.
fn duplicate_values(items: &[JsonValue]) -> (r: Vec<JsonValue>)
    ensures
        views_of(r@) == views_of(items@),
    decreases items@, 0int,
{
    if items.len() == 0 {
        let r: Vec<JsonValue> = Vec::new();
        proof {
            assert(views_of(r@) =~= views_of(items@));
        }
        return r;
    }
    let mut out: Vec<JsonValue> = Vec::new();
    out.push(items[0].duplicate());
    if items.len() > 1 {
        let mut rest = duplicate_values(vstd::slice::slice_subrange(items, 1, items.len()));
        let ghost rest0 = rest@;
        out.append(&mut rest);
        proof {
            assert(out@ =~= seq![out@[0]] + rest0);
            lemma_views_of_concat(seq![out@[0]], rest0);
            lemma_views_of(seq![out@[0]]);
            lemma_views_of(seq![items@[0]]);
            assert(views_of(seq![out@[0]]) =~= seq![view_of(items@[0])]);
            assert(views_of(out@) =~= views_of(items@));
        }
    } else {
        proof {
            lemma_views_of(out@);
            lemma_views_of(items@);
            assert(views_of(out@) =~= views_of(items@));
        }
    }
    out
}

/// Deep-copy a sequence of object members.
fn duplicate_members(members: &[(Vec<u8>, JsonValue)]) -> (r: Vec<(Vec<u8>, JsonValue)>)
    ensures
        member_views_of(r@) == member_views_of(members@),
    decreases members@, 0int,
{
    if members.len() == 0 {
        let r: Vec<(Vec<u8>, JsonValue)> = Vec::new();
        proof {
            assert(member_views_of(r@) =~= member_views_of(members@));
        }
        return r;
    }
    let mut out: Vec<(Vec<u8>, JsonValue)> = Vec::new();
    let key = vstd::slice::slice_to_vec(members[0].0.as_slice());
    let val = members[0].1.duplicate();
    out.push((key, val));
    if members.len() > 1 {
        let mut rest = duplicate_members(vstd::slice::slice_subrange(members, 1, members.len()));
        let ghost rest0 = rest@;
        out.append(&mut rest);
        proof {
            assert(out@ =~= seq![out@[0]] + rest0);
            lemma_member_views_of(out@);
            lemma_member_views_of(members@);
            lemma_member_views_of(rest0);
            lemma_member_views_of(seq![out@[0]]);
            assert(member_views_of(out@) =~= member_views_of(members@));
        }
    } else {
        proof {
            lemma_member_views_of(out@);
            lemma_member_views_of(members@);
            assert(member_views_of(out@) =~= member_views_of(members@));
        }
    }
    out
}

} // verus!
