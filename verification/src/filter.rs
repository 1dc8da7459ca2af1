//! The filter transform: keep the records that satisfy a boolean
//! combination of `contains` clauses.
//!
//! A clause names a field, an operator and a target value.  It passes for a
//! record exactly when the record has the field, the operator is
//! `contains`, and the serialized text of the field's value contains the
//! serialized text of the target as a substring.  An unrecognized operator
//! fails its clause, and an unrecognized logic keeps nothing: unsupported
//! input fails closed rather than raising.  A filter never reorders: the
//! output is a subsequence of the input.

use vstd::prelude::*;
use crate::bytestr::{bytes_contain, bytes_eq, contains_bytes};
use crate::ser::{ser_value, write_value};
use crate::value::{get_field, lemma_views_of, view_of, views_of, JsonVal, JsonValue};

verus! {

/// `contains`, the one supported operator, as bytes.
pub open spec fn contains_op() -> Seq<u8> {
    seq![99u8, 111u8, 110u8, 116u8, 97u8, 105u8, 110u8, 115u8]
}

/// `AND` as bytes.
pub open spec fn and_logic() -> Seq<u8> {
    seq![65u8, 78u8, 68u8]
}

/// `OR` as bytes.
pub open spec fn or_logic() -> Seq<u8> {
    seq![79u8, 82u8]
}

/// The model of one filter clause.
pub struct ClauseVal {
    pub field: Seq<u8>,
    pub operator: Seq<u8>,
    pub value: JsonVal,
}

/// One filter clause: field, operator, and target value.
pub struct FilterClause {
    pub field: Vec<u8>,
    pub operator: Vec<u8>,
    pub value: JsonValue,
}

impl View for FilterClause {
    type V = ClauseVal;

    open spec fn view(&self) -> ClauseVal {
        ClauseVal { field: self.field@, operator: self.operator@, value: view_of(self.value) }
    }
}

/// The models of a sequence of clauses, in order.
pub open spec fn clause_views_of(clauses: Seq<FilterClause>) -> Seq<ClauseVal>
    decreases clauses,
{
    if clauses.len() == 0 {
        Seq::empty()
    } else {
        seq![clauses[0]@] + clause_views_of(clauses.subrange(1, clauses.len() as int))
    }
}

/// `clause_views_of` is the element-wise model.
pub proof fn lemma_clause_views_of(clauses: Seq<FilterClause>)
    ensures
        clause_views_of(clauses).len() == clauses.len(),
        forall|i: int| 0 <= i < clauses.len() ==> clause_views_of(clauses)[i] == clauses[i]@,
    decreases clauses.len(),
{
    if clauses.len() > 0 {
        lemma_clause_views_of(clauses.subrange(1, clauses.len() as int));
    }
}

/// Does one clause pass for a record?  The record must have the field, the
/// operator must be `contains`, and the serialized field value must contain
/// the serialized target.
pub open spec fn clause_passes(rec: JsonVal, c: ClauseVal) -> bool {
    match get_field(rec, c.field) {
        Some(fv) => c.operator == contains_op() && contains_bytes(
            ser_value(fv),
            ser_value(c.value),
        ),
        None => false,
    }
}

/// Does a record survive the whole filter?  `AND` requires every clause,
/// `OR` any one; with zero clauses `AND` therefore keeps every record and
/// `OR` keeps none; any other logic keeps nothing.
pub open spec fn record_passes(rec: JsonVal, logic: Seq<u8>, clauses: Seq<ClauseVal>) -> bool {
    if logic == and_logic() {
        forall|i: int| 0 <= i < clauses.len() ==> clause_passes(rec, #[trigger] clauses[i])
    } else if logic == or_logic() {
        exists|i: int| 0 <= i < clauses.len() && clause_passes(rec, #[trigger] clauses[i])
    } else {
        false
    }
}

/// The surviving records, in their original order.
pub open spec fn filter_records(records: Seq<JsonVal>, logic: Seq<u8>, clauses: Seq<ClauseVal>) -> Seq<
    JsonVal,
> {
    records.filter(|r: JsonVal| record_passes(r, logic, clauses))
}

/// Every element passes the filter, so the filter is the identity.
pub proof fn lemma_filter_all_pass<A>(s: Seq<A>, pred: spec_fn(A) -> bool)
    requires
        forall|i: int| 0 <= i < s.len() ==> pred(#[trigger] s[i]),
    ensures
        s.filter(pred) == s,
    decreases s.len(),
{
    reveal(Seq::filter);
    if s.len() > 0 {
        lemma_filter_all_pass(s.drop_last(), pred);
        assert(s.filter(pred) =~= s);
    }
}

/// No element passes the filter, so the filter is empty.
pub proof fn lemma_filter_none_pass<A>(s: Seq<A>, pred: spec_fn(A) -> bool)
    requires
        forall|i: int| 0 <= i < s.len() ==> !pred(#[trigger] s[i]),
    ensures
        s.filter(pred) == Seq::<A>::empty(),
    decreases s.len(),
{
    reveal(Seq::filter);
    if s.len() > 0 {
        lemma_filter_none_pass(s.drop_last(), pred);
    }
}

/// With zero clauses the outcome is fixed: `AND` keeps the whole
/// collection, `OR` keeps nothing.
pub proof fn lemma_filter_no_clauses(records: Seq<JsonVal>, logic: Seq<u8>)
    ensures
        logic == and_logic() ==> filter_records(records, logic, Seq::empty()) == records,
        logic != and_logic() ==> filter_records(records, logic, Seq::empty()) == Seq::<
            JsonVal,
        >::empty(),
{
    let pred = |r: JsonVal| record_passes(r, logic, Seq::empty());
    if logic == and_logic() {
        lemma_filter_all_pass(records, pred);
    } else {
        lemma_filter_none_pass(records, pred);
    }
}

/// Decide [`clause_passes`].
fn clause_passes_dec(rec: &JsonValue, c: &FilterClause) -> (r: bool)
    ensures
        r == clause_passes(rec@, c@),
{
    let contains_lit = contains_op_vec();
    match rec.get(c.field.as_slice()) {
        Some(fv) => {
            if !bytes_eq(c.operator.as_slice(), contains_lit.as_slice()) {
                return false;
            }
            let mut rendered: Vec<u8> = Vec::new();
            write_value(fv, &mut rendered);
            let mut target: Vec<u8> = Vec::new();
            write_value(&c.value, &mut target);
            proof {
                assert(rendered@ =~= ser_value(fv@));
                assert(target@ =~= ser_value(c@.value));
            }
            bytes_contain(rendered.as_slice(), target.as_slice())
        },
        None => false,
    }
}

/// Build the `contains` operator name.
fn contains_op_vec() -> (r: Vec<u8>)
    ensures
        r@ == contains_op(),
{
    let mut v: Vec<u8> = Vec::new();
    v.push(99);
    v.push(111);
    v.push(110);
    v.push(116);
    v.push(97);
    v.push(105);
    v.push(110);
    v.push(115);
    proof {
        assert(v@ =~= contains_op());
    }
    v
}

/// Build the `AND` logic name.
pub fn and_logic_vec() -> (r: Vec<u8>)
    ensures
        r@ == and_logic(),
{
    let mut v: Vec<u8> = Vec::new();
    v.push(65);
    v.push(78);
    v.push(68);
    proof {
        assert(v@ =~= and_logic());
    }
    v
}

/// Build the `OR` logic name.
pub fn or_logic_vec() -> (r: Vec<u8>)
    ensures
        r@ == or_logic(),
{
    let mut v: Vec<u8> = Vec::new();
    v.push(79);
    v.push(82);
    proof {
        assert(v@ =~= or_logic());
    }
    v
}

/// Decide [`record_passes`].
fn record_passes_dec(rec: &JsonValue, logic: &Vec<u8>, clauses: &Vec<FilterClause>) -> (r: bool)
    ensures
        r == record_passes(rec@, logic@, clause_views_of(clauses@)),
{
    proof {
        lemma_clause_views_of(clauses@);
    }
    let ghost cvs = clause_views_of(clauses@);
    let and_lit = and_logic_vec();
    let or_lit = or_logic_vec();
    if bytes_eq(logic.as_slice(), and_lit.as_slice()) {
        let mut i: usize = 0;
        while i < clauses.len()
            invariant
                i <= clauses@.len(),
                cvs == clause_views_of(clauses@),
                cvs.len() == clauses@.len(),
                forall|j: int| 0 <= j < clauses@.len() ==> cvs[j] == clauses@[j]@,
                logic@ == and_logic(),
                forall|j: int| 0 <= j < i ==> clause_passes(rec@, #[trigger] cvs[j]),
            decreases clauses@.len() - i,
        {
            if !clause_passes_dec(rec, &clauses[i]) {
                proof {
                    assert(cvs[i as int] == clauses@[i as int]@);
                    assert(!clause_passes(rec@, cvs[i as int]));
                }
                return false;
            }
            i = i + 1;
        }
        true
    } else if bytes_eq(logic.as_slice(), or_lit.as_slice()) {
        let mut i: usize = 0;
        while i < clauses.len()
            invariant
                i <= clauses@.len(),
                cvs == clause_views_of(clauses@),
                cvs.len() == clauses@.len(),
                forall|j: int| 0 <= j < clauses@.len() ==> cvs[j] == clauses@[j]@,
                logic@ == or_logic(),
                forall|j: int| 0 <= j < i ==> !clause_passes(rec@, #[trigger] cvs[j]),
            decreases clauses@.len() - i,
        {
            if clause_passes_dec(rec, &clauses[i]) {
                proof {
                    assert(cvs[i as int] == clauses@[i as int]@);
                    assert(clause_passes(rec@, cvs[i as int]));
                }
                return true;
            }
            i = i + 1;
        }
        false
    } else {
        false
    }
}

/// Apply the filter: precisely [`filter_records`] on the model — the
/// surviving records, in their original order.
pub fn apply_filter(records: Vec<JsonValue>, logic: &Vec<u8>, clauses: &Vec<FilterClause>) -> (r:
    Vec<JsonValue>)
    ensures
        views_of(r@) == filter_records(views_of(records@), logic@, clause_views_of(clauses@)),
{
    broadcast use vstd::seq_lib::group_seq_lib_default;

    let ghost orig = records@;
    let ghost pred = |x: JsonVal| record_passes(x, logic@, clause_views_of(clauses@));
    let mut input = records;
    let mut stack: Vec<JsonValue> = Vec::new();
    proof {
        assert(orig.take(orig.len() as int) =~= orig);
        assert(orig.skip(orig.len() as int).reverse() =~= Seq::<JsonValue>::empty());
    }
    loop
        invariant
            input@.len() <= orig.len(),
            input@ == orig.take(input@.len() as int),
            stack@ == orig.skip(input@.len() as int).reverse(),
        ensures
            stack@ == orig.reverse(),
        decreases input@.len(),
    {
        let ghost n0 = input@.len() as int;
        match input.pop() {
            None => {
                proof {
                    assert(orig.skip(0) =~= orig);
                }
                break;
            },
            Some(v) => {
                stack.push(v);
                proof {
                    assert(input@ =~= orig.take(n0 - 1));
                    assert(stack@ =~= orig.skip(n0 - 1).reverse());
                }
            },
        }
    }
    let mut out: Vec<JsonValue> = Vec::new();
    proof {
        assert(orig.skip(0) =~= orig);
        assert(orig.take(0) =~= Seq::<JsonValue>::empty());
        assert(views_of(orig.take(0)) =~= Seq::<JsonVal>::empty());
        assert(views_of(out@) =~= Seq::<JsonVal>::empty());
        reveal_with_fuel(Seq::filter, 1);
    }
    loop
        invariant
            stack@.len() <= orig.len(),
            stack@ == orig.skip((orig.len() - stack@.len()) as int).reverse(),
            pred == (|x: JsonVal| record_passes(x, logic@, clause_views_of(clauses@))),
            views_of(out@) == views_of(orig.take((orig.len() - stack@.len()) as int)).filter(pred),
        ensures
            views_of(out@) == views_of(orig).filter(pred),
        decreases stack@.len(),
    {
        let ghost done = (orig.len() - stack@.len()) as int;
        match stack.pop() {
            None => {
                proof {
                    assert(orig.take(orig.len() as int) =~= orig);
                }
                break;
            },
            Some(v) => {
                proof {
                    assert(orig.skip(done).reverse().last() == orig.skip(done)[0]);
                    assert(orig.skip(done)[0] == orig[done]);
                    assert(stack@ =~= orig.skip(done + 1).reverse());
                    // views of the one-longer prefix split into prefix + [v]
                    assert(orig.take(done + 1) =~= orig.take(done) + seq![orig[done]]);
                    crate::value::lemma_views_of_concat(orig.take(done), seq![orig[done]]);
                    lemma_views_of(seq![orig[done]]);
                    assert(views_of(seq![orig[done]]) =~= seq![view_of(orig[done])]);
                    assert(views_of(orig.take(done + 1)).filter(pred) == views_of(
                        orig.take(done),
                    ).filter(pred) + seq![view_of(orig[done])].filter(pred));
                    assert(seq![view_of(orig[done])].filter(pred) == (if pred(view_of(orig[done])) {
                        seq![view_of(orig[done])]
                    } else {
                        Seq::<JsonVal>::empty()
                    })) by {
                        reveal_with_fuel(Seq::filter, 2);
                        assert(seq![view_of(orig[done])].drop_last() =~= Seq::<JsonVal>::empty());
                        assert(seq![view_of(orig[done])].last() == view_of(orig[done]));
                    }
                }
                let keep = record_passes_dec(&v, logic, clauses);
                if keep {
                    let ghost out0 = out@;
                    out.push(v);
                    proof {
                        crate::value::lemma_views_of_push(out0, orig[done]);
                        assert(views_of(out@) =~= views_of(out0) + seq![view_of(orig[done])]);
                    }
                } else {
                    proof {
                        assert(views_of(orig.take(done + 1)).filter(pred) =~= views_of(out@));
                    }
                }
            },
        }
    }
    out
}

} // verus!
