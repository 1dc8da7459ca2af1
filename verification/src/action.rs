//! Declarative actions: the wire format of sort and filter parameters, and
//! the action dispatcher.
//!
//! An action arrives as a name string plus a JSON parameter payload.
//! `sort` takes `{"field": string, "dir": "asc"|"desc"}` (direction defaults
//! to descending; a missing or non-string field falls back to the literal
//! field name `No Value`, which in practice sorts by the empty key).
//! `filter` takes `{"logic": "AND"|"OR", "filters": [{"field": string,
//! "operator": string, "value": any}, ...]}`; a payload of the wrong shape
//! keeps nothing, fail-closed.  Any other action name is a no-op on the
//! records.  Key bytes below are spelled numerically: `field` is
//! 102,105,101,108,100 and so on.

use vstd::prelude::*;
use vstd::utf8::{encode_utf8, encode_utf8_decode_utf8, is_ascii_chars_encode_utf8};
use crate::bytestr::bytes_eq;
use crate::filter::{clause_views_of, filter_records, ClauseVal, FilterClause};
use crate::sort::sort_records;
use crate::value::{get_field, JsonVal, JsonValue};

verus! {

/// The `sort` action name.
pub open spec fn sort_name() -> Seq<char> {
    "sort"@
}

/// The `filter` action name.
pub open spec fn filter_name() -> Seq<char> {
    "filter"@
}

/// `field`, the key naming the sort or clause field.
pub open spec fn field_key() -> Seq<u8> {
    seq![102u8, 105u8, 101u8, 108u8, 100u8]
}

/// `dir`, the key naming the sort direction.
pub open spec fn dir_key() -> Seq<u8> {
    seq![100u8, 105u8, 114u8]
}

/// `asc`, the direction value selecting an ascending sort.
pub open spec fn asc_dir() -> Seq<u8> {
    seq![97u8, 115u8, 99u8]
}

/// `No Value`, the fallback sort field when the payload names none.
pub open spec fn default_sort_field() -> Seq<u8> {
    seq![78u8, 111u8, 32u8, 86u8, 97u8, 108u8, 117u8, 101u8]
}

/// `logic`, the key naming the filter combination.
pub open spec fn logic_key() -> Seq<u8> {
    seq![108u8, 111u8, 103u8, 105u8, 99u8]
}

/// `filters`, the key naming the clause list.
pub open spec fn filters_key() -> Seq<u8> {
    seq![102u8, 105u8, 108u8, 116u8, 101u8, 114u8, 115u8]
}

/// `operator`, the key naming a clause's operator.
pub open spec fn operator_key() -> Seq<u8> {
    seq![111u8, 112u8, 101u8, 114u8, 97u8, 116u8, 111u8, 114u8]
}

/// `value`, the key naming a clause's target value.
pub open spec fn value_key() -> Seq<u8> {
    seq![118u8, 97u8, 108u8, 117u8, 101u8]
}

/// The sort field of a payload: the string at `field`, else the fallback.
pub open spec fn sort_field_of(p: JsonVal) -> Seq<u8> {
    match get_field(p, field_key()) {
        Some(JsonVal::Str(s)) => s,
        _ => default_sort_field(),
    }
}

/// The sort direction of a payload: ascending exactly when `dir` holds the
/// string `asc`; anything else, or no `dir` at all, sorts descending.
pub open spec fn sort_ascending_of(p: JsonVal) -> bool {
    match get_field(p, dir_key()) {
        Some(JsonVal::Str(s)) => s == asc_dir(),
        _ => false,
    }
}

/// One clause of a filter payload: an object with a string `field`, a
/// string `operator` and any `value`.
pub open spec fn clause_of(v: JsonVal) -> Option<ClauseVal> {
    match (get_field(v, field_key()), get_field(v, operator_key()), get_field(v, value_key())) {
        (Some(JsonVal::Str(f)), Some(JsonVal::Str(op)), Some(val)) => Some(
            ClauseVal { field: f, operator: op, value: val },
        ),
        _ => None,
    }
}

/// All clauses of a filter payload, or `None` if any is malformed.
pub open spec fn clauses_of(vs: Seq<JsonVal>) -> Option<Seq<ClauseVal>>
    decreases vs.len(),
{
    if vs.len() == 0 {
        Some(Seq::empty())
    } else {
        match clause_of(vs[0]) {
            Some(c) => match clauses_of(vs.drop_first()) {
                Some(rest) => Some(seq![c] + rest),
                None => None,
            },
            None => None,
        }
    }
}

/// The logic and clauses of a filter payload: a string at `logic` and a
/// well-formed clause list at `filters`, else `None`.
pub open spec fn filter_params_of(p: JsonVal) -> Option<(Seq<u8>, Seq<ClauseVal>)> {
    match (get_field(p, logic_key()), get_field(p, filters_key())) {
        (Some(JsonVal::Str(lg)), Some(JsonVal::Arr(vs))) => match clauses_of(vs) {
            Some(cl) => Some((lg, cl)),
            None => None,
        },
        _ => None,
    }
}

/// What one action does to the record buffer.  `sort` sorts stably by the
/// named field, `filter` keeps the matching records (an ill-shaped payload
/// keeps nothing), and an unknown action name leaves the records unchanged.
pub open spec fn apply_action(name: Seq<char>, params: JsonVal, records: Seq<JsonVal>) -> Seq<
    JsonVal,
> {
    if name == sort_name() {
        sort_records(records, sort_field_of(params), sort_ascending_of(params))
    } else if name == filter_name() {
        match filter_params_of(params) {
            Some((lg, cl)) => filter_records(records, lg, cl),
            None => Seq::empty(),
        }
    } else {
        records
    }
}

/// UTF-8 encoding is injective.
pub proof fn lemma_encode_utf8_injective(a: Seq<char>, b: Seq<char>)
    ensures
        (encode_utf8(a) == encode_utf8(b)) == (a == b),
{
    if encode_utf8(a) == encode_utf8(b) {
        encode_utf8_decode_utf8(a);
        encode_utf8_decode_utf8(b);
    }
}

/// The byte spelling of the `sort` action name.
pub proof fn lemma_sort_name_bytes()
    ensures
        encode_utf8(sort_name()) == seq![115u8, 111u8, 114u8, 116u8],
{
    reveal_strlit("sort");
    is_ascii_chars_encode_utf8(sort_name());
    assert(encode_utf8(sort_name()) =~= seq![115u8, 111u8, 114u8, 116u8]);
}

/// The byte spelling of the `filter` action name.
pub proof fn lemma_filter_name_bytes()
    ensures
        encode_utf8(filter_name()) == seq![102u8, 105u8, 108u8, 116u8, 101u8, 114u8],
{
    reveal_strlit("filter");
    is_ascii_chars_encode_utf8(filter_name());
    assert(encode_utf8(filter_name()) =~= seq![102u8, 105u8, 108u8, 116u8, 101u8, 114u8]);
}

/// Build a key name from its bytes.
fn field_key_vec() -> (r: Vec<u8>)
    ensures
        r@ == field_key(),
{
    let mut v: Vec<u8> = Vec::new();
    v.push(102);
    v.push(105);
    v.push(101);
    v.push(108);
    v.push(100);
    proof {
        assert(v@ =~= field_key());
    }
    v
}

fn dir_key_vec() -> (r: Vec<u8>)
    ensures
        r@ == dir_key(),
{
    let mut v: Vec<u8> = Vec::new();
    v.push(100);
    v.push(105);
    v.push(114);
    proof {
        assert(v@ =~= dir_key());
    }
    v
}

fn asc_dir_vec() -> (r: Vec<u8>)
    ensures
        r@ == asc_dir(),
{
    let mut v: Vec<u8> = Vec::new();
    v.push(97);
    v.push(115);
    v.push(99);
    proof {
        assert(v@ =~= asc_dir());
    }
    v
}

fn default_sort_field_vec() -> (r: Vec<u8>)
    ensures
        r@ == default_sort_field(),
{
    let mut v: Vec<u8> = Vec::new();
    v.push(78);
    v.push(111);
    v.push(32);
    v.push(86);
    v.push(97);
    v.push(108);
    v.push(117);
    v.push(101);
    proof {
        assert(v@ =~= default_sort_field());
    }
    v
}

fn logic_key_vec() -> (r: Vec<u8>)
    ensures
        r@ == logic_key(),
{
    let mut v: Vec<u8> = Vec::new();
    v.push(108);
    v.push(111);
    v.push(103);
    v.push(105);
    v.push(99);
    proof {
        assert(v@ =~= logic_key());
    }
    v
}

fn filters_key_vec() -> (r: Vec<u8>)
    ensures
        r@ == filters_key(),
{
    let mut v: Vec<u8> = Vec::new();
    v.push(102);
    v.push(105);
    v.push(108);
    v.push(116);
    v.push(101);
    v.push(114);
    v.push(115);
    proof {
        assert(v@ =~= filters_key());
    }
    v
}

fn operator_key_vec() -> (r: Vec<u8>)
    ensures
        r@ == operator_key(),
{
    let mut v: Vec<u8> = Vec::new();
    v.push(111);
    v.push(112);
    v.push(101);
    v.push(114);
    v.push(97);
    v.push(116);
    v.push(111);
    v.push(114);
    proof {
        assert(v@ =~= operator_key());
    }
    v
}

fn value_key_vec() -> (r: Vec<u8>)
    ensures
        r@ == value_key(),
{
    let mut v: Vec<u8> = Vec::new();
    v.push(118);
    v.push(97);
    v.push(108);
    v.push(117);
    v.push(101);
    proof {
        assert(v@ =~= value_key());
    }
    v
}

fn sort_name_vec() -> (r: Vec<u8>)
    ensures
        r@ == seq![115u8, 111u8, 114u8, 116u8],
{
    let mut v: Vec<u8> = Vec::new();
    v.push(115);
    v.push(111);
    v.push(114);
    v.push(116);
    proof {
        assert(v@ =~= seq![115u8, 111u8, 114u8, 116u8]);
    }
    v
}

fn filter_name_vec() -> (r: Vec<u8>)
    ensures
        r@ == seq![102u8, 105u8, 108u8, 116u8, 101u8, 114u8],
{
    let mut v: Vec<u8> = Vec::new();
    v.push(102);
    v.push(105);
    v.push(108);
    v.push(116);
    v.push(101);
    v.push(114);
    proof {
        assert(v@ =~= seq![102u8, 105u8, 108u8, 116u8, 101u8, 114u8]);
    }
    v
}

/// Read the sort field and direction out of a parsed payload.
pub fn extract_sort_params(p: &JsonValue) -> (r: (Vec<u8>, bool))
    ensures
        r.0@ == sort_field_of(p@),
        r.1 == sort_ascending_of(p@),
{
    let fk = field_key_vec();
    let field = match p.get(fk.as_slice()) {
        Some(JsonValue::Str(s)) => vstd::slice::slice_to_vec(s.as_slice()),
        _ => default_sort_field_vec(),
    };
    let dk = dir_key_vec();
    let av = asc_dir_vec();
    let ascending = match p.get(dk.as_slice()) {
        Some(JsonValue::Str(s)) => bytes_eq(s.as_slice(), av.as_slice()),
        _ => false,
    };
    (field, ascending)
}

/// Read one clause out of a parsed payload element.
fn extract_clause(v: &JsonValue) -> (r: Option<FilterClause>)
    ensures
        r matches Some(c) ==> clause_of(v@) == Some(c@),
        r is None ==> clause_of(v@) is None,
{
    let fk = field_key_vec();
    let field = match v.get(fk.as_slice()) {
        Some(JsonValue::Str(s)) => vstd::slice::slice_to_vec(s.as_slice()),
        _ => {
            return None;
        },
    };
    let ok = operator_key_vec();
    let operator = match v.get(ok.as_slice()) {
        Some(JsonValue::Str(s)) => vstd::slice::slice_to_vec(s.as_slice()),
        _ => {
            return None;
        },
    };
    let vk = value_key_vec();
    let value = match v.get(vk.as_slice()) {
        Some(tv) => tv.duplicate(),
        None => {
            return None;
        },
    };
    Some(FilterClause { field, operator, value })
}

/// Read the filter logic and clauses out of a parsed payload.
pub fn extract_filter_params(p: &JsonValue) -> (r: Option<(Vec<u8>, Vec<FilterClause>)>)
    ensures
        r matches Some(pr) ==> filter_params_of(p@) == Some((pr.0@, clause_views_of(pr.1@))),
        r is None ==> filter_params_of(p@) is None,
{
    let lk = logic_key_vec();
    let logic = match p.get(lk.as_slice()) {
        Some(JsonValue::Str(s)) => vstd::slice::slice_to_vec(s.as_slice()),
        _ => {
            return None;
        },
    };
    let fk = filters_key_vec();
    match p.get(fk.as_slice()) {
        Some(JsonValue::Arr(items)) => {
            let ghost vs = crate::value::views_of(items@);
            proof {
                crate::value::lemma_views_of(items@);
                assert(vs.skip(0) =~= vs);
            }
            let mut acc: Vec<FilterClause> = Vec::new();
            let n = items.len();
            let mut i: usize = 0;
            proof {
                assert(clause_views_of(acc@) =~= Seq::<ClauseVal>::empty());
                match clauses_of(vs) {
                    Some(all) => {
                        assert(clause_views_of(acc@) + all =~= all);
                    },
                    None => {},
                }
            }
            while i < n
                invariant
                    i <= n,
                    n == items@.len(),
                    vs == crate::value::views_of(items@),
                    vs.len() == n,
                    forall|j: int|
                        0 <= j < n ==> vs[j] == crate::value::view_of(#[trigger] items@[j]),
                    get_field(p@, logic_key()) == Some(JsonVal::Str(logic@)),
                    get_field(p@, filters_key()) == Some(JsonVal::Arr(vs)),
                    clauses_of(vs.skip(i as int)) matches Some(rest) ==> clauses_of(vs) == Some(
                        clause_views_of(acc@) + rest,
                    ),
                    clauses_of(vs.skip(i as int)) is None ==> clauses_of(vs) is None,
                decreases n - i,
            {
                proof {
                    assert(vs.skip(i as int)[0] == vs[i as int]);
                    assert(vs.skip(i as int).drop_first() =~= vs.skip(i as int + 1));
                }
                match extract_clause(&items[i]) {
                    Some(c) => {
                        let ghost acc0 = acc@;
                        let ghost cv = c@;
                        acc.push(c);
                        proof {
                            crate::filter::lemma_clause_views_of(acc0);
                            crate::filter::lemma_clause_views_of(acc@);
                            assert(acc@ =~= acc0.push(acc@[acc@.len() - 1]));
                            assert(clause_views_of(acc@) =~= clause_views_of(acc0) + seq![cv]);
                            match clauses_of(vs.skip(i as int + 1)) {
                                Some(rest) => {
                                    assert(clause_views_of(acc0) + (seq![cv] + rest)
                                        =~= clause_views_of(acc@) + rest);
                                },
                                None => {},
                            }
                        }
                    },
                    None => {
                        return None;
                    },
                }
                i = i + 1;
            }
            proof {
                assert(vs.skip(n as int) =~= Seq::<JsonVal>::empty());
                assert(clauses_of(vs.skip(n as int)) == Some(Seq::<ClauseVal>::empty()));
                assert(clause_views_of(acc@) + Seq::<ClauseVal>::empty() =~= clause_views_of(acc@));
            }
            Some((logic, acc))
        },
        _ => None,
    }
}

/// Apply one named action to the records: precisely [`apply_action`] on the
/// model.
pub fn run_apply(action: &str, params: &JsonValue, records: Vec<JsonValue>) -> (r: Vec<JsonValue>)
    ensures
        crate::value::views_of(r@) == apply_action(action@, params@, crate::value::views_of(
            records@,
        )),
{
    let sn = sort_name_vec();
    let is_sort = bytes_eq(action.as_bytes(), sn.as_slice());
    proof {
        lemma_sort_name_bytes();
        lemma_encode_utf8_injective(action@, sort_name());
    }
    if is_sort {
        let (field, ascending) = extract_sort_params(params);
        return crate::sort::sort_by_field(records, field.as_slice(), ascending);
    }
    let fnv = filter_name_vec();
    let is_filter = bytes_eq(action.as_bytes(), fnv.as_slice());
    proof {
        lemma_filter_name_bytes();
        lemma_encode_utf8_injective(action@, filter_name());
    }
    if is_filter {
        match extract_filter_params(params) {
            Some((logic, clauses)) => {
                return crate::filter::apply_filter(records, &logic, &clauses);
            },
            None => {
                let r: Vec<JsonValue> = Vec::new();
                proof {
                    assert(crate::value::views_of(r@) =~= Seq::<JsonVal>::empty());
                }
                return r;
            },
        }
    }
    records
}

} // verus!
