//! The sort transform: a stable sort of the record buffer by the textual
//! value of one field.
//!
//! Records are ordered lexicographically by their sort key (see
//! [`crate::value::sort_key`]; a missing or non-string field counts as the
//! empty string).  A descending sort reverses the comparison only, never the
//! tie-break: records with equal keys keep their original relative order in
//! both directions.

use vstd::prelude::*;
use vstd::seq_lib::lemma_multiset_commutative;
use vstd::multiset::Multiset;
use crate::bytestr::{bytes_le, lemma_lex_le_total, lemma_lex_le_trans, lex_le};
use crate::value::{
    lemma_views_of, sort_key, sort_key_of, view_of, views_of, JsonVal, JsonValue,
};

verus! {

broadcast use vstd::seq_lib::group_seq_lib_default;

/// Key order under a direction: ascending or descending lexicographic.
pub open spec fn key_le(a: Seq<u8>, b: Seq<u8>, ascending: bool) -> bool {
    if ascending {
        lex_le(a, b)
    } else {
        lex_le(b, a)
    }
}

/// The order is total in both directions.
pub proof fn lemma_key_le_total(a: Seq<u8>, b: Seq<u8>, ascending: bool)
    ensures
        key_le(a, b, ascending) || key_le(b, a, ascending),
{
    lemma_lex_le_total(a, b);
}

/// The order is transitive in both directions.
pub proof fn lemma_key_le_trans(a: Seq<u8>, b: Seq<u8>, c: Seq<u8>, ascending: bool)
    requires
        key_le(a, b, ascending),
        key_le(b, c, ascending),
    ensures
        key_le(a, c, ascending),
{
    if ascending {
        lemma_lex_le_trans(a, b, c);
    } else {
        lemma_lex_le_trans(c, b, a);
    }
}

/// Where a record with key `kv` is inserted into `s`: just past every
/// element whose key does not come after `kv`, so that an equal key never
/// overtakes an earlier one.
pub open spec fn insert_pos(s: Seq<JsonVal>, kv: Seq<u8>, field: Seq<u8>, asc: bool) -> int
    decreases s.len(),
{
    if s.len() == 0 {
        0
    } else if key_le(sort_key(s[0], field), kv, asc) {
        1 + insert_pos(s.drop_first(), kv, field, asc)
    } else {
        0
    }
}

/// One stable insertion.
pub open spec fn stable_insert(s: Seq<JsonVal>, v: JsonVal, field: Seq<u8>, asc: bool) -> Seq<
    JsonVal,
> {
    let p = insert_pos(s, sort_key(v, field), field, asc);
    s.take(p) + seq![v] + s.skip(p)
}

/// The stable sort: records are inserted one by one, in order.
pub open spec fn sort_records(records: Seq<JsonVal>, field: Seq<u8>, asc: bool) -> Seq<JsonVal>
    decreases records.len(),
{
    if records.len() == 0 {
        Seq::empty()
    } else {
        stable_insert(
            sort_records(records.drop_last(), field, asc),
            records.last(),
            field,
            asc,
        )
    }
}

/// Every pair of records stands in key order.
pub open spec fn sorted_by_key(s: Seq<JsonVal>, field: Seq<u8>, asc: bool) -> bool {
    forall|i: int, j: int|
        #![trigger s[i], s[j]]
        0 <= i < j < s.len() ==> key_le(sort_key(s[i], field), sort_key(s[j], field), asc)
}

/// The insertion position is the first index whose key comes after `kv`.
pub proof fn lemma_insert_pos(s: Seq<JsonVal>, kv: Seq<u8>, field: Seq<u8>, asc: bool)
    ensures
        0 <= insert_pos(s, kv, field, asc) <= s.len(),
        forall|j: int|
            0 <= j < insert_pos(s, kv, field, asc) ==> key_le(
                sort_key(#[trigger] s[j], field),
                kv,
                asc,
            ),
        insert_pos(s, kv, field, asc) < s.len() ==> !key_le(
            sort_key(s[insert_pos(s, kv, field, asc)], field),
            kv,
            asc,
        ),
    decreases s.len(),
{
    if s.len() > 0 && key_le(sort_key(s[0], field), kv, asc) {
        lemma_insert_pos(s.drop_first(), kv, field, asc);
        assert forall|j: int| 0 <= j < insert_pos(s, kv, field, asc) implies key_le(
            sort_key(#[trigger] s[j], field),
            kv,
            asc,
        ) by {
            if j > 0 {
                assert(s.drop_first()[j - 1] == s[j]);
            }
        }
        if insert_pos(s, kv, field, asc) < s.len() {
            assert(s.drop_first()[insert_pos(s.drop_first(), kv, field, asc)] == s[insert_pos(
                s,
                kv,
                field,
                asc,
            )]);
        }
    }
}

/// Inserting into a sorted sequence keeps it sorted.
pub proof fn lemma_stable_insert_sorted(s: Seq<JsonVal>, v: JsonVal, field: Seq<u8>, asc: bool)
    requires
        sorted_by_key(s, field, asc),
    ensures
        sorted_by_key(stable_insert(s, v, field, asc), field, asc),
{
    let kv = sort_key(v, field);
    let p = insert_pos(s, kv, field, asc);
    lemma_insert_pos(s, kv, field, asc);
    let out = stable_insert(s, v, field, asc);
    assert forall|i: int, j: int| 0 <= i < j < out.len() implies key_le(
        sort_key(#[trigger] out[i], field),
        sort_key(#[trigger] out[j], field),
        asc,
    ) by {
        let oi = if i < p {
            s[i]
        } else if i == p {
            v
        } else {
            s[i - 1]
        };
        let oj = if j < p {
            s[j]
        } else if j == p {
            v
        } else {
            s[j - 1]
        };
        assert(out[i] == oi);
        assert(out[j] == oj);
        if i == p {
            // v against a later element of s: the element at the insertion
            // point comes after v, and everything past it comes after that.
            lemma_key_le_total(sort_key(s[p], field), kv, asc);
            if j > p + 1 {
                lemma_key_le_trans(kv, sort_key(s[p], field), sort_key(s[j - 1], field), asc);
            }
        }
        // in every other case both records come from s, or the earlier one
        // stands before the insertion point, where its key precedes kv
    }
}

/// No element passes the filter, so the filter is empty.
proof fn lemma_filter_all_fail<A>(s: Seq<A>, pred: spec_fn(A) -> bool)
    requires
        forall|i: int| 0 <= i < s.len() ==> !pred(#[trigger] s[i]),
    ensures
        s.filter(pred) == Seq::<A>::empty(),
    decreases s.len(),
{
    reveal(Seq::filter);
    if s.len() > 0 {
        lemma_filter_all_fail(s.drop_last(), pred);
    }
}

/// Those records whose key at `field` is exactly `k`, in order.
pub open spec fn key_filter(s: Seq<JsonVal>, field: Seq<u8>, k: Seq<u8>) -> Seq<JsonVal> {
    s.filter(|x: JsonVal| sort_key(x, field) == k)
}

/// A stable insertion appends to each key class: the class of the inserted
/// record's own key gains it at the end, every other class is untouched.
pub proof fn lemma_stable_insert_key_filter(
    s: Seq<JsonVal>,
    v: JsonVal,
    field: Seq<u8>,
    asc: bool,
    k: Seq<u8>,
)
    requires
        sorted_by_key(s, field, asc),
    ensures
        key_filter(stable_insert(s, v, field, asc), field, k) == key_filter(s, field, k) + (
        if sort_key(v, field) == k {
            seq![v]
        } else {
            Seq::<JsonVal>::empty()
        }),
{
    let pred = |x: JsonVal| sort_key(x, field) == k;
    let kv = sort_key(v, field);
    let p = insert_pos(s, kv, field, asc);
    lemma_insert_pos(s, kv, field, asc);
    let a = s.take(p);
    let b = s.skip(p);
    assert((a + seq![v] + b).filter(pred) == a.filter(pred) + seq![v].filter(pred) + b.filter(
        pred,
    ));
    assert(a + b =~= s);
    assert(s.filter(pred) == a.filter(pred) + b.filter(pred));
    assert(seq![v].filter(pred) == (if pred(v) {
        seq![v]
    } else {
        Seq::<JsonVal>::empty()
    })) by {
        reveal_with_fuel(Seq::filter, 2);
        assert(seq![v].drop_last() =~= Seq::<JsonVal>::empty());
        assert(seq![v].last() == v);
    }
    if pred(v) {
        // no element at or past the insertion point shares the key
        assert forall|i: int| 0 <= i < b.len() implies !pred(#[trigger] b[i]) by {
            assert(b[i] == s[p + i]);
            if i > 0 {
                // sorted: key(s[p]) <= key(s[p + i]); if the latter were kv,
                // key(s[p]) <= kv would contradict the insertion position.
                assert(key_le(sort_key(s[p], field), sort_key(s[p + i], field), asc));
            }
            if sort_key(s[p + i], field) == k {
                lemma_lex_le_refl_key(sort_key(s[p], field), asc);
            }
        }
        lemma_filter_all_fail(b, pred);
        assert(key_filter(stable_insert(s, v, field, asc), field, k) =~= key_filter(s, field, k)
            + seq![v]);
    } else {
        assert(key_filter(stable_insert(s, v, field, asc), field, k) =~= key_filter(
            s,
            field,
            k,
        ) + Seq::<JsonVal>::empty());
    }
}

/// `key_le` is reflexive.
proof fn lemma_lex_le_refl_key(a: Seq<u8>, asc: bool)
    ensures
        key_le(a, a, asc),
{
    lemma_lex_le_total(a, a);
}

/// The sort is a permutation: the multiset of records is unchanged.
pub proof fn lemma_sort_records_multiset(records: Seq<JsonVal>, field: Seq<u8>, asc: bool)
    ensures
        sort_records(records, field, asc).to_multiset() == records.to_multiset(),
    decreases records.len(),
{
    broadcast use vstd::seq_lib::group_to_multiset_ensures;

    if records.len() > 0 {
        let prefix = records.drop_last();
        let v = records.last();
        lemma_sort_records_multiset(prefix, field, asc);
        let st = sort_records(prefix, field, asc);
        let kv = sort_key(v, field);
        let p = insert_pos(st, kv, field, asc);
        lemma_insert_pos(st, kv, field, asc);
        lemma_multiset_commutative(st.take(p) + seq![v], st.skip(p));
        lemma_multiset_commutative(st.take(p), seq![v]);
        lemma_multiset_commutative(st.take(p), st.skip(p));
        assert(st.take(p) + st.skip(p) =~= st);
        assert(records =~= prefix.push(v));
        assert(seq![v] =~= Seq::<JsonVal>::empty().push(v));
        assert(Seq::<JsonVal>::empty().to_multiset() =~= Multiset::<JsonVal>::empty());
        assert(stable_insert(st, v, field, asc).to_multiset() =~= records.to_multiset());
    } else {
        assert(sort_records(records, field, asc).to_multiset() =~= records.to_multiset());
    }
}

/// The sort leaves the records in key order.
pub proof fn lemma_sort_records_sorted(records: Seq<JsonVal>, field: Seq<u8>, asc: bool)
    ensures
        sorted_by_key(sort_records(records, field, asc), field, asc),
    decreases records.len(),
{
    if records.len() > 0 {
        lemma_sort_records_sorted(records.drop_last(), field, asc);
        lemma_stable_insert_sorted(
            sort_records(records.drop_last(), field, asc),
            records.last(),
            field,
            asc,
        );
    }
}

/// The sort is stable: the records of any one key keep their original
/// relative order — under both directions, since the tie-break never
/// reverses.
pub proof fn lemma_sort_records_stable(records: Seq<JsonVal>, field: Seq<u8>, asc: bool, k: Seq<u8>)
    ensures
        key_filter(sort_records(records, field, asc), field, k) == key_filter(records, field, k),
    decreases records.len(),
{
    let pred = |x: JsonVal| sort_key(x, field) == k;
    if records.len() == 0 {
        reveal_with_fuel(Seq::filter, 1);
    } else {
        let prefix = records.drop_last();
        let v = records.last();
        lemma_sort_records_stable(prefix, field, asc, k);
        lemma_sort_records_sorted(prefix, field, asc);
        lemma_stable_insert_key_filter(sort_records(prefix, field, asc), v, field, asc, k);
        assert(records =~= prefix + seq![v]);
        assert(records.filter(pred) == prefix.filter(pred) + seq![v].filter(pred));
        assert(seq![v].filter(pred) == (if pred(v) {
            seq![v]
        } else {
            Seq::<JsonVal>::empty()
        })) by {
            reveal_with_fuel(Seq::filter, 2);
            assert(seq![v].drop_last() =~= Seq::<JsonVal>::empty());
            assert(seq![v].last() == v);
        }
        assert(key_filter(records, field, k) =~= key_filter(sort_records(records, field, asc), field, k));
    }
}

} // verus!

// ---------------------------------------------------------------------------
// The executable sort.
// ---------------------------------------------------------------------------

verus! {

/// Inserting a stored value inserts its model.
proof fn lemma_views_of_insert(items: Seq<JsonValue>, pos: int, v: JsonValue)
    requires
        0 <= pos <= items.len(),
    ensures
        views_of(items.insert(pos, v)) == views_of(items).insert(pos, view_of(v)),
{
    lemma_views_of(items);
    lemma_views_of(items.insert(pos, v));
    assert(views_of(items.insert(pos, v)) =~= views_of(items).insert(pos, view_of(v)));
}

/// A position that looks like the insertion position is the insertion
/// position.
proof fn lemma_insert_pos_unique(s: Seq<JsonVal>, kv: Seq<u8>, field: Seq<u8>, asc: bool, pos: int)
    requires
        0 <= pos <= s.len(),
        forall|j: int| 0 <= j < pos ==> key_le(sort_key(#[trigger] s[j], field), kv, asc),
        pos < s.len() ==> !key_le(sort_key(s[pos], field), kv, asc),
    ensures
        insert_pos(s, kv, field, asc) == pos,
{
    lemma_insert_pos(s, kv, field, asc);
    let p = insert_pos(s, kv, field, asc);
    if p < pos {
        assert(key_le(sort_key(s[p], field), kv, asc));
        assert(false);
    }
    if p > pos {
        assert(key_le(sort_key(s[pos], field), kv, asc));
        assert(false);
    }
}

/// Decide [`key_le`].
fn key_le_dec(a: &Vec<u8>, b: &Vec<u8>, ascending: bool) -> (r: bool)
    ensures
        r == key_le(a@, b@, ascending),
{
    if ascending {
        bytes_le(a.as_slice(), b.as_slice())
    } else {
        bytes_le(b.as_slice(), a.as_slice())
    }
}

/// Sort the records stably by the textual value at `field`: precisely
/// [`sort_records`] on the model, which is sorted (`sorted_by_key`), a
/// permutation of the input, and stable (`key_filter` is preserved; see
/// [`lemma_sort_records_stable`]).
pub fn sort_by_field(records: Vec<JsonValue>, field: &[u8], ascending: bool) -> (r: Vec<JsonValue>)
    ensures
        views_of(r@) == sort_records(views_of(records@), field@, ascending),
{
    let ghost orig = records@;
    let mut input = records;
    let mut stack: Vec<JsonValue> = Vec::new();
    proof {
        assert(orig.take(orig.len() as int) =~= orig);
        assert(orig.skip(orig.len() as int).reverse() =~= Seq::<JsonValue>::empty());
    }
    loop
        invariant
            input@.len() <= orig.len(),
            input@ == orig.take(input@.len() as int),
            stack@ == orig.skip(input@.len() as int).reverse(),
        ensures
            stack@ == orig.reverse(),
        decreases input@.len(),
    {
        proof {
            assert(orig.take(orig.len() as int) =~= orig);
        }
        let ghost n0 = input@.len() as int;
        match input.pop() {
            None => {
                proof {
                    assert(orig.skip(0) =~= orig);
                }
                break;
            },
            Some(v) => {
                stack.push(v);
                proof {
                    assert(input@ =~= orig.take(n0 - 1));
                    assert(stack@ =~= orig.skip(n0 - 1).reverse());
                }
            },
        }
    }
    let mut out: Vec<JsonValue> = Vec::new();
    proof {
        assert(orig.skip(0) =~= orig);
        assert(orig.take(0) =~= Seq::<JsonValue>::empty());
        assert(views_of(orig.take(0)) =~= Seq::<JsonVal>::empty());
        assert(views_of(out@) =~= Seq::<JsonVal>::empty());
    }
    loop
        invariant
            stack@.len() <= orig.len(),
            stack@ == orig.skip((orig.len() - stack@.len()) as int).reverse(),
            views_of(out@) == sort_records(
                views_of(orig.take((orig.len() - stack@.len()) as int)),
                field@,
                ascending,
            ),
        ensures
            views_of(out@) == sort_records(views_of(orig), field@, ascending),
        decreases stack@.len(),
    {
        let ghost done = (orig.len() - stack@.len()) as int;
        match stack.pop() {
            None => {
                proof {
                    assert(orig.take(orig.len() as int) =~= orig);
                }
                break;
            },
            Some(v) => {
                proof {
                    assert(orig.skip(done).reverse().last() == orig.skip(done)[0]);
                    assert(orig.skip(done)[0] == orig[done]);
                    assert(stack@ =~= orig.skip(done + 1).reverse());
                }
                // v == orig[done]
                let kv = sort_key_of(&v, field);
                let mut pos: usize = 0;
                loop
                    invariant
                        pos <= out@.len(),
                        kv@ == sort_key(v@, field@),
                        forall|j: int|
                            0 <= j < pos ==> key_le(
                                sort_key(#[trigger] views_of(out@)[j], field@),
                                kv@,
                                ascending,
                            ),
                    ensures
                        pos <= out@.len(),
                        forall|j: int|
                            0 <= j < pos ==> key_le(
                                sort_key(#[trigger] views_of(out@)[j], field@),
                                kv@,
                                ascending,
                            ),
                        pos < out@.len() ==> !key_le(
                            sort_key(views_of(out@)[pos as int], field@),
                            kv@,
                            ascending,
                        ),
                    decreases out@.len() - pos,
                {
                    proof {
                        lemma_views_of(out@);
                    }
                    if pos == out.len() {
                        break;
                    }
                    let ko = sort_key_of(&out[pos], field);
                    if !key_le_dec(&ko, &kv, ascending) {
                        break;
                    }
                    pos = pos + 1;
                }
                let ghost out0 = out@;
                let ghost vv = v@;
                proof {
                    lemma_views_of(out@);
                    lemma_insert_pos_unique(views_of(out@), kv@, field@, ascending, pos as int);
                    lemma_views_of_insert(out@, pos as int, v);
                }
                out.insert(pos, v);
                proof {
                    assert(views_of(out@) == views_of(out0).insert(pos as int, vv));
                    assert(views_of(out0).insert(pos as int, vv) =~= views_of(out0).take(
                        pos as int,
                    ) + seq![vv] + views_of(out0).skip(pos as int));
                    assert(views_of(out@) == stable_insert(views_of(out0), vv, field@, ascending));
                    // one more record has been folded into the sorted prefix
                    let rs = views_of(orig.take(done + 1));
                    lemma_views_of(orig.take(done + 1));
                    lemma_views_of(orig.take(done));
                    assert(rs.drop_last() =~= views_of(orig.take(done)));
                    assert(rs.last() == vv);
                    assert(views_of(out@) == sort_records(
                        views_of(orig.take(done + 1)),
                        field@,
                        ascending,
                    ));
                }
            },
        }
    }
    out
}

} // verus!
