//! Serialization of values back to JSON text.
//!
//! The output is compact (no added whitespace) and reproduces number and
//! string literals exactly as they were stored, so serializing a parsed
//! document is lossless.

use vstd::prelude::*;
use crate::value::{member_views_of, view_of, views_of, JsonVal, JsonValue};
use crate::bytestr::push_bytes;

verus! {

/// `null` as bytes.
pub open spec fn null_bytes() -> Seq<u8> {
    seq![110u8, 117u8, 108u8, 108u8]
}

/// `true` as bytes.
pub open spec fn true_bytes() -> Seq<u8> {
    seq![116u8, 114u8, 117u8, 101u8]
}

/// `false` as bytes.
pub open spec fn false_bytes() -> Seq<u8> {
    seq![102u8, 97u8, 108u8, 115u8, 101u8]
}

/// The serialized text of one value.
pub open spec fn ser_value(v: JsonVal) -> Seq<u8>
    decreases v, 1int,
{
    match v {
        JsonVal::Null => null_bytes(),
        JsonVal::Bool(b) => if b {
            true_bytes()
        } else {
            false_bytes()
        },
        JsonVal::Num(n) => n,
        JsonVal::Str(s) => seq![34u8] + s + seq![34u8],  // "..."
        JsonVal::Arr(items) => seq![91u8] + ser_items(items) + seq![93u8],  // [...]
        JsonVal::Obj(members) => seq![123u8] + ser_members(members) + seq![125u8],  // {...}
    }
}

/// Comma-separated serialized array items.
pub open spec fn ser_items(items: Seq<JsonVal>) -> Seq<u8>
    decreases items, 0int,
{
    if items.len() == 0 {
        Seq::empty()
    } else if items.len() == 1 {
        ser_value(items[0])
    } else {
        ser_value(items[0]) + seq![44u8]  // ,
         + ser_items(items.subrange(1, items.len() as int))
    }
}

/// Comma-separated serialized object members, `"key":value` each.
pub open spec fn ser_members(members: Seq<(Seq<u8>, JsonVal)>) -> Seq<u8>
    decreases members, 0int,
{
    if members.len() == 0 {
        Seq::empty()
    } else {
        let head = seq![34u8] + members[0].0 + seq![34u8, 58u8]  // "key":
         + ser_value(members[0].1);
        if members.len() == 1 {
            head
        } else {
            head + seq![44u8] + ser_members(members.subrange(1, members.len() as int))
        }
    }
}

/// The staged output text of a record buffer: the records as one JSON array.
pub open spec fn ser_records(records: Seq<JsonVal>) -> Seq<u8> {
    ser_value(JsonVal::Arr(records))
}

/// Append the serialized text of `v` to `out`.
pub fn write_value(v: &JsonValue, out: &mut Vec<u8>)
    ensures
        final(out)@ == old(out)@ + ser_value(v@),
    decreases *v, 1int,
{
    match v {
        JsonValue::Null => {
            out.push(110);
            out.push(117);
            out.push(108);
            out.push(108);
            proof {
                assert(out@ =~= old(out)@ + ser_value(v@));
            }
        },
        JsonValue::Bool(b) => {
            if *b {
                out.push(116);
                out.push(114);
                out.push(117);
                out.push(101);
            } else {
                out.push(102);
                out.push(97);
                out.push(108);
                out.push(115);
                out.push(101);
            }
            proof {
                assert(out@ =~= old(out)@ + ser_value(v@));
            }
        },
        JsonValue::Num(n) => {
            push_bytes(out, n.as_slice());
        },
        JsonValue::Str(s) => {
            out.push(34);
            push_bytes(out, s.as_slice());
            out.push(34);
            proof {
                assert(out@ =~= old(out)@ + ser_value(v@));
            }
        },
        JsonValue::Arr(items) => {
            out.push(91);
            write_items(items.as_slice(), out);
            out.push(93);
            proof {
                assert(out@ =~= old(out)@ + ser_value(v@));
            }
        },
        JsonValue::Obj(members) => {
            out.push(123);
            write_members(members.as_slice(), out);
            out.push(125);
            proof {
                assert(out@ =~= old(out)@ + ser_value(v@));
            }
        },
    }
}

/// Append the comma-separated serialized items to `out`.
fn write_items(items: &[JsonValue], out: &mut Vec<u8>)
    ensures
        final(out)@ == old(out)@ + ser_items(views_of(items@)),
    decreases items@, 0int,
{
    if items.len() == 0 {
        return ;
    }
    proof {
        crate::value::lemma_views_of(items@);
        assert(views_of(items@)[0] == view_of(items@[0]));
    }
    write_value(&items[0], out);
    if items.len() > 1 {
        out.push(44);
        let rest = vstd::slice::slice_subrange(items, 1, items.len());
        proof {
            lemma_views_of_subrange(items@, 1, items@.len() as int);
        }
        write_items(rest, out);
    }
    proof {
        assert(out@ =~= old(out)@ + ser_items(views_of(items@)));
    }
}

/// The item views of a subrange are the subrange of the item views.
proof fn lemma_views_of_subrange(items: Seq<JsonValue>, i: int, j: int)
    requires
        0 <= i <= j <= items.len(),
    ensures
        views_of(items.subrange(i, j)) == views_of(items).subrange(i, j),
{
    crate::value::lemma_views_of(items);
    crate::value::lemma_views_of(items.subrange(i, j));
    assert(views_of(items.subrange(i, j)) =~= views_of(items).subrange(i, j));
}

/// The member views of a subrange are the subrange of the member views.
proof fn lemma_member_views_of_subrange(members: Seq<(Vec<u8>, JsonValue)>, i: int, j: int)
    requires
        0 <= i <= j <= members.len(),
    ensures
        member_views_of(members.subrange(i, j)) == member_views_of(members).subrange(i, j),
{
    crate::value::lemma_member_views_of(members);
    crate::value::lemma_member_views_of(members.subrange(i, j));
    assert(member_views_of(members.subrange(i, j)) =~= member_views_of(members).subrange(i, j));
}

/// Append the comma-separated serialized members to `out`.
fn write_members(members: &[(Vec<u8>, JsonValue)], out: &mut Vec<u8>)
    ensures
        final(out)@ == old(out)@ + ser_members(member_views_of(members@)),
    decreases members@, 0int,
{
    if members.len() == 0 {
        return ;
    }
    proof {
        crate::value::lemma_member_views_of(members@);
    }
    out.push(34);
    push_bytes(out, members[0].0.as_slice());
    out.push(34);
    out.push(58);
    write_value(&members[0].1, out);
    if members.len() > 1 {
        out.push(44);
        let rest = vstd::slice::slice_subrange(members, 1, members.len());
        proof {
            lemma_member_views_of_subrange(members@, 1, members@.len() as int);
        }
        write_members(rest, out);
    }
    proof {
        assert(out@ =~= old(out)@ + ser_members(member_views_of(members@)));
    }
}

/// Serialize a record buffer to its staged output text: one JSON array.
pub fn serialize_records(records: &Vec<JsonValue>) -> (r: Vec<u8>)
    ensures
        r@ == ser_records(views_of(records@)),
{
    let mut out: Vec<u8> = Vec::new();
    out.push(91);
    write_items(records.as_slice(), &mut out);
    out.push(93);
    proof {
        assert(out@ =~= ser_records(views_of(records@)));
    }
    out
}

} // verus!
