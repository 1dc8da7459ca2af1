//! The engine: a three-phase pipeline over one record collection.
//!
//! Phase one ingests compressed chunks of a JSON array, appending each
//! chunk's records to the buffer in arrival order.  Phase two applies one
//! declarative action to the whole buffer, installs the result, and stages
//! its serialized text with the read cursor reset.  Phase three hands the
//! staged text back out in bounded-size chunks.  Every operation that can
//! fail returns a sentinel and leaves a message in the error register,
//! which holds only the most recent message.
//!
//! The state is one explicit instance rather than a process global: one
//! caller (or callers sequenced by the host) drives it through `&mut`, so
//! the phases cannot interleave.

use vstd::prelude::*;
use vstd::utf8::{decode_utf8_encode_utf8, encode_utf8, valid_utf8};
use crate::action::apply_action;
use crate::codec::gunzip_of;
use crate::parse::{json_records, parse_json};
use crate::ser::{ser_records, serialize_records};
use crate::value::{lemma_views_of_concat, views_of, JsonVal, JsonValue};

verus! {

/// The abstract state of an engine.
pub struct EngineView {
    /// The record buffer, in arrival order.
    pub buffer: Seq<JsonVal>,
    /// The staged output text, if an action cycle has produced one.
    pub staged: Option<Seq<u8>>,
    /// The read position within the staged text.
    pub cursor: int,
    /// The most recent error message; empty if none was ever set.
    pub last_error: Seq<char>,
}

/// One engine instance: buffer, staging area, and error register.
pub struct Engine {
    buffer: Vec<JsonValue>,
    staged: Option<Vec<u8>>,
    cursor: usize,
    last_error: String,
}

impl View for Engine {
    type V = EngineView;

    closed spec fn view(&self) -> EngineView {
        EngineView {
            buffer: views_of(self.buffer@),
            staged: match self.staged {
                Some(t) => Some(t@),
                None => None,
            },
            cursor: self.cursor as int,
            last_error: self.last_error@,
        }
    }
}

/// The records carried by one compressed chunk: the chunk must decode as
/// gzip, the decoded bytes must be text, and the text must be a JSON array;
/// the array's elements are the records.
pub open spec fn chunk_records(chunk: Seq<u8>) -> Option<Seq<JsonVal>> {
    match gunzip_of(chunk) {
        Some(d) => if valid_utf8(d) {
            json_records(d)
        } else {
            None
        },
        None => None,
    }
}

/// The parsed parameter payload of an action call.
pub open spec fn params_of(params: Seq<char>) -> Option<JsonVal> {
    parse_json(encode_utf8(params))
}

/// The message left when a chunk fails to decompress or is not text.
pub open spec fn decode_error_msg() -> Seq<char> {
    "DecodeError: chunk is not a well-formed compressed text"@
}

/// The message left when decompressed text is not a JSON array.
pub open spec fn format_error_msg() -> Seq<char> {
    "FormatError: decompressed text is not a JSON array"@
}

/// The message left when an action's parameter payload is not valid JSON.
pub open spec fn params_error_msg() -> Seq<char> {
    "MalformedActionParameters: parameter payload is not valid JSON"@
}

impl Engine {
    /// A fresh engine: empty buffer, nothing staged, no error recorded.
    pub fn new() -> (r: Engine)
        ensures
            r@.buffer == Seq::<JsonVal>::empty(),
            r@.staged is None,
            r@.cursor == 0,
            r@.last_error == Seq::<char>::empty(),
    {
        let r = Engine { buffer: Vec::new(), staged: None, cursor: 0, last_error: String::new() };
        proof {
            assert(views_of(r.buffer@) =~= Seq::<JsonVal>::empty());
        }
        r
    }

    /// The current record buffer.
    pub fn records(&self) -> (r: &Vec<JsonValue>)
        ensures
            views_of(r@) == self@.buffer,
    {
        &self.buffer
    }

    /// The most recent error message; empty if nothing has failed yet.
    pub fn get_last_error(&self) -> (r: String)
        ensures
            r@ == self@.last_error,
    {
        self.last_error.clone()
    }

    /// Ingest one compressed chunk: decompress it to text, parse the text
    /// as a JSON array, and append the array's records to the buffer.  On
    /// any failure nothing is appended, `false` comes back, and the error
    /// register says whether decoding or the array shape was at fault.
    pub fn ingest_chunk(&mut self, chunk: &[u8]) -> (ok: bool)
        ensures
            ok == (chunk_records(chunk@) is Some),
            ok ==> (chunk_records(chunk@) matches Some(rs) && final(self)@.buffer == old(self)@.buffer
                + rs),
            ok ==> final(self)@.staged == old(self)@.staged && final(self)@.cursor == old(self)@.cursor && final(self)@.last_error == old(self)@.last_error,
            !ok ==> final(self)@.buffer == old(self)@.buffer && final(self)@.staged == old(self)@.staged && final(self)@.cursor == old(self)@.cursor,
            !ok ==> final(self)@.last_error == (
            if gunzip_of(chunk@) matches Some(d) && valid_utf8(d) {
                format_error_msg()
            } else {
                decode_error_msg()
            }),
            !ok ==> final(self)@.last_error.len() > 0,
    {
        match crate::codec::decompress_json(chunk) {
            Err(_) => {
                self.last_error = "DecodeError: chunk is not a well-formed compressed text"
                    .to_owned();
                proof {
                    reveal_strlit("DecodeError: chunk is not a well-formed compressed text");
                }
                false
            },
            Ok(text) => {
                let bytes = vstd::string::StrSliceExecFns::as_bytes_vec(text.as_str());
                proof {
                    match gunzip_of(chunk@) {
                        Some(d) => {
                            decode_utf8_encode_utf8(d);
                            assert(bytes@ == d);
                        },
                        None => {
                            assert(false);
                        },
                    }
                }
                match crate::parse::parse_record_array(bytes.as_slice()) {
                    Some(mut records) => {
                        let ghost buf0 = self.buffer@;
                        let ghost rec0 = records@;
                        self.buffer.append(&mut records);
                        proof {
                            lemma_views_of_concat(buf0, rec0);
                        }
                        true
                    },
                    None => {
                        self.last_error = "FormatError: decompressed text is not a JSON array"
                            .to_owned();
                        proof {
                            reveal_strlit("FormatError: decompressed text is not a JSON array");
                        }
                        false
                    },
                }
            },
        }
    }

    /// Run one action cycle: parse the parameter payload, apply the named
    /// action to the whole buffer, install the result, and stage its
    /// serialized text with the cursor reset.  A payload that is not valid
    /// JSON changes nothing, returns `false`, and records the parameter
    /// error; an unknown action name is not an error — it stages the buffer
    /// unchanged.
    pub fn run_action(&mut self, action: &str, params: &str) -> (ok: bool)
        ensures
            ok == (params_of(params@) is Some),
            ok ==> (params_of(params@) matches Some(pv) && {
                &&& final(self)@.buffer == apply_action(action@, pv, old(self)@.buffer)
                &&& final(self)@.staged == Some(ser_records(final(self)@.buffer))
                &&& final(self)@.cursor == 0
                &&& final(self)@.last_error == old(self)@.last_error
            }),
            !ok ==> final(self)@ == (EngineView { last_error: params_error_msg(), ..old(self)@ }),
            !ok ==> final(self)@.last_error.len() > 0,
    {
        let pbytes = params.as_bytes();
        match crate::parse::parse_json_text(pbytes) {
            None => {
                self.last_error =
                    "MalformedActionParameters: parameter payload is not valid JSON".to_owned();
                proof {
                    reveal_strlit(
                        "MalformedActionParameters: parameter payload is not valid JSON",
                    );
                }
                false
            },
            Some(pv) => {
                let mut buf: Vec<JsonValue> = Vec::new();
                core::mem::swap(&mut self.buffer, &mut buf);
                let transformed = crate::action::run_apply(action, &pv, buf);
                self.buffer = transformed;
                let staged_text = serialize_records(&self.buffer);
                self.staged = Some(staged_text);
                self.cursor = 0;
                true
            },
        }
    }

    /// Pull the next chunk of staged text: up to `max_len` bytes from the
    /// cursor.  With nothing staged, or the cursor at or past the end, the
    /// result is `(empty, false)`; otherwise the copied bytes come back
    /// with `true` and the cursor advances by exactly the bytes copied, so
    /// that repeated calls reconstruct the staged text (see
    /// [`lemma_extraction_reconstructs`]).
    pub fn next_output_chunk(&mut self, max_len: usize) -> (r: (Vec<u8>, bool))
        ensures
            old(self)@.staged is None ==> r.0@ == Seq::<u8>::empty() && r.1 == false && final(self)@ == old(self)@,
            old(self)@.staged matches Some(t) ==> old(self)@.cursor >= t.len() ==> (r.0@ == Seq::<
                u8,
            >::empty() && r.1 == false && final(self)@ == old(self)@),
            old(self)@.staged matches Some(t) ==> old(self)@.cursor < t.len() ==> {
                let n = if max_len <= t.len() - old(self)@.cursor {
                    max_len as int
                } else {
                    t.len() - old(self)@.cursor
                };
                &&& r.0@ == t.subrange(old(self)@.cursor, old(self)@.cursor + n)
                &&& r.1 == true
                &&& final(self)@ == (EngineView { cursor: old(self)@.cursor + n, ..old(self)@ })
            },
    {
        match &self.staged {
            None => (Vec::new(), false),
            Some(t) => {
                if self.cursor >= t.len() {
                    return (Vec::new(), false);
                }
                let remaining = t.len() - self.cursor;
                let n = if max_len <= remaining {
                    max_len
                } else {
                    remaining
                };
                let chunk = vstd::slice::slice_to_vec(
                    vstd::slice::slice_subrange(t.as_slice(), self.cursor, self.cursor + n),
                );
                self.cursor = self.cursor + n;
                (chunk, true)
            },
        }
    }

    /// Like [`Engine::next_output_chunk`], but the cursor advances by the
    /// requested length rather than by the bytes actually copied, so a
    /// short final chunk leaves the cursor past the end (clamped only at
    /// the integer limit).  Every later call then finds the cursor at or
    /// past the end either way, so the two variants hand out the same
    /// bytes; this one exists so that the cursor arithmetic itself is
    /// pinned down and testable.
    pub fn next_output_chunk_skipping(&mut self, max_len: usize) -> (r: (Vec<u8>, bool))
        ensures
            old(self)@.staged is None ==> r.0@ == Seq::<u8>::empty() && r.1 == false && final(self)@ == old(self)@,
            old(self)@.staged matches Some(t) ==> old(self)@.cursor >= t.len() ==> (r.0@ == Seq::<
                u8,
            >::empty() && r.1 == false && final(self)@ == old(self)@),
            old(self)@.staged matches Some(t) ==> old(self)@.cursor < t.len() ==> {
                let n = if max_len <= t.len() - old(self)@.cursor {
                    max_len as int
                } else {
                    t.len() - old(self)@.cursor
                };
                let advanced = if old(self)@.cursor + max_len <= usize::MAX {
                    old(self)@.cursor + max_len
                } else {
                    usize::MAX as int
                };
                &&& r.0@ == t.subrange(old(self)@.cursor, old(self)@.cursor + n)
                &&& r.1 == true
                &&& final(self)@ == (EngineView { cursor: advanced, ..old(self)@ })
            },
    {
        match &self.staged {
            None => (Vec::new(), false),
            Some(t) => {
                if self.cursor >= t.len() {
                    return (Vec::new(), false);
                }
                let remaining = t.len() - self.cursor;
                let n = if max_len <= remaining {
                    max_len
                } else {
                    remaining
                };
                let chunk = vstd::slice::slice_to_vec(
                    vstd::slice::slice_subrange(t.as_slice(), self.cursor, self.cursor + n),
                );
                self.cursor = if max_len <= usize::MAX - self.cursor {
                    self.cursor + max_len
                } else {
                    usize::MAX
                };
                (chunk, true)
            },
        }
    }

    /// Replace the whole record buffer atomically; staging, cursor and the
    /// error register stay.  This is how a host installs an externally
    /// transformed collection.
    pub fn replace_records(&mut self, records: Vec<JsonValue>)
        ensures
            final(self)@ == (EngineView { buffer: views_of(records@), ..old(self)@ }),
    {
        self.buffer = records;
    }

    /// Serialize the current buffer into the staging area and reset the
    /// cursor, overwriting any previously staged text.
    pub fn stage_output(&mut self)
        ensures
            final(self)@ == (EngineView {
                staged: Some(ser_records(old(self)@.buffer)),
                cursor: 0,
                ..old(self)@
            }),
    {
        let staged_text = serialize_records(&self.buffer);
        self.staged = Some(staged_text);
        self.cursor = 0;
    }

    /// Clear the staging area and reset the cursor; the buffer and error
    /// register stay.  Idempotent: the resulting state does not depend on
    /// what was staged.
    pub fn finalize_output(&mut self)
        ensures
            final(self)@ == (EngineView { staged: None, cursor: 0, ..old(self)@ }),
    {
        self.staged = None;
        self.cursor = 0;
    }
}

/// The buffer after ingesting a sequence of chunk record-lists into `start`,
/// one `ingest_chunk` at a time.
pub open spec fn ingest_all(start: Seq<JsonVal>, chunks: Seq<Seq<JsonVal>>) -> Seq<JsonVal>
    decreases chunks.len(),
{
    if chunks.len() == 0 {
        start
    } else {
        ingest_all(start + chunks[0], chunks.drop_first())
    }
}

/// Chunkwise ingestion appends the concatenation of the chunks.
pub proof fn lemma_ingest_all_appends(start: Seq<JsonVal>, chunks: Seq<Seq<JsonVal>>)
    ensures
        ingest_all(start, chunks) == start + chunks.flatten(),
    decreases chunks.len(),
{
    if chunks.len() == 0 {
        assert(start + chunks.flatten() =~= start);
    } else {
        lemma_ingest_all_appends(start + chunks[0], chunks.drop_first());
        assert((start + chunks[0]) + chunks.drop_first().flatten() =~= start + (chunks[0]
            + chunks.drop_first().flatten()));
    }
}

/// Ingesting a partition of a record collection chunk by chunk, then
/// applying an action, gives the same result as ingesting the whole
/// collection in one call: the buffer an action sees depends only on the
/// concatenation of the chunks' records.
pub proof fn lemma_partitioned_ingest_action(
    name: Seq<char>,
    params: JsonVal,
    chunks: Seq<Seq<JsonVal>>,
)
    ensures
        apply_action(name, params, ingest_all(Seq::empty(), chunks)) == apply_action(
            name,
            params,
            chunks.flatten(),
        ),
{
    lemma_ingest_all_appends(Seq::empty(), chunks);
    assert(Seq::<JsonVal>::empty() + chunks.flatten() =~= chunks.flatten());
}

/// The bytes that repeated `next_output_chunk(max_len)` calls return, from
/// `cursor` until `has_more` turns false: each unfolding is one call's
/// contract.
pub open spec fn drained(text: Seq<u8>, cursor: int, max_len: int) -> Seq<u8>
    decreases text.len() - cursor,
{
    if cursor < 0 || cursor >= text.len() || max_len < 1 {
        Seq::empty()
    } else {
        let n = if max_len <= text.len() - cursor {
            max_len
        } else {
            text.len() - cursor
        };
        text.subrange(cursor, cursor + n) + drained(text, cursor + n, max_len)
    }
}

/// From any cursor, repeated extraction returns exactly the rest of the
/// staged text.
pub proof fn lemma_drained_suffix(text: Seq<u8>, cursor: int, max_len: int)
    requires
        0 <= cursor <= text.len(),
        max_len >= 1,
    ensures
        drained(text, cursor, max_len) == text.skip(cursor),
    decreases text.len() - cursor,
{
    if cursor >= text.len() {
        assert(text.skip(cursor) =~= Seq::<u8>::empty());
    } else {
        let n = if max_len <= text.len() - cursor {
            max_len as int
        } else {
            text.len() - cursor
        };
        lemma_drained_suffix(text, cursor + n, max_len);
        assert(text.subrange(cursor, cursor + n) + text.skip(cursor + n) =~= text.skip(cursor));
    }
}

/// Pulling chunks of any positive size until `has_more` turns false
/// reconstructs the full staged text.
pub proof fn lemma_extraction_reconstructs(text: Seq<u8>, max_len: int)
    requires
        max_len >= 1,
    ensures
        drained(text, 0, max_len) == text,
{
    lemma_drained_suffix(text, 0, max_len);
    assert(text.skip(0) =~= text);
}

} // verus!
