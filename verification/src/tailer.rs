//! Incremental tailing of an append-only JSON-lines stream.  Only whole,
//! newline-terminated, JSON-valid records are consumed; a trailing partial
//! line or an unparsable line is left for a later poll, so a record is
//! never skipped or half-consumed while the producer is mid-write.

use vstd::prelude::*;

use vstd::utf8::decode_utf8;
use vstd::utf8::valid_utf8;

use crate::json::JsonValue;
use crate::outside::json_of;
use crate::outside::bytes_to_string;
use crate::outside::parse_json;
use crate::text::trim_spec;
use crate::text::trim_str;

verus! {

/// Index of the first newline byte, if any.
pub open spec fn first_nl(b: Seq<u8>) -> Option<int>
    decreases b.len(),
{
    if b.len() == 0 {
        None
    } else if b[0] == 0x0a {
        Some(0)
    } else {
        match first_nl(b.drop_first()) {
            Some(i) => Some(i + 1),
            None => None,
        }
    }
}

/// What one tailing pass over a byte window yields.
pub struct TailSpec {
    /// Bytes consumed: the offset advances exactly this far.
    pub consumed: int,
    /// The records read, in stream order.
    pub values: Seq<JsonValue>,
    /// A complete line was not UTF-8: nothing is consumed, the read fails.
    pub failed: bool,
}

/// One tailing pass: consume newline-terminated lines while each is blank
/// after trimming or parses as one JSON document; stop at the first line
/// that does not parse, at a line that is not UTF-8 (failing the pass
/// without consuming anything), or at a trailing line without a newline.
pub open spec fn tail_spec(b: Seq<u8>) -> TailSpec
    decreases b.len(),
{
    match first_nl(b) {
        None => TailSpec { consumed: 0, values: Seq::empty(), failed: false },
        Some(i) => if !(0 <= i < b.len()) {
            // `first_nl` never returns an out-of-range index
            TailSpec { consumed: 0, values: Seq::empty(), failed: false }
        } else {
            let line = b.take(i + 1);
            let rest = b.skip(i + 1);
            if !valid_utf8(line) {
                TailSpec { consumed: 0, values: Seq::empty(), failed: true }
            } else {
                let t = trim_spec(decode_utf8(line));
                if t.len() == 0 {
                    let r = tail_spec(rest);
                    if r.failed {
                        TailSpec { consumed: 0, values: Seq::empty(), failed: true }
                    } else {
                        TailSpec {
                            consumed: i + 1 + r.consumed,
                            values: r.values,
                            failed: false,
                        }
                    }
                } else {
                    match json_of(t) {
                        Some(v) => {
                            let r = tail_spec(rest);
                            if r.failed {
                                TailSpec { consumed: 0, values: Seq::empty(), failed: true }
                            } else {
                                TailSpec {
                                    consumed: i + 1 + r.consumed,
                                    values: seq![v] + r.values,
                                    failed: false,
                                }
                            }
                        },
                        None => TailSpec { consumed: 0, values: Seq::empty(), failed: false },
                    }
                }
            }
        },
    }
}

proof fn lemma_first_nl_run(b: Seq<u8>, i: int)
    requires
        0 <= i <= b.len(),
        forall|j: int| 0 <= j < i ==> b[j] != 0x0a,
        i < b.len() ==> b[i] == 0x0a,
    ensures
        first_nl(b) == (if i < b.len() {
            Some(i)
        } else {
            None::<int>
        }),
    decreases b.len(),
{
    if b.len() == 0 {
    } else if i == 0 {
    } else {
        assert(b[0] != 0x0a);
        assert(forall|j: int| 0 <= j < i - 1 ==> b.drop_first()[j] == b[j + 1]);
        lemma_first_nl_run(b.drop_first(), i - 1);
    }
}

proof fn lemma_first_nl_props(b: Seq<u8>)
    ensures
        match first_nl(b) {
            Some(i) => 0 <= i < b.len() && b[i] == 0x0a && (forall|j: int|
                0 <= j < i ==> b[j] != 0x0a),
            None => forall|j: int| 0 <= j < b.len() ==> b[j] != 0x0a,
        },
    decreases b.len(),
{
    if b.len() == 0 {
    } else if b[0] == 0x0a {
    } else {
        lemma_first_nl_props(b.drop_first());
        match first_nl(b.drop_first()) {
            Some(i2) => {
                assert(first_nl(b) == Some(i2 + 1));
                assert(b[i2 + 1] == b.drop_first()[i2]);
                assert forall|j: int| 0 <= j < i2 + 1 implies b[j] != 0x0a by {
                    if j > 0 {
                        assert(b[j] == b.drop_first()[j - 1]);
                    }
                }
            },
            None => {
                assert forall|j: int| 0 <= j < b.len() implies b[j] != 0x0a by {
                    if j > 0 {
                        assert(b[j] == b.drop_first()[j - 1]);
                    }
                }
            },
        }
    }
}

/// A complete line of the stream was not valid UTF-8.
#[derive(Clone, Copy, Debug, PartialEq, Eq, Structural)]
pub enum TailError {
    NotUtf8,
}

/// The consumed prefix length and the records it held.
pub struct TailOutcome {
    pub consumed: usize,
    pub values: Vec<JsonValue>,
}

/// Tails one window of the history stream, starting at the current offset.
/// The offset may advance by exactly `consumed` bytes: every record before
/// that point was delivered, nothing after it was touched.
pub fn tail_history(chunk: &[u8]) -> (r: Result<TailOutcome, TailError>)
    ensures
        ({
            let t = tail_spec(chunk@);
            match r {
                Ok(out) => !t.failed && out.consumed == t.consumed && out.values@ == t.values,
                Err(_) => t.failed,
            }
        }),
{
    let n = chunk.len();
    let mut pos: usize = 0;
    let mut vals: Vec<JsonValue> = Vec::new();
    proof {
        assert(chunk@.skip(0) =~= chunk@);
    }
    loop
        invariant
            n == chunk@.len(),
            pos <= n,
            ({
                let t = tail_spec(chunk@);
                let rem = tail_spec(chunk@.skip(pos as int));
                &&& (rem.failed ==> t.failed)
                &&& (!rem.failed ==> {
                    &&& !t.failed
                    &&& t.consumed == pos + rem.consumed
                    &&& t.values == vals@ + rem.values
                })
            }),
        decreases n - pos,
    {
        let ghost rem = tail_spec(chunk@.skip(pos as int));
        let mut j: usize = pos;
        while j < n && chunk[j] != 0x0a
            invariant
                n == chunk@.len(),
                pos <= j <= n,
                forall|x: int| pos <= x < j ==> chunk@[x] != 0x0a,
            decreases n - j,
        {
            j += 1;
        }
        proof {
            assert(forall|x: int|
                0 <= x < j - pos ==> chunk@.skip(pos as int)[x] == chunk@[x + pos]);
            lemma_first_nl_run(chunk@.skip(pos as int), j - pos);
        }
        if j == n {
            // trailing partial line: leave it for the next poll
            return Ok(TailOutcome { consumed: pos, values: vals });
        }
        let ghost lrem = chunk@.skip(pos as int);
        proof {
            assert(first_nl(lrem) == Some(j - pos));
            assert(lrem.take(j - pos + 1) =~= chunk@.subrange(pos as int, j as int + 1));
            assert(lrem.skip(j - pos + 1) =~= chunk@.skip(j as int + 1));
        }
        let line_slice = vstd::slice::slice_subrange(chunk, pos, j + 1);
        match bytes_to_string(line_slice) {
            None => {
                return Err(TailError::NotUtf8);
            },
            Some(s) => {
                let t = trim_str(s.as_str());
                if t.as_str().is_empty() {
                    pos = j + 1;
                } else {
                    match parse_json(t.as_str()) {
                        Some(v) => {
                            vals.push(v);
                            pos = j + 1;
                            proof {
                                assert(vals@.drop_last() + (seq![v] + tail_spec(
                                    chunk@.skip(pos as int),
                                ).values) =~= vals@ + tail_spec(chunk@.skip(pos as int)).values);
                            }
                        },
                        None => {
                            return Ok(TailOutcome { consumed: pos, values: vals });
                        },
                    }
                }
            },
        }
    }
}

/// Resumability of tailing.  Reading a window, advancing the offset by
/// what was consumed, and reading again with the leftover bytes plus
/// whatever was appended, together deliver exactly the records that one
/// read of the whole window would: nothing is duplicated and nothing is
/// lost, even when the first window ended in a partial or unparsable
/// line.
pub proof fn lemma_tail_resume(b1: Seq<u8>, b2: Seq<u8>)
    requires
        !tail_spec(b1).failed,
    ensures
        ({
            let t1 = tail_spec(b1);
            let t2 = tail_spec(b1.skip(t1.consumed) + b2);
            let t = tail_spec(b1 + b2);
            &&& t.failed == t2.failed
            &&& (!t2.failed ==> t.consumed == t1.consumed + t2.consumed)
            &&& (!t2.failed ==> t.values == t1.values + t2.values)
        }),
    decreases b1.len(),
{
    lemma_first_nl_props(b1);
    match first_nl(b1) {
        None => {
            assert(tail_spec(b1).consumed == 0);
            assert(b1.skip(0) + b2 =~= b1 + b2);
            assert(tail_spec(b1).values + tail_spec(b1 + b2).values =~= tail_spec(b1 + b2).values);
        },
        Some(i) => {
            let line = b1.take(i + 1);
            let rest = b1.skip(i + 1);
            let whole = b1 + b2;
            assert(forall|j: int| 0 <= j < i ==> whole[j] == b1[j]);
            assert(whole[i] == b1[i]);
            lemma_first_nl_run(whole, i);
            assert(first_nl(whole) == Some(i));
            assert(whole.take(i + 1) =~= line);
            assert(whole.skip(i + 1) =~= rest + b2);
            assert(valid_utf8(line));
            let t = trim_spec(decode_utf8(line));
            if t.len() == 0 {
                let r1 = tail_spec(rest);
                assert(!r1.failed);
                lemma_tail_resume(rest, b2);
                assert(b1.skip(i + 1 + r1.consumed) =~= rest.skip(r1.consumed)) by {
                    assert(0 <= r1.consumed <= rest.len()) by {
                        lemma_tail_consumed_bounds(rest);
                    }
                }
            } else {
                match json_of(t) {
                    Some(v) => {
                        let r1 = tail_spec(rest);
                        assert(!r1.failed);
                        lemma_tail_resume(rest, b2);
                        assert(b1.skip(i + 1 + r1.consumed) =~= rest.skip(r1.consumed)) by {
                            assert(0 <= r1.consumed <= rest.len()) by {
                                lemma_tail_consumed_bounds(rest);
                            }
                        }
                        let r2 = tail_spec(rest.skip(r1.consumed) + b2);
                        if !r2.failed {
                            assert((seq![v] + r1.values) + r2.values =~= seq![v] + (r1.values
                                + r2.values));
                        }
                    },
                    None => {
                        // the unparsable line stops both passes at the same spot
                        assert(tail_spec(b1).consumed == 0);
                        assert(b1.skip(0) + b2 =~= b1 + b2);
                        assert(tail_spec(b1).values + tail_spec(b1 + b2).values =~= tail_spec(
                            b1 + b2,
                        ).values);
                    },
                }
            }
        },
    }
}

/// The consumed prefix never exceeds the window.
pub proof fn lemma_tail_consumed_bounds(b: Seq<u8>)
    ensures
        0 <= tail_spec(b).consumed <= b.len(),
    decreases b.len(),
{
    lemma_first_nl_props(b);
    match first_nl(b) {
        None => {},
        Some(i) => {
            let rest = b.skip(i + 1);
            lemma_tail_consumed_bounds(rest);
        },
    }
}

} // verus!
