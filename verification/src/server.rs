//! The connection handler's decision core: one request in, one response
//! out, with the store mutated as the operation asks.
//!
//! The caller reads the raw request off its transport and performs any
//! file write a `DUMP` asks for; everything in between — trimming,
//! decoding, the store operation, the counter arithmetic and the response
//! text — happens here.

use vstd::prelude::*;
use vstd::string::StringExecFns;

use crate::numbers::decremented;
use crate::numbers::i64_chars;
use crate::numbers::i64_to_string;
use crate::numbers::in_i64_range;
use crate::numbers::incremented;
use crate::numbers::int_text_val;
use crate::numbers::is_int_text;
use crate::numbers::parse_i64;
use crate::parser::Operation;
use crate::parser::arity_ok;
use crate::parser::code_chars;
use crate::parser::failed_validation_text;
use crate::parser::invalid_op_text;
use crate::parser::missing_body_text;
use crate::parser::op_of_token;
use crate::parser::parse_body;
use crate::parser::parse_head;
use crate::parser::parse_request;
use crate::snapshot::encode_snapshot;
use crate::snapshot::snapshot_chars;
use crate::store::MemStore;
use crate::text::first_delim_from;
use crate::text::join_spaces;
use crate::text::join_spaces_from;
use crate::text::split_spaces;
use crate::text::trim_end_chars;
use crate::text::trim_end_exec;

verus! {

/// The text of a response: the opcode, the `::` delimiter, the payload
/// and a closing line break.
pub open spec fn response_chars(op: Operation, payload: Seq<char>) -> Seq<char> {
    code_chars(op) + seq![':', ':'] + payload + seq!['\n']
}

/// Encodes a response from an operation tag and a payload.
pub fn encode_response(op: Operation, payload: &str) -> (r: String)
    ensures
        r@ == response_chars(op, payload@),
{
    let mut out = op.code();
    out.append("::");
    out.append(payload);
    out.append("\n");
    proof {
        reveal_strlit("::");
        reveal_strlit("\n");
        assert("::"@ =~= seq![':', ':']);
        assert("\n"@ =~= seq!['\n']);
        assert(out@ =~= response_chars(op, payload@));
    }
    out
}

/// The value stored under `k`, or the empty sentinel.
pub open spec fn sentinel_or(m: Map<Seq<char>, Seq<char>>, k: Seq<char>) -> Seq<char> {
    if m.contains_key(k) {
        m[k]
    } else {
        Seq::<char>::empty()
    }
}

/// A stored text read as a counter: its integer value, or zero when it
/// is absent or not a number.
pub open spec fn counter_of(cur: Seq<char>) -> int {
    if is_int_text(cur) && in_i64_range(int_text_val(cur)) {
        int_text_val(cur)
    } else {
        0
    }
}

/// The counter stepped up or down by one, held inside the 64-bit range.
pub open spec fn stepped(cur: Seq<char>, up: bool) -> int {
    if up {
        incremented(counter_of(cur))
    } else {
        decremented(counter_of(cur))
    }
}

/// Whether the trimmed request decodes to a message.
pub open spec fn request_ok(t: Seq<char>) -> bool {
    &&& op_of_token(parse_head(t)) != Operation::Error
    &&& first_delim_from(t, 0) is Some
    &&& arity_ok(op_of_token(parse_head(t)), split_spaces(parse_body(t)).len())
}

/// The error text of a request that does not decode.
pub open spec fn request_err_text(t: Seq<char>) -> Seq<char> {
    if op_of_token(parse_head(t)) == Operation::Error {
        invalid_op_text(parse_head(t))
    } else if first_delim_from(t, 0) is None {
        missing_body_text()
    } else {
        failed_validation_text()
    }
}

/// What a handled request answers and does to the store, all of it over
/// the trimmed request text `t` and the store's old contents `m`.
pub open spec fn reply_spec(
    m: Map<Seq<char>, Seq<char>>,
    t: Seq<char>,
    r: Reply,
    m2: Map<Seq<char>, Seq<char>>,
) -> bool {
    if !request_ok(t) {
        &&& r.response@ == response_chars(Operation::Error, request_err_text(t))
        &&& r.dump is None
        &&& m2 == m
    } else {
        let op = op_of_token(parse_head(t));
        let args = split_spaces(parse_body(t));
        match op {
            Operation::StringSet => {
                &&& r.response@ == response_chars(op, "OK"@)
                &&& r.dump is None
                &&& m2 == m.insert(args[0], join_spaces(args.skip(1)))
            },
            Operation::StringGet => {
                &&& r.response@ == response_chars(op, sentinel_or(m, args[0]))
                &&& r.dump is None
                &&& m2 == m
            },
            Operation::StringRemove => {
                &&& r.response@ == response_chars(op, sentinel_or(m, args[0]))
                &&& r.dump is None
                &&& m2 == m.remove(args[0])
            },
            Operation::StringClear => {
                &&& r.response@ == response_chars(op, "OK"@)
                &&& r.dump is None
                &&& m2 == Map::<Seq<char>, Seq<char>>::empty()
            },
            Operation::Incr => {
                &&& r.response@ == response_chars(op, i64_chars(stepped(sentinel_or(m, args[0]), true)))
                &&& r.dump is None
                &&& m2 == m.insert(args[0], i64_chars(stepped(sentinel_or(m, args[0]), true)))
            },
            Operation::Decr => {
                &&& r.response@ == response_chars(op, i64_chars(stepped(sentinel_or(m, args[0]), false)))
                &&& r.dump is None
                &&& m2 == m.insert(args[0], i64_chars(stepped(sentinel_or(m, args[0]), false)))
            },
            Operation::Dump => {
                &&& r.response@ == response_chars(op, "OK"@)
                &&& r.dump matches Some(d) && d.0@ == args[0]
                &&& m2 == m
            },
            Operation::Noop => {
                &&& r.response@ == response_chars(Operation::Noop, "nothing to do"@)
                &&& r.dump is None
                &&& m2 == m
            },
            Operation::Error => false,
        }
    }
}

/// What the handler answers: the response line to send back, and, for a
/// `DUMP`, the path and snapshot text the caller must write.
pub struct Reply {
    /// The response line, delimiter and line break included.
    pub response: String,
    /// The snapshot a `DUMP` asks for: the path named in the request and
    /// the text to write there.
    pub dump: Option<(String, String)>,
}

/// Serves one request against the store: trims it, decodes it, performs
/// the operation and encodes the response. A request that does not
/// decode gets an error response and leaves the store alone.
pub fn handle_request(store: &mut MemStore, raw: &str) -> (r: Reply)
    ensures
        reply_spec(old(store)@, trim_end_chars(raw@), r, final(store)@),
        r.dump matches Some(d) ==> d.1@ == snapshot_chars(old(store).entries()),
{
    proof {
        reveal_strlit("OK");
        reveal_strlit("nothing to do");
    }
    let trimmed = trim_end_exec(raw);
    let msg = match parse_request(trimmed.as_str()) {
        Ok(msg) => msg,
        Err(e) => {
            let response = encode_response(Operation::Error, e.text().as_str());
            return Reply { response, dump: None };
        },
    };
    match msg.op {
        Operation::StringSet => {
            let value = join_spaces_from(&msg.args, 1);
            store.insert_string(msg.args[0].as_str(), value.as_str());
            Reply { response: encode_response(Operation::StringSet, "OK"), dump: None }
        },
        Operation::StringGet => {
            let value = store.get_string(msg.args[0].as_str());
            Reply { response: encode_response(Operation::StringGet, value.as_str()), dump: None }
        },
        Operation::StringRemove => {
            let removed = store.remove_string(msg.args[0].as_str());
            Reply {
                response: encode_response(Operation::StringRemove, removed.as_str()),
                dump: None,
            }
        },
        Operation::StringClear => {
            store.clear_strings();
            Reply { response: encode_response(Operation::StringClear, "OK"), dump: None }
        },
        Operation::Incr => {
            let text = step_counter(store, msg.args[0].as_str(), true);
            Reply { response: encode_response(Operation::Incr, text.as_str()), dump: None }
        },
        Operation::Decr => {
            let text = step_counter(store, msg.args[0].as_str(), false);
            Reply { response: encode_response(Operation::Decr, text.as_str()), dump: None }
        },
        Operation::Dump => {
            let text = encode_snapshot(store);
            let path = msg.args[0].clone();
            Reply {
                response: encode_response(Operation::Dump, "OK"),
                dump: Some((path, text)),
            }
        },
        Operation::Noop => {
            Reply { response: encode_response(Operation::Noop, "nothing to do"), dump: None }
        },
        Operation::Error => vstd::pervasive::unreached(),
    }
}

/// Steps the counter stored under `key` by one, up or down, writes it
/// back as text and hands that text back.
fn step_counter(store: &mut MemStore, key: &str, up: bool) -> (r: String)
    ensures
        r@ == i64_chars(stepped(sentinel_or(old(store)@, key@), up)),
        final(store)@ == old(store)@.insert(key@, r@),
{
    let cur = store.get_string(key);
    let v: i64 = match parse_i64(cur.as_str()) {
        Some(v) => v,
        None => 0,
    };
    let nv: i64 = if up {
        if v == i64::MAX {
            v
        } else {
            v + 1
        }
    } else {
        if v == i64::MIN {
            v
        } else {
            v - 1
        }
    };
    let text = i64_to_string(nv);
    store.insert_string(key, text.as_str());
    text
}

} // verus!
