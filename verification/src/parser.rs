//! The message codec: the operation vocabulary, request framing and arity
//! rules of the wire protocol.
//!
//! A request reads `OPCODE::arg1 arg2 ...`; a response reads
//! `OPCODE::payload`. [`parse_request`] decodes and validates a request,
//! [`create_request`] encodes one, and [`parse_response`] takes the payload
//! out of a response.

use vstd::prelude::*;
use vstd::string::StrSliceExecFns;
use vstd::string::StringExecFns;

use crate::errors::MessageError;
use crate::text::delim_at;
use crate::text::find_delim;
use crate::text::first_delim_from;
use crate::text::join_spaces;
use crate::text::lemma_first_delim_from;
use crate::text::lemma_split_join;
use crate::text::matches_folded;
use crate::text::split_spaces;
use crate::text::split_spaces_exec;
use crate::text::str_eq;
use crate::text::trim_chars;
use crate::text::trim_exec;
use crate::text::upper_seq;

verus! {

/// The operations of the protocol.
#[derive(Debug, Clone, Copy, PartialEq, Eq, Structural)]
pub enum Operation {
    /// Store a value under a key.
    StringSet,
    /// Read the value under a key.
    StringGet,
    /// Take the value under a key out of the store.
    StringRemove,
    /// Empty the store.
    StringClear,
    /// Add one to the counter under a key.
    Incr,
    /// Take one from the counter under a key.
    Decr,
    /// Write a snapshot of the store to a path.
    Dump,
    /// Do nothing.
    Noop,
    /// Not an operation: the mark of an unrecognized opcode, and the tag
    /// of error responses.
    Error,
}

/// The opcode of each operation.
pub open spec fn code_chars(op: Operation) -> Seq<char> {
    match op {
        Operation::StringSet => seq!['S', 'E', 'T'],
        Operation::StringGet => seq!['G', 'E', 'T'],
        Operation::StringRemove => seq!['R', 'M'],
        Operation::StringClear => seq!['C', 'L', 'R'],
        Operation::Incr => seq!['I', 'N', 'C', 'R'],
        Operation::Decr => seq!['D', 'E', 'C', 'R'],
        Operation::Dump => seq!['D', 'U', 'M', 'P'],
        Operation::Noop => seq!['N', 'O', 'O', 'P'],
        Operation::Error => seq!['E', 'R', 'R'],
    }
}

/// The operation a request token names: the token is folded to upper case
/// and looked up among the opcodes. A token naming none is `Error`.
pub open spec fn op_of_token(s: Seq<char>) -> Operation {
    let u = upper_seq(s);
    if u == code_chars(Operation::StringSet) {
        Operation::StringSet
    } else if u == code_chars(Operation::StringGet) {
        Operation::StringGet
    } else if u == code_chars(Operation::StringClear) {
        Operation::StringClear
    } else if u == code_chars(Operation::StringRemove) {
        Operation::StringRemove
    } else if u == code_chars(Operation::Incr) {
        Operation::Incr
    } else if u == code_chars(Operation::Decr) {
        Operation::Decr
    } else if u == code_chars(Operation::Noop) {
        Operation::Noop
    } else if u == code_chars(Operation::Dump) {
        Operation::Dump
    } else {
        Operation::Error
    }
}

/// The operation a token names under the strict lookup: the four basic
/// opcodes, matched exactly; every other token is `Noop`.
pub open spec fn strict_op_of_token(s: Seq<char>) -> Operation {
    if s == code_chars(Operation::StringSet) {
        Operation::StringSet
    } else if s == code_chars(Operation::StringGet) {
        Operation::StringGet
    } else if s == code_chars(Operation::StringClear) {
        Operation::StringClear
    } else if s == code_chars(Operation::StringRemove) {
        Operation::StringRemove
    } else {
        Operation::Noop
    }
}

impl Operation {
    /// Looks a token up among all opcodes, ignoring ASCII case; a token
    /// naming no operation gives `Error`.
    pub fn from_string(op: &str) -> (r: Self)
        ensures
            r == op_of_token(op@),
    {
        proof {
            reveal_strlit("SET");
            reveal_strlit("GET");
            reveal_strlit("CLR");
            reveal_strlit("RM");
            reveal_strlit("INCR");
            reveal_strlit("DECR");
            reveal_strlit("NOOP");
            reveal_strlit("DUMP");
            assert("SET"@ =~= code_chars(Operation::StringSet));
            assert("GET"@ =~= code_chars(Operation::StringGet));
            assert("CLR"@ =~= code_chars(Operation::StringClear));
            assert("RM"@ =~= code_chars(Operation::StringRemove));
            assert("INCR"@ =~= code_chars(Operation::Incr));
            assert("DECR"@ =~= code_chars(Operation::Decr));
            assert("NOOP"@ =~= code_chars(Operation::Noop));
            assert("DUMP"@ =~= code_chars(Operation::Dump));
        }
        if matches_folded(op, "SET") {
            Operation::StringSet
        } else if matches_folded(op, "GET") {
            Operation::StringGet
        } else if matches_folded(op, "CLR") {
            Operation::StringClear
        } else if matches_folded(op, "RM") {
            Operation::StringRemove
        } else if matches_folded(op, "INCR") {
            Operation::Incr
        } else if matches_folded(op, "DECR") {
            Operation::Decr
        } else if matches_folded(op, "NOOP") {
            Operation::Noop
        } else if matches_folded(op, "DUMP") {
            Operation::Dump
        } else {
            Operation::Error
        }
    }

    /// Looks a token up under the strict lookup: `SET`, `GET`, `CLR` and
    /// `RM`, matched exactly; every other token is `Noop`.
    pub fn from_str(op: &str) -> (r: Self)
        ensures
            r == strict_op_of_token(op@),
    {
        proof {
            reveal_strlit("SET");
            reveal_strlit("GET");
            reveal_strlit("CLR");
            reveal_strlit("RM");
            assert("SET"@ =~= code_chars(Operation::StringSet));
            assert("GET"@ =~= code_chars(Operation::StringGet));
            assert("CLR"@ =~= code_chars(Operation::StringClear));
            assert("RM"@ =~= code_chars(Operation::StringRemove));
        }
        if str_eq(op, "SET") {
            Operation::StringSet
        } else if str_eq(op, "GET") {
            Operation::StringGet
        } else if str_eq(op, "CLR") {
            Operation::StringClear
        } else if str_eq(op, "RM") {
            Operation::StringRemove
        } else {
            Operation::Noop
        }
    }

    /// The opcode of the operation.
    pub fn code(&self) -> (r: String)
        ensures
            r@ == code_chars(*self),
    {
        proof {
            reveal_strlit("SET");
            reveal_strlit("GET");
            reveal_strlit("RM");
            reveal_strlit("CLR");
            reveal_strlit("INCR");
            reveal_strlit("DECR");
            reveal_strlit("DUMP");
            reveal_strlit("NOOP");
            reveal_strlit("ERR");
            assert("SET"@ =~= code_chars(Operation::StringSet));
            assert("GET"@ =~= code_chars(Operation::StringGet));
            assert("RM"@ =~= code_chars(Operation::StringRemove));
            assert("CLR"@ =~= code_chars(Operation::StringClear));
            assert("INCR"@ =~= code_chars(Operation::Incr));
            assert("DECR"@ =~= code_chars(Operation::Decr));
            assert("DUMP"@ =~= code_chars(Operation::Dump));
            assert("NOOP"@ =~= code_chars(Operation::Noop));
            assert("ERR"@ =~= code_chars(Operation::Error));
        }
        match self {
            Operation::StringSet => "SET".to_owned(),
            Operation::StringGet => "GET".to_owned(),
            Operation::StringRemove => "RM".to_owned(),
            Operation::StringClear => "CLR".to_owned(),
            Operation::Incr => "INCR".to_owned(),
            Operation::Decr => "DECR".to_owned(),
            Operation::Dump => "DUMP".to_owned(),
            Operation::Noop => "NOOP".to_owned(),
            Operation::Error => "ERR".to_owned(),
        }
    }
}

/// How many arguments each operation takes: `SET` a key and one or more
/// value tokens; `GET`, `RM`, `INCR`, `DECR` and `DUMP` exactly one; `CLR`
/// and `NOOP` any number.
pub open spec fn arity_ok(op: Operation, n: nat) -> bool {
    match op {
        Operation::StringSet => n >= 2,
        Operation::StringGet => n == 1,
        Operation::StringRemove => n == 1,
        Operation::Dump => n == 1,
        Operation::Incr => n == 1,
        Operation::Decr => n == 1,
        Operation::StringClear => true,
        Operation::Noop => true,
        Operation::Error => false,
    }
}

/// A decoded request: the operation and its arguments, in order.
#[derive(Debug, Clone, PartialEq)]
pub struct Message {
    /// The operation to perform.
    pub op: Operation,
    /// The arguments to the operation.
    pub args: Vec<String>,
}

impl Message {
    /// Builds a message from an operation and its arguments.
    pub fn new(op: Operation, args: Vec<String>) -> (r: Self)
        ensures
            r.op == op,
            r.args == args,
    {
        Message { op, args }
    }

    /// Decides whether the argument count fits the operation's arity.
    pub fn validate(&self) -> (r: bool)
        ensures
            r == arity_ok(self.op, self.args@.len()),
    {
        match self.op {
            Operation::StringSet => self.args.len() >= 2,
            Operation::StringGet | Operation::StringRemove | Operation::Dump | Operation::Incr
                | Operation::Decr => self.args.len() == 1,
            Operation::StringClear | Operation::Noop => true,
            Operation::Error => false,
        }
    }
}

/// The text of a request: the opcode, the `::` delimiter, then the
/// arguments joined with single spaces.
pub open spec fn request_chars(op: Operation, args: Seq<Seq<char>>) -> Seq<char> {
    code_chars(op) + seq![':', ':'] + join_spaces(args)
}

/// The leading token of a request: what stands before the first `::`, or
/// the whole text when there is none.
pub open spec fn parse_head(t: Seq<char>) -> Seq<char> {
    match first_delim_from(t, 0) {
        Some(d) => t.subrange(0, d),
        None => t,
    }
}

/// The argument segment of a request: what stands between the first `::`
/// and the next one, or the end.
pub open spec fn parse_body(t: Seq<char>) -> Seq<char> {
    let d = first_delim_from(t, 0)->Some_0;
    match first_delim_from(t, d + 2) {
        Some(e) => t.subrange(d + 2, e),
        None => t.subrange(d + 2, t.len() as int),
    }
}

/// The text of the error for an unrecognized opcode.
pub open spec fn invalid_op_text(head: Seq<char>) -> Seq<char> {
    "invalid operation: "@ + head
}

/// The text of the error for a request without a delimiter.
pub open spec fn missing_body_text() -> Seq<char> {
    "not enough arguments for operation"@
}

/// The text of the error for a failed arity check.
pub open spec fn failed_validation_text() -> Seq<char> {
    "message failed validation"@
}

/// Encodes a request from an operation and its arguments.
pub fn create_request(op_code: Operation, args: Vec<String>) -> (r: String)
    ensures
        r@ == request_chars(op_code, args.deep_view()),
{
    let mut out = op_code.code();
    out.append("::");
    let joined = crate::text::join_spaces_exec(&args);
    out.append(joined.as_str());
    proof {
        reveal_strlit("::");
        assert("::"@ =~= seq![':', ':']);
        assert(out@ =~= request_chars(op_code, args.deep_view()));
    }
    out
}

/// Decodes a request.
///
/// The leading token must name an operation, the `::` delimiter must be
/// there, and the space-split arguments must fit the operation's arity;
/// each failure is reported as the matching error, and the errors carry
/// the texts the protocol fixes.
pub fn parse_request(req: &str) -> (r: Result<Message, MessageError>)
    ensures
        ({
            let t = req@;
            let head = parse_head(t);
            let op = op_of_token(head);
            match r {
                Ok(m) => {
                    &&& op != Operation::Error
                    &&& first_delim_from(t, 0) is Some
                    &&& m.op == op
                    &&& m.args.deep_view() == split_spaces(parse_body(t))
                    &&& arity_ok(op, split_spaces(parse_body(t)).len())
                },
                Err(e) => match e {
                    MessageError::InvalidFormat(msg) => {
                        ||| (op == Operation::Error && msg@ == invalid_op_text(head))
                        ||| (op != Operation::Error && first_delim_from(t, 0) is None && msg@
                            == missing_body_text())
                    },
                    MessageError::InvalidMessage(msg) => {
                        &&& op != Operation::Error
                        &&& first_delim_from(t, 0) is Some
                        &&& !arity_ok(op, split_spaces(parse_body(t)).len())
                        &&& msg@ == failed_validation_text()
                    },
                },
            }
        }),
{
    let len = req.unicode_len();
    let head_end = find_delim(req, 0);
    let head: String = match head_end {
        Some(d) => req.substring_char(0, d).to_owned(),
        None => req.to_owned(),
    };
    let op = Operation::from_string(head.as_str());
    if matches!(op, Operation::Error) {
        let mut msg = "invalid operation: ".to_owned();
        msg.append(head.as_str());
        proof {
            assert(msg@ =~= invalid_op_text(parse_head(req@)));
        }
        return Err(MessageError::InvalidFormat(msg));
    }
    let d = match head_end {
        Some(d) => d,
        None => {
            return Err(MessageError::InvalidFormat("not enough arguments for operation".to_owned()));
        },
    };
    let body_end = find_delim(req, d + 2);
    let body = match body_end {
        Some(e) => {
            proof {
                lemma_first_delim_from(req@, d + 2);
            }
            req.substring_char(d + 2, e)
        },
        None => req.substring_char(d + 2, len),
    };
    let args = split_spaces_exec(body);
    let msg = Message { op, args };
    if !msg.validate() {
        return Err(MessageError::InvalidMessage("message failed validation".to_owned()));
    }
    Ok(msg)
}

/// The payload of a response: what stands between the first `::` and the
/// next one or the end, trimmed of whitespace; empty when the response
/// carries no delimiter.
pub open spec fn response_payload(t: Seq<char>) -> Seq<char> {
    match first_delim_from(t, 0) {
        Some(_) => trim_chars(parse_body(t)),
        None => Seq::<char>::empty(),
    }
}

/// Takes the payload out of a response; a response without the delimiter
/// gives the empty string, never an error.
pub fn parse_response(msg: &str) -> (r: String)
    ensures
        r@ == response_payload(msg@),
{
    let len = msg.unicode_len();
    let d = match find_delim(msg, 0) {
        Some(d) => d,
        None => {
            return String::new();
        },
    };
    let body = match find_delim(msg, d + 2) {
        Some(e) => {
            proof {
                lemma_first_delim_from(msg@, d + 2);
            }
            msg.substring_char(d + 2, e)
        },
        None => msg.substring_char(d + 2, len),
    };
    trim_exec(body)
}

/// Each opcode is at least two characters, all upper case and none a
/// colon, and the lookup maps it back to its operation.
pub proof fn lemma_op_of_code(op: Operation)
    requires
        op != Operation::Error,
    ensures
        op_of_token(code_chars(op)) == op,
        upper_seq(code_chars(op)) == code_chars(op),
        code_chars(op).len() >= 2,
        forall|j: int| 0 <= j < code_chars(op).len() ==> code_chars(op)[j] != ':',
{
    let code = code_chars(op);
    assert(upper_seq(code) =~= code) by {
        assert(forall|i: int|
            0 <= i < code.len() ==> upper_seq(code)[i] == crate::text::upper_char(#[trigger] code[i]));
    }
    match op {
        Operation::StringSet => {
        },
        Operation::StringGet => {
            assert(code[0] != code_chars(Operation::StringSet)[0]);
        },
        Operation::StringClear => {
            assert(code[0] != code_chars(Operation::StringSet)[0]);
            assert(code[0] != code_chars(Operation::StringGet)[0]);
        },
        Operation::StringRemove => {
        },
        Operation::Incr => {
        },
        Operation::Decr => {
            assert(code[0] != code_chars(Operation::Incr)[0]);
        },
        Operation::Noop => {
            assert(code[0] != code_chars(Operation::Incr)[0]);
            assert(code[0] != code_chars(Operation::Decr)[0]);
        },
        Operation::Dump => {
            assert(code[0] != code_chars(Operation::Incr)[0]);
            assert(code[1] != code_chars(Operation::Decr)[1]);
            assert(code[0] != code_chars(Operation::Noop)[0]);
        },
        Operation::Error => {
        },
    }
}

/// The arguments joined with spaces hold no `::` when no single argument
/// does: the space between arguments keeps colons of different arguments
/// apart.
pub proof fn lemma_no_delim_in_join(args: Seq<Seq<char>>)
    requires
        forall|i: int, j: int|
            0 <= i < args.len() && 0 <= j < args[i].len() ==> args[i][j] != ' ',
        forall|i: int, j: int|
            0 <= i < args.len() && 0 <= j && j + 1 < args[i].len() ==> !((#[trigger] args[i][j])
                == ':' && args[i][j + 1] == ':'),
    ensures
        forall|p: int| !delim_at(join_spaces(args), p),
    decreases args.len(),
{
    let s = join_spaces(args);
    if args.len() == 0 {
        assert(forall|p: int| !delim_at(s, p));
    } else if args.len() == 1 {
        assert forall|p: int| !delim_at(s, p) by {
            if delim_at(s, p) {
                assert(args[0][p] == ':' && args[0][p + 1] == ':');
            }
        }
    } else {
        let rest_args = args.drop_first();
        assert forall|i: int, j: int|
            0 <= i < rest_args.len() && 0 <= j < rest_args[i].len() implies rest_args[i][j]
            != ' ' by {
            assert(rest_args[i] == args[i + 1]);
        }
        assert forall|i: int, j: int|
            0 <= i < rest_args.len() && 0 <= j && j + 1 < rest_args[i].len() implies !((
        #[trigger] rest_args[i][j]) == ':' && rest_args[i][j + 1] == ':') by {
            assert(rest_args[i] == args[i + 1]);
        }
        lemma_no_delim_in_join(rest_args);
        let a0 = args[0];
        let rest = join_spaces(rest_args);
        assert(s == a0 + seq![' '] + rest);
        assert forall|p: int| !delim_at(s, p) by {
            if delim_at(s, p) {
                if p + 1 < a0.len() {
                    assert(s[p] == a0[p]);
                    assert(s[p + 1] == a0[p + 1]);
                } else if p + 1 == a0.len() {
                    assert(s[p + 1] == a0[p + 1 - 1 + 1]);
                    assert(s[p] == a0[p]);
                } else if p == a0.len() {
                    assert(s[p] == ' ');
                } else {
                    assert(s[p] == rest[p - a0.len() - 1]);
                    assert(s[p + 1] == rest[p - a0.len()]);
                    assert(delim_at(rest, p - a0.len() - 1));
                }
            }
        }
    }
}

/// Decoding an encoded request gives back the operation and the
/// arguments, whenever the arguments fit the operation's arity, at least
/// one argument is given, and no argument holds a space or the `::`
/// delimiter. Together with the contracts of [`create_request`] and
/// [`parse_request`], the decoded message of an encoded request is the
/// message that was encoded.
pub proof fn lemma_request_round_trip(op: Operation, args: Seq<Seq<char>>)
    requires
        op != Operation::Error,
        arity_ok(op, args.len()),
        args.len() >= 1,
        forall|i: int, j: int|
            0 <= i < args.len() && 0 <= j < args[i].len() ==> args[i][j] != ' ',
        forall|i: int, j: int|
            0 <= i < args.len() && 0 <= j && j + 1 < args[i].len() ==> !((#[trigger] args[i][j])
                == ':' && args[i][j + 1] == ':'),
    ensures
        ({
            let t = request_chars(op, args);
            &&& first_delim_from(t, 0) is Some
            &&& op_of_token(parse_head(t)) == op
            &&& split_spaces(parse_body(t)) == args
            &&& arity_ok(op_of_token(parse_head(t)), split_spaces(parse_body(t)).len())
        }),
{
    let code = code_chars(op);
    let joined = join_spaces(args);
    let t = request_chars(op, args);
    lemma_op_of_code(op);
    lemma_no_delim_in_join(args);
    let n = code.len() as int;
    assert(t.len() == n + 2 + joined.len());
    assert(delim_at(t, n)) by {
        assert(t[n] == ':');
        assert(t[n + 1] == ':');
    }
    assert forall|p: int| 0 <= p < n implies !delim_at(t, p) by {
        assert(t[p] == code[p]);
        assert(code[p] != ':');
    }
    lemma_first_delim_from(t, 0);
    match first_delim_from(t, 0) {
        Some(d) => {
            assert(d == n) by {
                if d < n {
                    assert(!delim_at(t, d));
                } else if d > n {
                    assert(!delim_at(t, n));
                }
            }
        },
        None => {
            assert(!delim_at(t, n));
        },
    }
    assert(parse_head(t) =~= code);
    assert forall|p: int| !delim_at(t, p) || p < n + 2 by {
        if delim_at(t, p) && p >= n + 2 {
            assert(t[p] == joined[p - n - 2]);
            assert(t[p + 1] == joined[p - n - 1]);
            assert(delim_at(joined, p - n - 2));
        }
    }
    lemma_first_delim_from(t, n + 2);
    match first_delim_from(t, n + 2) {
        Some(e) => {
            assert(!delim_at(t, e));
        },
        None => {
        },
    }
    assert(parse_body(t) =~= joined);
    lemma_split_join(args);
}

} // verus!
