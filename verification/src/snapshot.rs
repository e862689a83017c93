//! The snapshot format: one JSON object with a `strings` field mapping
//! keys to values, written with two-space indentation.
//!
//! [`encode_snapshot`] writes a store as exactly that text;
//! [`decode_snapshot`] reads it back. Decoding accepts the canonical shape
//! the encoder writes: fixed indentation, entries in one line each, and
//! the standard string escapes.

use vstd::prelude::*;
use vstd::string::StrSliceExecFns;
use vstd::string::StringExecFns;

use crate::errors::SnapshotError;
use crate::store::MemStore;
use crate::store::find_key;
use crate::store::lemma_find_key;
use crate::store::lemma_find_key_deep;
use crate::store::unique_keys;

verus! {

/// A hexadecimal digit character, lower case.
pub open spec fn hex_char(d: int) -> char {
    if d < 10 {
        ((d + 48) as u8) as char
    } else {
        ((d + 87) as u8) as char
    }
}

/// How one character is written inside a JSON string: quote and backslash
/// get a backslash, the named control characters their short forms, other
/// control characters the `\u00XX` form, and everything else stands as it
/// is.
pub open spec fn esc_char(c: char) -> Seq<char> {
    if c == '"' {
        seq!['\\', '"']
    } else if c == '\\' {
        seq!['\\', '\\']
    } else if c == '\u{8}' {
        seq!['\\', 'b']
    } else if c == '\t' {
        seq!['\\', 't']
    } else if c == '\n' {
        seq!['\\', 'n']
    } else if c == '\u{c}' {
        seq!['\\', 'f']
    } else if c == '\r' {
        seq!['\\', 'r']
    } else if (c as u32) < 0x20 {
        seq!['\\', 'u', '0', '0', hex_char((c as u32) as int / 16), hex_char((c as u32) as int % 16)]
    } else {
        seq![c]
    }
}

/// A string written inside JSON quotes: each character escaped as needed.
pub open spec fn escape(s: Seq<char>) -> Seq<char>
    decreases s.len(),
{
    if s.len() == 0 {
        Seq::<char>::empty()
    } else {
        esc_char(s[0]) + escape(s.drop_first())
    }
}

/// A quoted JSON string.
pub open spec fn quoted(s: Seq<char>) -> Seq<char> {
    seq!['"'] + escape(s) + seq!['"']
}

/// The opening of a snapshot, up to the brace of the inner object.
pub open spec fn snapshot_header() -> Seq<char> {
    seq!['{', '\n', ' ', ' ', '"', 's', 't', 'r', 'i', 'n', 'g', 's', '"', ':', ' ', '{']
}

/// The line break and indentation before an entry.
pub open spec fn entry_indent() -> Seq<char> {
    seq!['\n', ' ', ' ', ' ', ' ']
}

/// The closing of a snapshot whose inner object holds entries.
pub open spec fn snapshot_tail() -> Seq<char> {
    seq!['\n', ' ', ' ', '}', '\n', '}']
}

/// One entry as written: the quoted key, a colon and space, the quoted
/// value.
pub open spec fn entry_chars(e: (Seq<char>, Seq<char>)) -> Seq<char> {
    quoted(e.0) + seq![':', ' '] + quoted(e.1)
}

/// The entry lines of the inner object: each entry on its own indented
/// line, the lines joined with commas.
pub open spec fn entries_chars(es: Seq<(Seq<char>, Seq<char>)>) -> Seq<char>
    decreases es.len(),
{
    if es.len() == 0 {
        Seq::<char>::empty()
    } else {
        entry_indent() + entry_chars(es[0]) + if es.len() == 1 {
            Seq::<char>::empty()
        } else {
            seq![','] + entries_chars(es.drop_first())
        }
    }
}

/// The full snapshot text of a sequence of entries.
pub open spec fn snapshot_chars(es: Seq<(Seq<char>, Seq<char>)>) -> Seq<char> {
    snapshot_header() + if es.len() == 0 {
        seq!['}', '\n', '}']
    } else {
        entries_chars(es) + snapshot_tail()
    }
}

/// The entry lines with the last entry split off.
proof fn lemma_entries_chars_snoc(es: Seq<(Seq<char>, Seq<char>)>, e: (Seq<char>, Seq<char>))
    requires
        es.len() >= 1,
    ensures
        entries_chars(es.push(e)) =~= entries_chars(es) + seq![','] + entry_indent()
            + entry_chars(e),
    decreases es.len(),
{
    let all = es.push(e);
    assert(all[0] == es[0]);
    if es.len() == 1 {
        assert(all.drop_first() =~= seq![e]);
        assert(entries_chars(seq![e]) == entry_indent() + entry_chars(e));
        assert(entry_indent() + entry_chars(es[0]) + (seq![','] + (entry_indent() + entry_chars(
            e,
        ))) =~= (entry_indent() + entry_chars(es[0])) + seq![','] + entry_indent() + entry_chars(
            e,
        ));
    } else {
        lemma_entries_chars_snoc(es.drop_first(), e);
        assert(all.drop_first() =~= es.drop_first().push(e));
        assert(entry_indent() + entry_chars(es[0]) + (seq![','] + (entries_chars(es.drop_first())
            + seq![','] + entry_indent() + entry_chars(e))) =~= (entry_indent() + entry_chars(
            es[0],
        ) + (seq![','] + entries_chars(es.drop_first()))) + seq![','] + entry_indent()
            + entry_chars(e));
    }
}

/// One escaped character appended to an escaped prefix.
proof fn lemma_escape_snoc(s: Seq<char>, c: char)
    ensures
        escape(s.push(c)) =~= escape(s) + esc_char(c),
    decreases s.len(),
{
    if s.len() == 0 {
        assert(s.push(c) =~= seq![c]);
        assert(seq![c][0] == c);
        assert(seq![c].drop_first() =~= Seq::<char>::empty());
        assert(escape(Seq::<char>::empty()) == Seq::<char>::empty());
        assert(escape(seq![c]) =~= esc_char(c));
    } else {
        lemma_escape_snoc(s.drop_first(), c);
        assert(s.push(c).drop_first() =~= s.drop_first().push(c));
        assert(s.push(c)[0] == s[0]);
        assert(esc_char(s[0]) + (escape(s.drop_first()) + esc_char(c)) =~= (esc_char(s[0])
            + escape(s.drop_first())) + esc_char(c));
    }
}

/// A named escape: the character that may stand after a backslash, other
/// than `u`.
pub open spec fn is_named_escape(e: char) -> bool {
    e == '"' || e == '\\' || e == '/' || e == 'b' || e == 'f' || e == 'n' || e == 'r' || e == 't'
}

/// The character a named escape stands for.
pub open spec fn unesc_char(e: char) -> char {
    if e == 'b' {
        '\u{8}'
    } else if e == 'f' {
        '\u{c}'
    } else if e == 'n' {
        '\n'
    } else if e == 'r' {
        '\r'
    } else if e == 't' {
        '\t'
    } else {
        e
    }
}

/// A hexadecimal digit character, either case.
pub open spec fn is_hex_digit(c: char) -> bool {
    ('0' <= c && c <= '9') || ('a' <= c && c <= 'f') || ('A' <= c && c <= 'F')
}

/// The value of a hexadecimal digit character.
pub open spec fn hex_val(c: char) -> int {
    if '0' <= c && c <= '9' {
        (c as u32) as int - 48
    } else if 'a' <= c && c <= 'f' {
        (c as u32) as int - 87
    } else {
        (c as u32) as int - 55
    }
}

/// What a JSON string body parses to: the characters up to the closing
/// quote, with escapes decoded, and how many characters that took,
/// closing quote included. `\uXXXX` is accepted in the form the encoder
/// writes: `\u00XX` with a value below `0x20`.
pub open spec fn spec_parse_string(t: Seq<char>) -> Option<(Seq<char>, int)>
    decreases t.len(),
{
    if t.len() == 0 {
        None
    } else if t[0] == '"' {
        Some((Seq::<char>::empty(), 1))
    } else if t[0] == '\\' {
        if t.len() < 2 {
            None
        } else if is_named_escape(t[1]) {
            match spec_parse_string(t.skip(2)) {
                Some((content, used)) => Some((seq![unesc_char(t[1])] + content, used + 2)),
                None => None,
            }
        } else if t[1] == 'u' {
            if t.len() < 6 {
                None
            } else if t[2] == '0' && t[3] == '0' && is_hex_digit(t[4]) && is_hex_digit(t[5])
                && 16 * hex_val(t[4]) + hex_val(t[5]) < 0x20 {
                let v = 16 * hex_val(t[4]) + hex_val(t[5]);
                match spec_parse_string(t.skip(6)) {
                    Some((content, used)) => Some((seq![((v as u8) as char)] + content, used + 6)),
                    None => None,
                }
            } else {
                None
            }
        } else {
            None
        }
    } else {
        match spec_parse_string(t.skip(1)) {
            Some((content, used)) => Some((seq![t[0]] + content, used + 1)),
            None => None,
        }
    }
}

/// A parsed string consumed at least its closing quote and no more than
/// the text.
pub proof fn lemma_parse_string_used(t: Seq<char>)
    ensures
        spec_parse_string(t) matches Some(r) ==> 1 <= r.1 <= t.len(),
    decreases t.len(),
{
    if t.len() == 0 {
    } else if t[0] == '"' {
    } else if t[0] == '\\' {
        if t.len() >= 2 && is_named_escape(t[1]) {
            lemma_parse_string_used(t.skip(2));
        } else if t.len() >= 6 && t[1] == 'u' {
            lemma_parse_string_used(t.skip(6));
        }
    } else {
        lemma_parse_string_used(t.skip(1));
    }
}

/// The value of a hexadecimal digit character of a value below sixteen.
proof fn lemma_hex_char_val(d: int)
    requires
        0 <= d < 16,
    ensures
        is_hex_digit(hex_char(d)),
        hex_val(hex_char(d)) == d,
{
}

/// Parsing undoes escaping: an escaped string, its closing quote and
/// anything after parse to the string itself, with exactly the escaped
/// text and the quote consumed.
pub proof fn lemma_parse_escaped(k: Seq<char>, rest: Seq<char>)
    ensures
        spec_parse_string(escape(k) + seq!['"'] + rest) == Some((k, escape(k).len() as int + 1)),
    decreases k.len(),
{
    let t = escape(k) + seq!['"'] + rest;
    if k.len() == 0 {
        assert(escape(k) =~= Seq::<char>::empty());
        assert(t[0] == '"');
        assert(k =~= Seq::<char>::empty());
    } else {
        let c = k[0];
        let k2 = k.drop_first();
        lemma_parse_escaped(k2, rest);
        let t2 = escape(k2) + seq!['"'] + rest;
        assert(escape(k) == esc_char(c) + escape(k2));
        let e = esc_char(c).len() as int;
        assert(t.skip(e) =~= t2) by {
            assert(forall|j: int|
                0 <= j < t2.len() ==> t.skip(e)[j] == (#[trigger] t2[j]));
        }
        assert(forall|j: int| 0 <= j < e ==> t[j] == (#[trigger] esc_char(c)[j]));
        if c == '"' || c == '\\' {
            assert(t[0] == '\\');
            assert(is_named_escape(t[1]));
            assert(unesc_char(t[1]) == c);
            assert(seq![c] + k2 =~= k);
        } else if c == '\u{8}' || c == '\t' || c == '\n' || c == '\u{c}' || c == '\r' {
            assert(t[0] == '\\');
            assert(is_named_escape(t[1]));
            assert(unesc_char(t[1]) == c);
            assert(seq![c] + k2 =~= k);
        } else if (c as u32) < 0x20 {
            assert(t[0] == '\\');
            assert(t[1] == 'u');
            assert(!is_named_escape('u'));
            assert(t[2] == '0' && t[3] == '0');
            let cv = (c as u32) as int;
            assert(t[4] == hex_char(cv / 16));
            assert(t[5] == hex_char(cv % 16));
            lemma_hex_char_val(cv / 16);
            lemma_hex_char_val(cv % 16);
            let v = 16 * hex_val(t[4]) + hex_val(t[5]);
            assert(v == cv);
            assert(((v as u8) as char) as u32 == c as u32);
            vstd::utf8::char_u32_cast(c, c as u32);
            vstd::utf8::char_u32_cast((v as u8) as char, c as u32);
            assert((v as u8) as char == c);
            assert(seq![c] + k2 =~= k);
        } else {
            assert(esc_char(c) =~= seq![c]);
            assert(t[0] == c);
            assert(c != '"' && c != '\\');
            assert(seq![c] + k2 =~= k);
        }
    }
}

/// The opening of an entry line: the indentation and the key's opening
/// quote.
pub open spec fn entry_open() -> Seq<char> {
    seq!['\n', ' ', ' ', ' ', ' ', '"']
}

/// Between key and value: colon, space and the value's opening quote.
pub open spec fn kv_sep() -> Seq<char> {
    seq![':', ' ', '"']
}

/// What the entry lines and the closing of a snapshot parse to: the
/// entries, in order, or nothing where the text strays from the format.
pub open spec fn spec_parse_entries(t: Seq<char>) -> Option<Seq<(Seq<char>, Seq<char>)>>
    decreases t.len(),
    via spec_parse_entries_decreases
{
    if t.len() < 6 || t.subrange(0, 6) != entry_open() {
        None
    } else {
        match spec_parse_string(t.skip(6)) {
            None => None,
            Some(key_parse) => {
                let after_key = 6 + key_parse.1;
                if t.len() < after_key + 3 || t.subrange(after_key, after_key + 3) != kv_sep() {
                    None
                } else {
                    match spec_parse_string(t.skip(after_key + 3)) {
                        None => None,
                        Some(val_parse) => {
                            let after_val = after_key + 3 + val_parse.1;
                            let entry = (key_parse.0, val_parse.0);
                            if after_val < t.len() && t[after_val] == ',' {
                                match spec_parse_entries(t.skip(after_val + 1)) {
                                    Some(more) => Some(seq![entry] + more),
                                    None => None,
                                }
                            } else if t.skip(after_val) == snapshot_tail() {
                                Some(seq![entry])
                            } else {
                                None
                            }
                        },
                    }
                }
            },
        }
    }
}

#[via_fn]
proof fn spec_parse_entries_decreases(t: Seq<char>) {
    if t.len() >= 6 && t.subrange(0, 6) == entry_open() {
        lemma_parse_string_used(t.skip(6));
        match spec_parse_string(t.skip(6)) {
            None => {},
            Some(key_parse) => {
                let after_key = 6 + key_parse.1;
                if !(t.len() < after_key + 3 || t.subrange(after_key, after_key + 3) != kv_sep()) {
                    lemma_parse_string_used(t.skip(after_key + 3));
                }
            },
        }
    }
}

/// What a whole snapshot parses to: the entries of the store it holds,
/// or nothing where the text strays from the format.
pub open spec fn spec_decode(t: Seq<char>) -> Option<Seq<(Seq<char>, Seq<char>)>> {
    if t.len() < 16 || t.subrange(0, 16) != snapshot_header() {
        None
    } else if t.skip(16) == seq!['}', '\n', '}'] {
        Some(Seq::<(Seq<char>, Seq<char>)>::empty())
    } else {
        spec_parse_entries(t.skip(16))
    }
}

/// Parsing undoes writing for the entry lines: the entry lines of `es`
/// followed by the snapshot's closing parse back to exactly `es`.
#[verifier::rlimit(80)]
proof fn lemma_parse_entries(es: Seq<(Seq<char>, Seq<char>)>)
    requires
        es.len() >= 1,
    ensures
        spec_parse_entries(entries_chars(es) + snapshot_tail()) == Some(es),
    decreases es.len(),
{
    let t = entries_chars(es) + snapshot_tail();
    let e = es[0];
    let k = e.0;
    let v = e.1;
    let rest = if es.len() == 1 {
        snapshot_tail()
    } else {
        seq![','] + entries_chars(es.drop_first()) + snapshot_tail()
    };
    assert(t =~= entry_open() + escape(k) + seq!['"'] + kv_sep() + escape(v) + seq!['"'] + rest);
    let t6 = t.skip(6);
    assert(t.subrange(0, 6) =~= entry_open());
    let key_tail = kv_sep() + escape(v) + seq!['"'] + rest;
    assert(t6 =~= escape(k) + seq!['"'] + key_tail);
    lemma_parse_escaped(k, key_tail);
    lemma_parse_string_used(t6);
    let after_key = 6 + escape(k).len() as int + 1;
    assert(t.subrange(after_key, after_key + 3) =~= kv_sep());
    let val_tail = rest;
    assert(t.skip(after_key + 3) =~= escape(v) + seq!['"'] + val_tail);
    lemma_parse_escaped(v, val_tail);
    let after_val = after_key + 3 + escape(v).len() as int + 1;
    assert(t.skip(after_val) =~= rest);
    if es.len() == 1 {
        assert(rest[0] == '\n');
        assert(!(after_val < t.len() && t[after_val] == ','));
        assert(seq![e] =~= es);
    } else {
        assert(t[after_val] == ',');
        assert(t.skip(after_val + 1) =~= entries_chars(es.drop_first()) + snapshot_tail());
        lemma_parse_entries(es.drop_first());
        assert(seq![e] + es.drop_first() =~= es);
    }
}

/// A written snapshot reads back as exactly what was written: decoding
/// the snapshot text of any entries gives those entries, in order.
pub proof fn lemma_snapshot_round_trip(es: Seq<(Seq<char>, Seq<char>)>)
    ensures
        spec_decode(snapshot_chars(es)) == Some(es),
{
    let t = snapshot_chars(es);
    assert(t.subrange(0, 16) =~= snapshot_header());
    if es.len() == 0 {
        assert(t.skip(16) =~= seq!['}', '\n', '}']);
        assert(es =~= Seq::<(Seq<char>, Seq<char>)>::empty());
    } else {
        assert(t.skip(16) =~= entries_chars(es) + snapshot_tail());
        assert(entries_chars(es)[0] == '\n');
        assert(t.skip(16) != seq!['}', '\n', '}']) by {
            assert(t.skip(16)[0] == '\n');
        }
        lemma_parse_entries(es);
    }
}

/// A hexadecimal digit below sixteen as text.
fn hex_digit_str(d: u8) -> (r: &'static str)
    requires
        d < 16,
    ensures
        r@ == seq![hex_char(d as int)],
{
    proof {
        reveal_strlit("0");
        reveal_strlit("1");
        reveal_strlit("2");
        reveal_strlit("3");
        reveal_strlit("4");
        reveal_strlit("5");
        reveal_strlit("6");
        reveal_strlit("7");
        reveal_strlit("8");
        reveal_strlit("9");
        reveal_strlit("a");
        reveal_strlit("b");
        reveal_strlit("c");
        reveal_strlit("d");
        reveal_strlit("e");
        reveal_strlit("f");
    }
    match d {
        0 => "0",
        1 => "1",
        2 => "2",
        3 => "3",
        4 => "4",
        5 => "5",
        6 => "6",
        7 => "7",
        8 => "8",
        9 => "9",
        10 => "a",
        11 => "b",
        12 => "c",
        13 => "d",
        14 => "e",
        _ => {
            proof {
                assert(d == 15);
            }
            "f"
        },
    }
}

/// Decides whether the text of `lit` stands in `s` at position `from`.
fn starts_with_at(s: &str, from: usize, lit: &str) -> (r: bool)
    requires
        from <= s@.len(),
    ensures
        r == (from + lit@.len() <= s@.len() && s@.subrange(
            from as int,
            from as int + lit@.len() as int,
        ) == lit@),
{
    let s_len = s.unicode_len();
    let n = lit.unicode_len();
    if s_len - from < n {
        return false;
    }
    let mut j: usize = 0;
    while j < n
        invariant
            s_len == s@.len(),
            n == lit@.len(),
            from + n <= s_len,
            j <= n,
            forall|i: int| 0 <= i < j ==> s@[from + i] == lit@[i],
        decreases n - j,
    {
        if s.get_char(from + j) != lit.get_char(j) {
            proof {
                assert(s@.subrange(from as int, from as int + n as int)[j as int] != lit@[j as int]);
            }
            return false;
        }
        j += 1;
    }
    proof {
        assert(s@.subrange(from as int, from as int + n as int) =~= lit@);
    }
    true
}

/// A control character below `0x20` as text.
fn low_char_str(v: u8) -> (r: &'static str)
    requires
        v < 32,
    ensures
        r@ == seq![v as char],
{
    proof {
        reveal_strlit("\u{0}");
        reveal_strlit("\u{1}");
        reveal_strlit("\u{2}");
        reveal_strlit("\u{3}");
        reveal_strlit("\u{4}");
        reveal_strlit("\u{5}");
        reveal_strlit("\u{6}");
        reveal_strlit("\u{7}");
        reveal_strlit("\u{8}");
        reveal_strlit("\u{9}");
        reveal_strlit("\u{a}");
        reveal_strlit("\u{b}");
        reveal_strlit("\u{c}");
        reveal_strlit("\u{d}");
        reveal_strlit("\u{e}");
        reveal_strlit("\u{f}");
        reveal_strlit("\u{10}");
        reveal_strlit("\u{11}");
        reveal_strlit("\u{12}");
        reveal_strlit("\u{13}");
        reveal_strlit("\u{14}");
        reveal_strlit("\u{15}");
        reveal_strlit("\u{16}");
        reveal_strlit("\u{17}");
        reveal_strlit("\u{18}");
        reveal_strlit("\u{19}");
        reveal_strlit("\u{1a}");
        reveal_strlit("\u{1b}");
        reveal_strlit("\u{1c}");
        reveal_strlit("\u{1d}");
        reveal_strlit("\u{1e}");
        reveal_strlit("\u{1f}");
    }
    match v {
        0 => "\u{0}",
        1 => "\u{1}",
        2 => "\u{2}",
        3 => "\u{3}",
        4 => "\u{4}",
        5 => "\u{5}",
        6 => "\u{6}",
        7 => "\u{7}",
        8 => "\u{8}",
        9 => "\u{9}",
        10 => "\u{a}",
        11 => "\u{b}",
        12 => "\u{c}",
        13 => "\u{d}",
        14 => "\u{e}",
        15 => "\u{f}",
        16 => "\u{10}",
        17 => "\u{11}",
        18 => "\u{12}",
        19 => "\u{13}",
        20 => "\u{14}",
        21 => "\u{15}",
        22 => "\u{16}",
        23 => "\u{17}",
        24 => "\u{18}",
        25 => "\u{19}",
        26 => "\u{1a}",
        27 => "\u{1b}",
        28 => "\u{1c}",
        29 => "\u{1d}",
        30 => "\u{1e}",
        _ => {
            proof {
                assert(v == 31);
            }
            "\u{1f}"
        },
    }
}

/// The value of one hexadecimal digit character, if it is one.
fn hex_digit_val(c: char) -> (r: Option<u8>)
    ensures
        match r {
            Some(v) => is_hex_digit(c) && v == hex_val(c) && v < 16,
            None => !is_hex_digit(c),
        },
{
    if '0' <= c && c <= '9' {
        Some(((c as u32) - 48) as u8)
    } else if 'a' <= c && c <= 'f' {
        Some(((c as u32) - 87) as u8)
    } else if 'A' <= c && c <= 'F' {
        Some(((c as u32) - 55) as u8)
    } else {
        None
    }
}

/// Writes `s` with each character escaped as the snapshot format asks.
pub fn escape_exec(s: &str) -> (r: String)
    ensures
        r@ == escape(s@),
{
    let len = s.unicode_len();
    let mut out = String::new();
    let mut i: usize = 0;
    proof {
        assert(s@.take(0) =~= Seq::<char>::empty());
    }
    while i < len
        invariant
            len == s@.len(),
            i <= len,
            out@ == escape(s@.take(i as int)),
        decreases len - i,
    {
        let c = s.get_char(i);
        if c == '"' {
            out.append("\\\"");
            proof {
                reveal_strlit("\\\"");
                assert("\\\""@ =~= esc_char(c));
            }
        } else if c == '\\' {
            out.append("\\\\");
            proof {
                reveal_strlit("\\\\");
                assert("\\\\"@ =~= esc_char(c));
            }
        } else if c == '\u{8}' {
            out.append("\\b");
            proof {
                reveal_strlit("\\b");
                assert("\\b"@ =~= esc_char(c));
            }
        } else if c == '\t' {
            out.append("\\t");
            proof {
                reveal_strlit("\\t");
                assert("\\t"@ =~= esc_char(c));
            }
        } else if c == '\n' {
            out.append("\\n");
            proof {
                reveal_strlit("\\n");
                assert("\\n"@ =~= esc_char(c));
            }
        } else if c == '\u{c}' {
            out.append("\\f");
            proof {
                reveal_strlit("\\f");
                assert("\\f"@ =~= esc_char(c));
            }
        } else if c == '\r' {
            out.append("\\r");
            proof {
                reveal_strlit("\\r");
                assert("\\r"@ =~= esc_char(c));
            }
        } else if (c as u32) < 0x20 {
            out.append("\\u00");
            out.append(hex_digit_str((c as u32 / 16) as u8));
            out.append(hex_digit_str((c as u32 % 16) as u8));
            proof {
                reveal_strlit("\\u00");
                assert("\\u00"@ =~= seq!['\\', 'u', '0', '0']);
                assert("\\u00"@ + seq![hex_char((c as u32) as int / 16)] + seq![hex_char(
                    (c as u32) as int % 16,
                )] =~= esc_char(c));
            }
        } else {
            out.append(s.substring_char(i, i + 1));
            proof {
                assert(s@.subrange(i as int, i + 1) =~= esc_char(c));
            }
        }
        proof {
            assert(s@.take(i + 1) =~= s@.take(i as int).push(c));
            lemma_escape_snoc(s@.take(i as int), c);
        }
        i += 1;
    }
    proof {
        assert(s@.take(len as int) =~= s@);
    }
    out
}

/// Reads a JSON string body out of `s`, starting at `from` (just inside
/// the opening quote): the decoded content and the position just past the
/// closing quote.
fn parse_json_string(s: &str, from: usize) -> (r: Option<(String, usize)>)
    requires
        from <= s@.len(),
    ensures
        match r {
            Some(p) => from < p.1 <= s@.len() && spec_parse_string(s@.skip(from as int)) == Some(
                (p.0@, p.1 - from),
            ),
            None => spec_parse_string(s@.skip(from as int)) is None,
        },
{
    let len = s.unicode_len();
    let mut out = String::new();
    let mut i: usize = from;
    loop
        invariant
            from <= i <= len,
            len == s@.len(),
            spec_parse_string(s@.skip(from as int)) == (match spec_parse_string(
                s@.skip(i as int),
            ) {
                Some(p) => Some((out@ + p.0, (i - from) + p.1)),
                None => None::<(Seq<char>, int)>,
            }),
        decreases len - i,
    {
        let ghost t_i = s@.skip(i as int);
        let ghost prev_out = out@;
        if i >= len {
            proof {
                assert(t_i.len() == 0);
            }
            return None;
        }
        let c = s.get_char(i);
        proof {
            assert(t_i[0] == c);
        }
        if c == '"' {
            proof {
                assert(prev_out + Seq::<char>::empty() =~= prev_out);
            }
            return Some((out, i + 1));
        } else if c == '\\' {
            if i + 1 >= len {
                proof {
                    assert(t_i.len() < 2);
                }
                return None;
            }
            let e = s.get_char(i + 1);
            proof {
                assert(t_i[1] == e);
            }
            if e == '"' || e == '\\' || e == '/' || e == 'b' || e == 'f' || e == 'n' || e == 'r'
                || e == 't' {
                if e == '"' {
                    out.append("\"");
                    proof {
                        reveal_strlit("\"");
                        assert("\""@ =~= seq![unesc_char(e)]);
                    }
                } else if e == '\\' {
                    out.append("\\");
                    proof {
                        reveal_strlit("\\");
                        assert("\\"@ =~= seq![unesc_char(e)]);
                    }
                } else if e == '/' {
                    out.append("/");
                    proof {
                        reveal_strlit("/");
                        assert("/"@ =~= seq![unesc_char(e)]);
                    }
                } else if e == 'b' {
                    out.append("\u{8}");
                    proof {
                        reveal_strlit("\u{8}");
                        assert("\u{8}"@ =~= seq![unesc_char(e)]);
                    }
                } else if e == 'f' {
                    out.append("\u{c}");
                    proof {
                        reveal_strlit("\u{c}");
                        assert("\u{c}"@ =~= seq![unesc_char(e)]);
                    }
                } else if e == 'n' {
                    out.append("\n");
                    proof {
                        reveal_strlit("\n");
                        assert("\n"@ =~= seq![unesc_char(e)]);
                    }
                } else if e == 'r' {
                    out.append("\r");
                    proof {
                        reveal_strlit("\r");
                        assert("\r"@ =~= seq![unesc_char(e)]);
                    }
                } else {
                    out.append("\t");
                    proof {
                        reveal_strlit("\t");
                        assert("\t"@ =~= seq![unesc_char(e)]);
                    }
                }
                proof {
                    assert(out@ == prev_out + seq![unesc_char(e)]);
                    assert(t_i.skip(2) =~= s@.skip(i + 2));
                    match spec_parse_string(s@.skip(i + 2)) {
                        Some(p) => {
                            assert(prev_out + (seq![unesc_char(e)] + p.0) =~= (prev_out
                                + seq![unesc_char(e)]) + p.0);
                        },
                        None => {},
                    }
                }
                i += 2;
            } else if e == 'u' {
                if len - i <= 5 {
                    proof {
                        assert(t_i.len() < 6);
                    }
                    return None;
                }
                let c2 = s.get_char(i + 2);
                let c3 = s.get_char(i + 3);
                let c4 = s.get_char(i + 4);
                let c5 = s.get_char(i + 5);
                proof {
                    assert(t_i[2] == c2);
                    assert(t_i[3] == c3);
                    assert(t_i[4] == c4);
                    assert(t_i[5] == c5);
                }
                proof {
                    assert(!is_named_escape('u'));
                }
                if c2 != '0' || c3 != '0' {
                    return None;
                }
                let h4 = match hex_digit_val(c4) {
                    Some(h) => h,
                    None => {
                        return None;
                    },
                };
                let h5 = match hex_digit_val(c5) {
                    Some(h) => h,
                    None => {
                        return None;
                    },
                };
                let v: u8 = 16 * h4 + h5;
                if v >= 0x20 {
                    proof {
                        assert(16 * hex_val(t_i[4]) + hex_val(t_i[5]) == v as int);
                    }
                    return None;
                }
                out.append(low_char_str(v));
                proof {
                    let big = 16 * hex_val(t_i[4]) + hex_val(t_i[5]);
                    assert(big == v as int);
                    assert((big as u8) as char == v as char);
                    assert(out@ == prev_out + seq![(big as u8) as char]);
                    assert(t_i.skip(6) =~= s@.skip(i + 6));
                    match spec_parse_string(s@.skip(i + 6)) {
                        Some(p) => {
                            assert(prev_out + (seq![(big as u8) as char] + p.0) =~= (prev_out
                                + seq![(big as u8) as char]) + p.0);
                        },
                        None => {},
                    }
                }
                i += 6;
            } else {
                proof {
                    assert(!is_named_escape(t_i[1]));
                    assert(t_i[1] != 'u');
                }
                return None;
            }
        } else {
            out.append(s.substring_char(i, i + 1));
            proof {
                assert(s@.subrange(i as int, i + 1) =~= seq![c]);
                assert(out@ == prev_out + seq![c]);
                assert(t_i.skip(1) =~= s@.skip(i + 1));
                match spec_parse_string(s@.skip(i + 1)) {
                    Some(p) => {
                        assert(prev_out + (seq![c] + p.0) =~= (prev_out + seq![c]) + p.0);
                    },
                    None => {},
                }
            }
            i += 1;
        }
    }
}

/// Writes the whole store as snapshot text.
pub fn encode_snapshot(store: &MemStore) -> (r: String)
    ensures
        r@ == snapshot_chars(store.entries()),
{
    let entries = store.get_string_store_ref();
    let mut out = "{\n  \"strings\": {".to_owned();
    proof {
        reveal_strlit("{\n  \"strings\": {");
        assert(out@ =~= snapshot_header());
    }
    let n = entries.len();
    if n == 0 {
        out.append("}\n}");
        proof {
            reveal_strlit("}\n}");
            assert(out@ =~= snapshot_chars(store.entries()));
        }
        return out;
    }
    let mut i: usize = 0;
    while i < n
        invariant
            n == entries@.len(),
            n == store.entries().len(),
            n >= 1,
            i <= n,
            forall|j: int|
                0 <= j < n ==> (#[trigger] entries@[j]).0@ == store.entries()[j].0
                    && entries@[j].1@ == store.entries()[j].1,
            i == 0 ==> out@ == snapshot_header(),
            i >= 1 ==> out@ == snapshot_header() + entries_chars(store.entries().take(i as int)),
        decreases n - i,
    {
        let ghost before = out@;
        if i == 0 {
            out.append("\n    ");
            proof {
                reveal_strlit("\n    ");
                assert(out@ =~= before + entry_indent());
            }
        } else {
            out.append(",\n    ");
            proof {
                reveal_strlit(",\n    ");
                assert(out@ =~= before + seq![','] + entry_indent());
            }
        }
        let ghost mid = out@;
        out.append("\"");
        let key_escaped = escape_exec(entries[i].0.as_str());
        out.append(key_escaped.as_str());
        out.append("\": \"");
        let val_escaped = escape_exec(entries[i].1.as_str());
        out.append(val_escaped.as_str());
        out.append("\"");
        proof {
            reveal_strlit("\"");
            reveal_strlit("\": \"");
            assert("\""@ =~= seq!['"']);
            assert("\": \""@ =~= seq!['"', ':', ' ', '"']);
            let e = store.entries()[i as int];
            assert(out@ =~= mid + entry_chars(e));
            if i == 0 {
                assert(store.entries().take(1) =~= seq![e]);
                assert(entries_chars(seq![e]) == entry_indent() + entry_chars(e));
                assert(out@ =~= snapshot_header() + entries_chars(store.entries().take(1)));
            } else {
                assert(store.entries().take(i + 1) =~= store.entries().take(i as int).push(e));
                lemma_entries_chars_snoc(store.entries().take(i as int), e);
                assert(out@ =~= snapshot_header() + entries_chars(store.entries().take(i + 1)));
            }
        }
        i += 1;
    }
    out.append("\n  }\n}");
    proof {
        reveal_strlit("\n  }\n}");
        assert("\n  }\n}"@ =~= snapshot_tail());
        assert(store.entries().take(n as int) =~= store.entries());
        assert(out@ =~= snapshot_chars(store.entries()));
    }
    out
}

/// Reads a snapshot back into a store.
///
/// The text must be exactly the canonical shape the encoder writes —
/// fixed indentation, one entry per line, the standard escapes — with
/// each key named once; anything else is an error, never a wrong store.
pub fn decode_snapshot(s: &str) -> (r: Result<MemStore, SnapshotError>)
    ensures
        match r {
            Ok(st) => spec_decode(s@) == Some(st.entries()),
            Err(_) => spec_decode(s@) is None || !unique_keys(spec_decode(s@)->Some_0),
        },
{
    let len = s.unicode_len();
    proof {
        reveal_strlit("{\n  \"strings\": {");
        reveal_strlit("}\n}");
        assert("{\n  \"strings\": {"@ =~= snapshot_header());
        assert("}\n}"@ =~= seq!['}', '\n', '}']);
    }
    if !starts_with_at(s, 0, "{\n  \"strings\": {") {
        return Err(SnapshotError::Malformed);
    }
    let empty_mark = starts_with_at(s, 16, "}\n}");
    if empty_mark && len == 19 {
        let st = MemStore::new();
        proof {
            assert(s@.skip(16) =~= seq!['}', '\n', '}']);
        }
        return Ok(st);
    }
    proof {
        assert(s@.skip(16) != seq!['}', '\n', '}']) by {
            if s@.skip(16) == seq!['}', '\n', '}'] {
                assert(s@.len() == 19);
                assert(s@.subrange(16, 19) =~= s@.skip(16));
            }
        }
    }
    if empty_mark {
        proof {
            let t = s@.skip(16);
            assert(t[0] == s@[16]);
            assert(s@[16] == '}');
            assert(spec_parse_entries(t) is None) by {
                if t.len() >= 6 && t.subrange(0, 6) == entry_open() {
                    assert(t[0] == '\n');
                }
            }
        }
        return Err(SnapshotError::Malformed);
    }
    let mut store = MemStore::new();
    let mut pos: usize = 16;
    proof {
        reveal_strlit("\n    \"");
        reveal_strlit(": \"");
        reveal_strlit(",");
        reveal_strlit("\n  }\n}");
        assert("\n    \""@ =~= entry_open());
        assert(": \""@ =~= kv_sep());
        assert(","@ =~= seq![',']);
        assert("\n  }\n}"@ =~= snapshot_tail());
        assert(store.entries() + Seq::<(Seq<char>, Seq<char>)>::empty() =~= store.entries());
    }
    loop
        invariant
            16 <= pos <= len,
            len == s@.len(),
            spec_parse_entries(s@.skip(16)) == (match spec_parse_entries(s@.skip(pos as int)) {
                Some(more) => Some(store.entries() + more),
                None => None::<Seq<(Seq<char>, Seq<char>)>>,
            }),
            unique_keys(store.entries()),
            s@.len() >= 16,
            s@.subrange(0, 16) == snapshot_header(),
            s@.skip(16) != seq!['}', '\n', '}'],
            "\n    \""@ == entry_open(),
            ": \""@ == kv_sep(),
            ","@ == seq![','],
            "\n  }\n}"@ == snapshot_tail(),
        decreases len - pos,
    {
        let ghost t_pos = s@.skip(pos as int);
        let ghost parsed = store.entries();
        if !starts_with_at(s, pos, "\n    \"") {
            proof {
                assert(spec_parse_entries(t_pos) is None) by {
                    if t_pos.len() >= 6 && t_pos.subrange(0, 6) == entry_open() {
                        assert(s@.subrange(pos as int, pos as int + 6) =~= t_pos.subrange(0, 6));
                    }
                }
            }
            return Err(SnapshotError::Malformed);
        }
        proof {
            assert(t_pos.subrange(0, 6) =~= s@.subrange(pos as int, pos as int + 6));
        }
        let key_parse = parse_json_string(s, pos + 6);
        let (key, key_end) = match key_parse {
            Some(p) => p,
            None => {
                proof {
                    assert(t_pos.skip(6) =~= s@.skip(pos + 6));
                }
                return Err(SnapshotError::Malformed);
            },
        };
        proof {
            assert(t_pos.skip(6) =~= s@.skip(pos + 6));
        }
        let ghost after_key: int = key_end - pos;
        if !starts_with_at(s, key_end, ": \"") {
            proof {
                assert(spec_parse_entries(t_pos) is None) by {
                    if t_pos.len() >= after_key + 3 && t_pos.subrange(after_key, after_key + 3)
                        == kv_sep() {
                        assert(s@.subrange(key_end as int, key_end as int + 3) =~= t_pos.subrange(
                            after_key,
                            after_key + 3,
                        ));
                    }
                }
            }
            return Err(SnapshotError::Malformed);
        }
        proof {
            assert(t_pos.subrange(after_key, after_key + 3) =~= s@.subrange(
                key_end as int,
                key_end as int + 3,
            ));
        }
        let val_parse = parse_json_string(s, key_end + 3);
        let (val, val_end) = match val_parse {
            Some(p) => p,
            None => {
                proof {
                    assert(t_pos.skip(after_key + 3) =~= s@.skip(key_end + 3));
                }
                return Err(SnapshotError::Malformed);
            },
        };
        proof {
            assert(t_pos.skip(after_key + 3) =~= s@.skip(key_end + 3));
        }
        let ghost after_val: int = val_end - pos;
        let ghost entry = (key@, val@);
        let ghost cont = spec_parse_entries(s@.skip(val_end + 1));
        let is_dup = match store.strings.retrieve(key.as_str()) {
            Some(_) => true,
            None => false,
        };
        proof {
            lemma_find_key_deep(store.strings.entries(), key@);
        }
        if is_dup {
            proof {
                lemma_find_key(parsed, key@);
                let i = find_key(parsed, key@)->Some_0;
                assert(parsed[i].0 == key@);
                match spec_parse_entries(t_pos) {
                    Some(more) => {
                        let full = parsed + more;
                        assert(more[0] == entry) by {
                            if after_val < t_pos.len() && t_pos[after_val] == ',' {
                                assert(t_pos.skip(after_val + 1) =~= s@.skip(val_end + 1));
                            }
                        }
                        assert(full[i].0 == key@);
                        assert(full[parsed.len() as int].0 == key@);
                        assert(!unique_keys(full));
                    },
                    None => {},
                }
            }
            return Err(SnapshotError::DuplicateKey);
        }
        let ghost old_store_entries = store.entries();
        store.insert_string(key.as_str(), val.as_str());
        proof {
            assert(store.entries() =~= parsed.push(entry));
            assert(unique_keys(store.entries())) by {
                lemma_find_key(parsed, key@);
                assert(forall|j: int| 0 <= j < parsed.len() ==> (#[trigger] parsed[j]).0 != key@);
                let now = parsed.push(entry);
                assert(forall|a: int, b: int|
                    0 <= a < b < now.len() ==> now[a].0 != now[b].0) by {
                    assert(forall|a: int| 0 <= a < parsed.len() ==> now[a] == (
                    #[trigger] parsed[a]));
                }
            }
        }
        let more_mark = starts_with_at(s, val_end, ",");
        if more_mark {
            proof {
                assert(t_pos[after_val] == s@[val_end as int]);
                assert(s@.subrange(val_end as int, val_end + 1)[0] == s@[val_end as int]);
                assert(s@[val_end as int] == ',');
                assert(t_pos.skip(after_val + 1) =~= s@.skip(val_end + 1));
                match spec_parse_entries(s@.skip(val_end + 1)) {
                    Some(more) => {
                        assert(parsed + (seq![entry] + more) =~= (parsed.push(entry)) + more);
                    },
                    None => {},
                }
            }
            pos = val_end + 1;
        } else {
            let tail_mark = starts_with_at(s, val_end, "\n  }\n}");
            proof {
                assert(!(after_val < t_pos.len() && t_pos[after_val] == ',')) by {
                    if after_val < t_pos.len() {
                        assert(t_pos[after_val] == s@[val_end as int]);
                        if s@[val_end as int] == ',' {
                            assert(s@.subrange(val_end as int, val_end + 1) =~= seq![',']);
                        }
                    }
                }
            }
            if tail_mark && val_end + 6 == len {
                proof {
                    assert(t_pos.skip(after_val) =~= s@.subrange(val_end as int, len as int));
                    assert(s@.subrange(val_end as int, val_end + 6) =~= s@.subrange(
                        val_end as int,
                        len as int,
                    ));
                    assert(t_pos.skip(after_val) == snapshot_tail());
                    assert(spec_parse_entries(t_pos) == Some(seq![entry]));
                    assert(parsed + seq![entry] =~= parsed.push(entry));
                    assert(spec_decode(s@) == spec_parse_entries(s@.skip(16)));
                }
                return Ok(store);
            }
            proof {
                assert(t_pos.skip(after_val) != snapshot_tail()) by {
                    if t_pos.skip(after_val) == snapshot_tail() {
                        assert(t_pos.skip(after_val).len() == 6);
                        assert(val_end + 6 == len);
                        assert(s@.subrange(val_end as int, val_end + 6) =~= t_pos.skip(after_val));
                    }
                }
            }
            return Err(SnapshotError::Malformed);
        }
    }
}

} // verus!
