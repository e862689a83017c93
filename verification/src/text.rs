//! Character and string helpers shared by the codec, the store and the
//! snapshot format: whitespace trimming, splitting and joining on spaces,
//! locating the `::` delimiter, ASCII case folding and a 64-bit FNV-1a hash
//! used to speed up key lookups.

use vstd::prelude::*;
use vstd::string::StrSliceExecFns;
use vstd::string::StringExecFns;

verus! {

/// The characters that count as whitespace when a message is trimmed:
/// the Unicode `White_Space` set.
pub open spec fn is_wspace(c: char) -> bool {
    ||| c == ' '
    ||| c == '\u{9}'
    ||| c == '\n'
    ||| c == '\u{b}'
    ||| c == '\u{c}'
    ||| c == '\r'
    ||| c == '\u{85}'
    ||| c == '\u{a0}'
    ||| c == '\u{1680}'
    ||| ('\u{2000}' <= c && c <= '\u{200a}')
    ||| c == '\u{2028}'
    ||| c == '\u{2029}'
    ||| c == '\u{202f}'
    ||| c == '\u{205f}'
    ||| c == '\u{3000}'
}

/// Decides whether `c` is whitespace.
pub fn is_whitespace_char(c: char) -> (r: bool)
    ensures
        r == is_wspace(c),
{
    c == ' ' || c == '\u{9}' || c == '\n' || c == '\u{b}' || c == '\u{c}' || c == '\r'
        || c == '\u{85}' || c == '\u{a0}' || c == '\u{1680}' || ('\u{2000}' <= c && c
        <= '\u{200a}') || c == '\u{2028}' || c == '\u{2029}' || c == '\u{202f}' || c == '\u{205f}'
        || c == '\u{3000}'
}

/// A lower-case ASCII letter mapped to its upper-case form; any other
/// character is left as it is.
pub open spec fn upper_char(c: char) -> char {
    if 'a' <= c && c <= 'z' {
        ((c as u8) - 0x20) as char
    } else {
        c
    }
}

/// A sequence of characters with each mapped through [`upper_char`].
pub open spec fn upper_seq(s: Seq<char>) -> Seq<char> {
    s.map_values(|c: char| upper_char(c))
}

/// Maps a lower-case ASCII letter to upper case, leaving other characters
/// alone.
pub fn ascii_upper_char(c: char) -> (r: char)
    ensures
        r == upper_char(c),
{
    if 'a' <= c && c <= 'z' {
        ((c as u8) - 0x20) as char
    } else {
        c
    }
}

/// Compares two string slices character by character.
pub fn str_eq(a: &str, b: &str) -> (r: bool)
    ensures
        r == (a@ == b@),
{
    let a_len = a.unicode_len();
    let b_len = b.unicode_len();
    if a_len != b_len {
        assert(a@ != b@);
        return false;
    }
    let mut i: usize = 0;
    while i < a_len
        invariant
            a_len == a@.len(),
            b_len == b@.len(),
            a_len == b_len,
            i <= a_len,
            forall|j: int| 0 <= j < i ==> a@[j] == b@[j],
        decreases a_len - i,
    {
        if a.get_char(i) != b.get_char(i) {
            assert(a@ != b@);
            return false;
        }
        i += 1;
    }
    assert(a@ =~= b@);
    true
}

/// Decides whether `s`, folded to upper case, equals `code`.
pub fn matches_folded(s: &str, code: &str) -> (r: bool)
    ensures
        r == (upper_seq(s@) == code@),
{
    let s_len = s.unicode_len();
    let code_len = code.unicode_len();
    if s_len != code_len {
        assert(upper_seq(s@).len() == s@.len());
        assert(upper_seq(s@) != code@);
        return false;
    }
    let mut i: usize = 0;
    while i < s_len
        invariant
            s_len == s@.len(),
            code_len == code@.len(),
            s_len == code_len,
            i <= s_len,
            forall|j: int| 0 <= j < i ==> upper_char(s@[j]) == code@[j],
        decreases s_len - i,
    {
        if ascii_upper_char(s.get_char(i)) != code.get_char(i) {
            assert(upper_seq(s@)[i as int] != code@[i as int]);
            return false;
        }
        i += 1;
    }
    assert(upper_seq(s@) =~= code@);
    true
}

/// The `::` delimiter stands at position `i` of `s`.
pub open spec fn delim_at(s: Seq<char>, i: int) -> bool {
    &&& 0 <= i
    &&& i + 2 <= s.len()
    &&& s[i] == ':'
    &&& s[i + 1] == ':'
}

/// The position of the first `::` at or after position `i`, if any.
pub open spec fn first_delim_from(s: Seq<char>, i: int) -> Option<int>
    decreases s.len() - i,
{
    if i < 0 || i + 2 > s.len() {
        None
    } else if s[i] == ':' && s[i + 1] == ':' {
        Some(i)
    } else {
        first_delim_from(s, i + 1)
    }
}

pub proof fn lemma_first_delim_from(s: Seq<char>, i: int)
    requires
        0 <= i,
    ensures
        match first_delim_from(s, i) {
            Some(d) => delim_at(s, d) && i <= d && (forall|j: int| i <= j < d ==> !delim_at(s, j)),
            None => forall|j: int| i <= j ==> !delim_at(s, j),
        },
    decreases s.len() - i,
{
    if i + 2 > s.len() {
    } else if s[i] == ':' && s[i + 1] == ':' {
    } else {
        lemma_first_delim_from(s, i + 1);
    }
}

/// Finds the first `::` at or after `from`.
pub fn find_delim(s: &str, from: usize) -> (r: Option<usize>)
    requires
        from <= s@.len(),
    ensures
        match r {
            Some(d) => Some(d as int) == first_delim_from(s@, from as int) && delim_at(s@, d as int),
            None => first_delim_from(s@, from as int) is None,
        },
{
    let len = s.unicode_len();
    let mut i: usize = from;
    while len >= 2 && i <= len - 2
        invariant
            len == s@.len(),
            from <= i,
            i <= len,
            first_delim_from(s@, from as int) == first_delim_from(s@, i as int),
        decreases len - i,
    {
        if s.get_char(i) == ':' && s.get_char(i + 1) == ':' {
            return Some(i);
        }
        i += 1;
    }
    None
}

/// What `s` splits into at each space: the pieces between the spaces, in
/// order. A string without spaces is one piece; every split has at least
/// one piece, and splitting the empty string gives one empty piece.
pub open spec fn split_spaces(s: Seq<char>) -> Seq<Seq<char>>
    decreases s.len(),
{
    if s.len() == 0 {
        seq![Seq::<char>::empty()]
    } else if s[0] == ' ' {
        seq![Seq::<char>::empty()] + split_spaces(s.drop_first())
    } else {
        let rest = split_spaces(s.drop_first());
        seq![seq![s[0]] + rest[0]] + rest.drop_first()
    }
}

pub proof fn lemma_split_spaces_len(s: Seq<char>)
    ensures
        split_spaces(s).len() >= 1,
    decreases s.len(),
{
    if s.len() == 0 {
    } else {
        lemma_split_spaces_len(s.drop_first());
    }
}

/// A string without spaces splits into exactly itself.
pub proof fn lemma_split_no_space(s: Seq<char>)
    requires
        forall|j: int| 0 <= j < s.len() ==> s[j] != ' ',
    ensures
        split_spaces(s) =~= seq![s],
    decreases s.len(),
{
    if s.len() == 0 {
        assert(split_spaces(s) == seq![Seq::<char>::empty()]);
        assert(s =~= Seq::<char>::empty());
    } else {
        lemma_split_no_space(s.drop_first());
        lemma_split_spaces_len(s.drop_first());
        assert(seq![s[0]] + s.drop_first() =~= s);
    }
}

/// Splitting distributes over a space: the pieces of `x + " " + y` are the
/// pieces of `x` followed by the pieces of `y`.
pub proof fn lemma_split_at_space(x: Seq<char>, y: Seq<char>)
    ensures
        split_spaces(x + seq![' '] + y) =~= split_spaces(x) + split_spaces(y),
    decreases x.len(),
{
    let s = x + seq![' '] + y;
    if x.len() == 0 {
        assert(s =~= seq![' '] + y);
        assert(s[0] == ' ');
        assert(s.drop_first() =~= y);
        assert(split_spaces(x) =~= seq![Seq::<char>::empty()]);
    } else {
        lemma_split_at_space(x.drop_first(), y);
        assert(s[0] == x[0]);
        assert(s.drop_first() =~= x.drop_first() + seq![' '] + y);
        lemma_split_spaces_len(x.drop_first());
        if x[0] == ' ' {
            assert(split_spaces(s) =~= seq![Seq::<char>::empty()] + split_spaces(
                x.drop_first() + seq![' '] + y,
            ));
        } else {
            let rest = split_spaces(x.drop_first() + seq![' '] + y);
            assert(rest =~= split_spaces(x.drop_first()) + split_spaces(y));
            assert(rest[0] == split_spaces(x.drop_first())[0]);
            assert(rest.drop_first() =~= split_spaces(x.drop_first()).drop_first() + split_spaces(
                y,
            ));
        }
    }
}

/// The pieces joined back together with a single space between them.
pub open spec fn join_spaces(parts: Seq<Seq<char>>) -> Seq<char>
    decreases parts.len(),
{
    if parts.len() == 0 {
        Seq::<char>::empty()
    } else if parts.len() == 1 {
        parts[0]
    } else {
        parts[0] + seq![' '] + join_spaces(parts.drop_first())
    }
}

/// Splitting undoes joining: when no piece holds a space, the pieces of the
/// joined string are exactly the pieces joined.
pub proof fn lemma_split_join(parts: Seq<Seq<char>>)
    requires
        parts.len() >= 1,
        forall|i: int, j: int| 0 <= i < parts.len() && 0 <= j < parts[i].len() ==> parts[i][j] != ' ',
    ensures
        split_spaces(join_spaces(parts)) =~= parts,
    decreases parts.len(),
{
    if parts.len() == 1 {
        lemma_split_no_space(parts[0]);
        assert(join_spaces(parts) == parts[0]);
        assert(split_spaces(parts[0]) =~= seq![parts[0]]);
        assert(seq![parts[0]] =~= parts);
    } else {
        lemma_split_at_space(parts[0], join_spaces(parts.drop_first()));
        lemma_split_no_space(parts[0]);
        lemma_split_join(parts.drop_first());
        assert(seq![parts[0]] + parts.drop_first() =~= parts);
    }
}

/// Splits `s` at each space.
pub fn split_spaces_exec(s: &str) -> (r: Vec<String>)
    ensures
        r.deep_view() == split_spaces(s@),
{
    let len = s.unicode_len();
    let mut out: Vec<String> = Vec::new();
    let mut start: usize = 0;
    let mut i: usize = 0;
    proof {
        assert(s@.subrange(0, len as int) =~= s@);
        assert(out.deep_view() =~= Seq::<Seq<char>>::empty());
    }
    while i < len
        invariant
            len == s@.len(),
            start <= i,
            i <= len,
            split_spaces(s@) =~= out.deep_view() + split_spaces(s@.subrange(start as int, len as int)),
            forall|j: int| start <= j < i ==> s@[j] != ' ',
        decreases len - i,
    {
        if s.get_char(i) == ' ' {
            let piece = s.substring_char(start, i).to_owned();
            let ghost prev = out.deep_view();
            proof {
                let tail = s@.subrange(start as int, len as int);
                let x = s@.subrange(start as int, i as int);
                let y = s@.subrange(i + 1, len as int);
                assert(tail =~= x + seq![' '] + y);
                lemma_split_at_space(x, y);
                lemma_split_no_space(x);
            }
            out.push(piece);
            proof {
                assert(out.deep_view() =~= prev + seq![s@.subrange(start as int, i as int)]);
            }
            start = i + 1;
        }
        i += 1;
    }
    let piece = s.substring_char(start, len).to_owned();
    let ghost prev = out.deep_view();
    proof {
        let x = s@.subrange(start as int, len as int);
        lemma_split_no_space(x);
    }
    out.push(piece);
    proof {
        assert(out.deep_view() =~= prev + seq![s@.subrange(start as int, len as int)]);
    }
    proof {
        assert(out.deep_view() =~= split_spaces(s@));
    }
    out
}

/// Joins the pieces with a single space between them.
pub fn join_spaces_exec(parts: &Vec<String>) -> (r: String)
    ensures
        r@ == join_spaces(parts.deep_view()),
{
    let mut out = String::new();
    if parts.len() == 0 {
        return out;
    }
    let mut i: usize = 0;
    out.append(parts[0].as_str());
    i = 1;
    while i < parts.len()
        invariant
            1 <= i,
            i <= parts.len(),
            out@ == join_prefix(parts.deep_view(), i as int),
        decreases parts.len() - i,
    {
        out.append(" ");
        out.append(parts[i].as_str());
        proof {
            reveal_strlit(" ");
            assert(" "@ =~= seq![' ']);
            assert(join_prefix(parts.deep_view(), i + 1) =~= join_prefix(parts.deep_view(), i as int)
                + seq![' '] + parts.deep_view()[i as int]);
        }
        i += 1;
    }
    proof {
        lemma_join_prefix_all(parts.deep_view());
    }
    out
}

/// Joins the pieces from position `start` on with a single space between
/// them.
pub fn join_spaces_from(parts: &Vec<String>, start: usize) -> (r: String)
    requires
        start <= parts@.len(),
    ensures
        r@ == join_spaces(parts.deep_view().skip(start as int)),
{
    let ghost tail = parts.deep_view().skip(start as int);
    let mut out = String::new();
    if start >= parts.len() {
        proof {
            assert(tail.len() == 0);
        }
        return out;
    }
    out.append(parts[start].as_str());
    proof {
        assert(tail[0] == parts.deep_view()[start as int]);
        assert(out@ == join_prefix(tail, 1));
    }
    let mut i: usize = start + 1;
    while i < parts.len()
        invariant
            start < i,
            i <= parts@.len(),
            tail == parts.deep_view().skip(start as int),
            out@ == join_prefix(tail, i - start),
        decreases parts@.len() - i,
    {
        out.append(" ");
        out.append(parts[i].as_str());
        proof {
            reveal_strlit(" ");
            assert(" "@ =~= seq![' ']);
            assert(tail[i - start] == parts.deep_view()[i as int]);
            assert(join_prefix(tail, i - start + 1) =~= join_prefix(tail, i - start) + seq![' ']
                + tail[i - start]);
        }
        i += 1;
    }
    proof {
        lemma_join_prefix_all(tail);
    }
    out
}

/// The first `n` pieces joined with single spaces.
pub open spec fn join_prefix(parts: Seq<Seq<char>>, n: int) -> Seq<char>
    decreases n,
{
    if n <= 0 {
        Seq::<char>::empty()
    } else if n == 1 {
        parts[0]
    } else {
        join_prefix(parts, n - 1) + seq![' '] + parts[n - 1]
    }
}

pub proof fn lemma_join_prefix_all(parts: Seq<Seq<char>>)
    ensures
        join_prefix(parts, parts.len() as int) == join_spaces(parts),
{
    lemma_join_prefix_eq(parts, parts.len() as int);
    assert(parts.take(parts.len() as int) =~= parts);
}

/// The two ways of writing the join, front first and back first, agree.
proof fn lemma_join_prefix_eq(parts: Seq<Seq<char>>, n: int)
    requires
        0 <= n <= parts.len(),
    ensures
        join_prefix(parts, n) == join_spaces(parts.take(n)),
    decreases n,
{
    if n <= 0 {
        assert(parts.take(n) =~= Seq::<Seq<char>>::empty());
    } else if n == 1 {
        assert(join_spaces(parts.take(1)) == parts.take(1)[0]);
        assert(parts.take(1)[0] == parts[0]);
    } else {
        lemma_join_prefix_eq(parts, n - 1);
        lemma_join_snoc(parts.take(n));
        assert(parts.take(n).drop_last() =~= parts.take(n - 1));
        assert(parts.take(n).last() == parts[n - 1]);
    }
}

/// Joining pieces with the last one split off.
proof fn lemma_join_snoc(parts: Seq<Seq<char>>)
    requires
        parts.len() >= 2,
    ensures
        join_spaces(parts) == join_spaces(parts.drop_last()) + seq![' '] + parts.last(),
    decreases parts.len(),
{
    if parts.len() == 2 {
        assert(parts.drop_last().len() == 1);
        assert(join_spaces(parts.drop_last()) == parts.drop_last()[0]);
        assert(join_spaces(parts.drop_first()) == parts.drop_first()[0]);
        assert(parts.drop_first()[0] == parts.last());
        assert(parts.drop_last()[0] == parts[0]);
    } else {
        lemma_join_snoc(parts.drop_first());
        assert(parts.drop_first().drop_last() =~= parts.drop_last().drop_first());
        assert(parts.drop_first().last() == parts.last());
        assert(parts.drop_last()[0] == parts[0]);
        assert(join_spaces(parts) == parts[0] + seq![' '] + join_spaces(parts.drop_first()));
        assert(join_spaces(parts.drop_last()) == parts.drop_last()[0] + seq![' '] + join_spaces(
            parts.drop_last().drop_first(),
        ));
        assert((parts[0] + seq![' '] + (join_spaces(parts.drop_first().drop_last()) + seq![' ']
            + parts.last())) =~= (parts[0] + seq![' '] + join_spaces(parts.drop_first().drop_last()))
            + seq![' '] + parts.last());
    }
}

/// `s` with trailing whitespace dropped.
pub open spec fn trim_end_chars(s: Seq<char>) -> Seq<char>
    decreases s.len(),
{
    if s.len() == 0 {
        s
    } else if is_wspace(s.last()) {
        trim_end_chars(s.drop_last())
    } else {
        s
    }
}

/// `s` with leading whitespace dropped.
pub open spec fn trim_start_chars(s: Seq<char>) -> Seq<char>
    decreases s.len(),
{
    if s.len() == 0 {
        s
    } else if is_wspace(s.first()) {
        trim_start_chars(s.drop_first())
    } else {
        s
    }
}

/// `s` with whitespace dropped from both ends.
pub open spec fn trim_chars(s: Seq<char>) -> Seq<char> {
    trim_start_chars(trim_end_chars(s))
}

proof fn lemma_trim_end_is_prefix(s: Seq<char>, n: int)
    requires
        0 <= n <= s.len(),
        n == 0 || !is_wspace(s[n - 1]),
        forall|j: int| n <= j < s.len() ==> is_wspace(s[j]),
    ensures
        trim_end_chars(s) =~= s.subrange(0, n),
    decreases s.len(),
{
    if s.len() == 0 {
    } else if n == s.len() {
        assert(!is_wspace(s.last()));
    } else {
        assert(is_wspace(s.last()));
        lemma_trim_end_is_prefix(s.drop_last(), n);
    }
}

proof fn lemma_trim_start_is_suffix(s: Seq<char>, n: int)
    requires
        0 <= n <= s.len(),
        n == s.len() || !is_wspace(s[n]),
        forall|j: int| 0 <= j < n ==> is_wspace(s[j]),
    ensures
        trim_start_chars(s) =~= s.subrange(n, s.len() as int),
    decreases s.len(),
{
    if s.len() == 0 {
    } else if n == 0 {
        assert(!is_wspace(s.first()));
        assert(s.subrange(0, s.len() as int) =~= s);
    } else {
        assert(is_wspace(s.first()));
        lemma_trim_start_is_suffix(s.drop_first(), n - 1);
        assert(s.drop_first().subrange(n - 1, s.drop_first().len() as int) =~= s.subrange(
            n,
            s.len() as int,
        ));
    }
}

/// Drops whitespace from both ends of `s`.
pub fn trim_exec(s: &str) -> (r: String)
    ensures
        r@ == trim_chars(s@),
{
    let len = s.unicode_len();
    let mut hi: usize = len;
    while hi > 0 && is_whitespace_char(s.get_char(hi - 1))
        invariant
            len == s@.len(),
            hi <= len,
            forall|j: int| hi <= j < len ==> is_wspace(s@[j]),
        decreases hi,
    {
        hi -= 1;
    }
    proof {
        lemma_trim_end_is_prefix(s@, hi as int);
    }
    let mut lo: usize = 0;
    while lo < hi && is_whitespace_char(s.get_char(lo))
        invariant
            len == s@.len(),
            lo <= hi <= len,
            forall|j: int| 0 <= j < lo ==> is_wspace(s@[j]),
        decreases hi - lo,
    {
        lo += 1;
    }
    proof {
        let trimmed_end = s@.subrange(0, hi as int);
        lemma_trim_start_is_suffix(trimmed_end, lo as int);
        assert(trimmed_end.subrange(lo as int, hi as int) =~= s@.subrange(lo as int, hi as int));
    }
    s.substring_char(lo, hi).to_owned()
}

/// Drops trailing whitespace from `s`.
pub fn trim_end_exec(s: &str) -> (r: String)
    ensures
        r@ == trim_end_chars(s@),
{
    let len = s.unicode_len();
    let mut hi: usize = len;
    while hi > 0 && is_whitespace_char(s.get_char(hi - 1))
        invariant
            len == s@.len(),
            hi <= len,
            forall|j: int| hi <= j < len ==> is_wspace(s@[j]),
        decreases hi,
    {
        hi -= 1;
    }
    proof {
        lemma_trim_end_is_prefix(s@, hi as int);
    }
    s.substring_char(0, hi).to_owned()
}

/// The offset basis of 64-bit FNV-1a.
pub open spec fn fnv_offset() -> u64 {
    0xcbf29ce484222325
}

/// The prime of 64-bit FNV-1a.
pub open spec fn fnv_prime() -> u64 {
    0x100000001b3
}

/// One FNV-1a round: fold a character into the running hash.
pub open spec fn fnv_step(h: u64, c: char) -> u64 {
    vstd::wrapping::u64_specs::wrapping_mul(h ^ (c as u64), fnv_prime())
}

/// The 64-bit FNV-1a hash of a character sequence. Two sequences with
/// different hashes are different; the store uses that to skip key
/// comparisons.
pub open spec fn fnv64(s: Seq<char>) -> u64
    decreases s.len(),
{
    if s.len() == 0 {
        fnv_offset()
    } else {
        fnv_step(fnv64(s.drop_last()), s.last())
    }
}

/// Computes the FNV-1a hash of `s`.
pub fn fnv64_exec(s: &str) -> (r: u64)
    ensures
        r == fnv64(s@),
{
    let len = s.unicode_len();
    let mut h: u64 = 0xcbf29ce484222325;
    let mut i: usize = 0;
    while i < len
        invariant
            len == s@.len(),
            i <= len,
            h == fnv64(s@.subrange(0, i as int)),
        decreases len - i,
    {
        let c = s.get_char(i);
        h = (h ^ (c as u64)).wrapping_mul(0x100000001b3);
        proof {
            assert(s@.subrange(0, i + 1).drop_last() =~= s@.subrange(0, i as int));
            assert(s@.subrange(0, i + 1).last() == s@[i as int]);
        }
        i += 1;
    }
    proof {
        assert(s@.subrange(0, len as int) =~= s@);
    }
    h
}

} // verus!
