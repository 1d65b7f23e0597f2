//! Character-sequence utilities shared by the loaders and parsers.
//!
//! Text is handled as `Seq<char>` in specifications; executable code works on
//! `Vec<char>` / `&[char]` and converts to and from `&str` / `String` at the edges.

use vstd::prelude::*;
use vstd::std_specs::iter::IteratorSpec;

verus! {

broadcast use vstd::string::group_string_axioms;

/// `char::is_whitespace`: the Unicode `White_Space` property.
pub open spec fn is_ws(c: char) -> bool {
    ||| c == '\t' || c == '\n' || c == '\u{0B}' || c == '\u{0C}' || c == '\r' || c == ' '
    ||| c == '\u{85}' || c == '\u{A0}' || c == '\u{1680}'
    ||| ('\u{2000}' <= c && c <= '\u{200A}')
    ||| c == '\u{2028}' || c == '\u{2029}' || c == '\u{202F}' || c == '\u{205F}' || c == '\u{3000}'
}

pub fn is_whitespace_char(c: char) -> (r: bool)
    ensures r == is_ws(c),
{
    c == '\t' || c == '\n' || c == '\u{0B}' || c == '\u{0C}' || c == '\r' || c == ' '
        || c == '\u{85}' || c == '\u{A0}' || c == '\u{1680}'
        || ('\u{2000}' <= c && c <= '\u{200A}')
        || c == '\u{2028}' || c == '\u{2029}' || c == '\u{202F}' || c == '\u{205F}' || c == '\u{3000}'
}

/// The characters of a string slice, in order.
pub fn chars_of(s: &str) -> (r: Vec<char>)
    ensures r@ == s@,
{
    let mut out: Vec<char> = Vec::new();
    let mut it = s.chars();
    loop
        invariant
            out@ + it.remaining() == s@,
            it.obeys_prophetic_iter_laws(),
            it.decrease() is Some,
        ensures
            out@ == s@,
        decreases it.decrease()->0,
    {
        let ghost before = it.remaining();
        match it.next() {
            Some(c) => {
                out.push(c);
                assert(out@ + it.remaining() == s@) by {
                    assert(before == seq![c] + it.remaining());
                }
            },
            None => {
                assert(out@ =~= s@);
                break;
            },
        }
    }
    out
}

/// `String::push`, which vstd leaves unspecified: appends one character.
#[verifier::external_body]
pub(crate) fn push_char(s: &mut String, c: char)
    ensures final(s)@ == old(s)@.push(c),
{
    s.push(c);
}

/// Appends every character of `cs` to `s`.
pub fn push_chars(s: &mut String, cs: &[char])
    ensures final(s)@ == old(s)@ + cs@,
{
    let mut i: usize = 0;
    while i < cs.len()
        invariant
            i <= cs@.len(),
            s@ == old(s)@ + cs@.take(i as int),
        decreases cs@.len() - i,
    {
        push_char(s, cs[i]);
        i = i + 1;
        assert(s@ =~= old(s)@ + cs@.take(i as int));
    }
    assert(cs@.take(i as int) =~= cs@);
}

/// The string made of the given characters.
pub fn string_of(cs: &[char]) -> (r: String)
    ensures r@ == cs@,
{
    let mut s = String::new();
    push_chars(&mut s, cs);
    assert(s@ =~= cs@);
    s
}

/// A copy of `s[a..b]`.
pub fn copy_range(s: &[char], a: usize, b: usize) -> (r: Vec<char>)
    requires a <= b <= s@.len(),
    ensures r@ == s@.subrange(a as int, b as int),
{
    let mut out: Vec<char> = Vec::new();
    let mut i = a;
    while i < b
        invariant
            a <= i <= b <= s@.len(),
            out@ == s@.subrange(a as int, i as int),
        decreases b - i,
    {
        out.push(s[i]);
        i = i + 1;
        assert(out@ =~= s@.subrange(a as int, i as int));
    }
    out
}

/// Characters equal as sequences.
pub fn chars_eq(a: &[char], b: &[char]) -> (r: bool)
    ensures r == (a@ == b@),
{
    if a.len() != b.len() {
        return false;
    }
    let mut i: usize = 0;
    while i < a.len()
        invariant
            i <= a@.len(),
            a@.len() == b@.len(),
            forall|j: int| 0 <= j < i ==> a@[j] == b@[j],
        decreases a@.len() - i,
    {
        if a[i] != b[i] {
            return false;
        }
        i = i + 1;
    }
    assert(a@ =~= b@);
    true
}

/// Whether `c` occurs in `s`.
pub fn contains_char(s: &[char], c: char) -> (r: bool)
    ensures r == s@.contains(c),
{
    let mut i: usize = 0;
    while i < s.len()
        invariant
            i <= s@.len(),
            forall|j: int| 0 <= j < i ==> s@[j] != c,
        decreases s@.len() - i,
    {
        if s[i] == c {
            assert(s@[i as int] == c);
            return true;
        }
        i = i + 1;
    }
    false
}

/// `s` begins with `p`.
pub open spec fn has_prefix(s: Seq<char>, p: Seq<char>) -> bool {
    p.len() <= s.len() && s.take(p.len() as int) == p
}

/// `s` ends with `p`.
pub open spec fn has_suffix(s: Seq<char>, p: Seq<char>) -> bool {
    p.len() <= s.len() && s.skip(s.len() - p.len()) == p
}

pub fn starts_with(s: &[char], p: &[char]) -> (r: bool)
    ensures r == has_prefix(s@, p@),
{
    if p.len() > s.len() {
        return false;
    }
    let mut i: usize = 0;
    while i < p.len()
        invariant
            i <= p@.len() <= s@.len(),
            forall|j: int| 0 <= j < i ==> s@[j] == p@[j],
        decreases p@.len() - i,
    {
        if s[i] != p[i] {
            assert(s@.take(p@.len() as int)[i as int] != p@[i as int]);
            return false;
        }
        i = i + 1;
    }
    assert(s@.take(p@.len() as int) =~= p@);
    true
}

pub fn ends_with(s: &[char], p: &[char]) -> (r: bool)
    ensures r == has_suffix(s@, p@),
{
    if p.len() > s.len() {
        return false;
    }
    let off = s.len() - p.len();
    let mut i: usize = 0;
    while i < p.len()
        invariant
            i <= p@.len() <= s@.len(),
            off == s@.len() - p@.len(),
            forall|j: int| 0 <= j < i ==> s@[off + j] == p@[j],
        decreases p@.len() - i,
    {
        assert(off + i < s.len());
        if s[off + i] != p[i] {
            assert(s@.skip(off as int)[i as int] != p@[i as int]);
            return false;
        }
        i = i + 1;
    }
    assert(s@.skip(off as int) =~= p@);
    true
}

// ---------------------------------------------------------------------------
// Trimming

/// `str::trim_start`.
pub open spec fn trim_start_seq(s: Seq<char>) -> Seq<char>
    decreases s.len(),
{
    if s.len() > 0 && is_ws(s[0]) {
        trim_start_seq(s.drop_first())
    } else {
        s
    }
}

/// `str::trim_end`.
pub open spec fn trim_end_seq(s: Seq<char>) -> Seq<char>
    decreases s.len(),
{
    if s.len() > 0 && is_ws(s.last()) {
        trim_end_seq(s.drop_last())
    } else {
        s
    }
}

proof fn lemma_trim_end_shape(s: Seq<char>)
    ensures
        trim_end_seq(s) == s.take(trim_end_seq(s).len() as int),
        trim_end_seq(s).len() <= s.len(),
        trim_end_seq(s).len() > 0 ==> !is_ws(trim_end_seq(s).last()),
    decreases s.len(),
{
    if s.len() > 0 && is_ws(s.last()) {
        lemma_trim_end_shape(s.drop_last());
        assert(s.drop_last().take(trim_end_seq(s).len() as int) =~= s.take(trim_end_seq(s).len() as int));
    } else {
        assert(s.take(s.len() as int) =~= s);
    }
}

proof fn lemma_trim_start_shape(s: Seq<char>)
    ensures
        trim_start_seq(s).len() <= s.len(),
        trim_start_seq(s).len() > 0 ==> !is_ws(trim_start_seq(s)[0]),
    decreases s.len(),
{
    if s.len() > 0 && is_ws(s[0]) {
        lemma_trim_start_shape(s.drop_first());
    }
}

/// Trimming twice is trimming once.
pub proof fn lemma_trim_idempotent(s: Seq<char>)
    ensures trim_seq(trim_seq(s)) == trim_seq(s),
{
    let u = trim_start_seq(s);
    let v = trim_end_seq(u);
    lemma_trim_start_shape(s);
    lemma_trim_end_shape(u);
    if v.len() > 0 {
        assert(v[0] == u[0]);
        assert(trim_start_seq(v) == v);
        assert(trim_end_seq(v) == v);
    } else {
        assert(trim_start_seq(v) == v);
        assert(trim_end_seq(v) == v);
    }
}

/// `str::trim`.
pub open spec fn trim_seq(s: Seq<char>) -> Seq<char> {
    trim_end_seq(trim_start_seq(s))
}

/// Index of the first character of `s` that is not whitespace (or its length).
pub fn trim_start_index(s: &[char]) -> (k: usize)
    ensures
        k <= s@.len(),
        s@.subrange(k as int, s@.len() as int) == trim_start_seq(s@),
{
    let mut i: usize = 0;
    assert(s@.subrange(0, s@.len() as int) =~= s@);
    while i < s.len() && is_whitespace_char(s[i])
        invariant
            i <= s@.len(),
            trim_start_seq(s@) == trim_start_seq(s@.subrange(i as int, s@.len() as int)),
        decreases s@.len() - i,
    {
        assert(s@.subrange(i as int, s@.len() as int).drop_first()
            =~= s@.subrange(i + 1, s@.len() as int));
        i = i + 1;
    }
    i
}

/// One past the last character of `s[..end]` that is not whitespace.
pub fn trim_end_index(s: &[char], start: usize) -> (k: usize)
    requires start <= s@.len(),
    ensures
        start <= k <= s@.len(),
        s@.subrange(start as int, k as int) == trim_end_seq(s@.subrange(start as int, s@.len() as int)),
{
    let mut j: usize = s.len();
    while j > start && is_whitespace_char(s[j - 1])
        invariant
            start <= j <= s@.len(),
            trim_end_seq(s@.subrange(start as int, s@.len() as int))
                == trim_end_seq(s@.subrange(start as int, j as int)),
        decreases j,
    {
        assert(s@.subrange(start as int, j as int).drop_last()
            =~= s@.subrange(start as int, j - 1));
        j = j - 1;
    }
    j
}

/// The bounds of `trim(s)` inside `s`.
pub fn trim_bounds(s: &[char]) -> (r: (usize, usize))
    ensures
        r.0 <= r.1 <= s@.len(),
        s@.subrange(r.0 as int, r.1 as int) == trim_seq(s@),
{
    let a = trim_start_index(s);
    let b = trim_end_index(s, a);
    (a, b)
}

/// A trimmed copy of `s`.
pub fn trim(s: &[char]) -> (r: Vec<char>)
    ensures r@ == trim_seq(s@),
{
    let (a, b) = trim_bounds(s);
    copy_range(s, a, b)
}

/// A copy of `s` without leading whitespace.
pub fn trim_start(s: &[char]) -> (r: Vec<char>)
    ensures r@ == trim_start_seq(s@),
{
    let a = trim_start_index(s);
    copy_range(s, a, s.len())
}

/// Whether `trim(s)` is empty.
pub fn is_blank(s: &[char]) -> (r: bool)
    ensures r == (trim_seq(s@).len() == 0),
{
    let (a, b) = trim_bounds(s);
    a == b
}


// ---------------------------------------------------------------------------
// Sequences of character sequences

/// The character contents of a vector of character vectors.
pub open spec fn seqs(v: Seq<Vec<char>>) -> Seq<Seq<char>> {
    v.map_values(|x: Vec<char>| x@)
}

/// The character contents of a vector of strings.
pub open spec fn strs(v: Seq<String>) -> Seq<Seq<char>> {
    v.map_values(|x: String| x@)
}

/// Strings of a vector of character vectors.
pub fn strings_of(v: &Vec<Vec<char>>) -> (r: Vec<String>)
    ensures strs(r@) == seqs(v@),
{
    let mut out: Vec<String> = Vec::new();
    let mut i: usize = 0;
    while i < v.len()
        invariant
            i <= v@.len(),
            out@.len() == i,
            strs(out@) == seqs(v@).take(i as int),
        decreases v@.len() - i,
    {
        let s = string_of(v[i].as_slice());
        out.push(s);
        i = i + 1;
        assert(out@[i - 1]@ == v@[i - 1]@);
        assert(strs(out@) =~= seqs(v@).take(i as int));
    }
    assert(seqs(v@).take(i as int) =~= seqs(v@));
    out
}

// ---------------------------------------------------------------------------
// Lines

/// The pieces of `s` between `'\n'` characters (`str::split('\n')`); never empty.
pub open spec fn split_nl(s: Seq<char>) -> Seq<Seq<char>>
    decreases s.len(),
{
    if s.len() == 0 {
        seq![Seq::<char>::empty()]
    } else {
        let p = split_nl(s.drop_last());
        if s.last() == '\n' {
            p.push(Seq::<char>::empty())
        } else {
            p.update(p.len() - 1, p.last().push(s.last()))
        }
    }
}

/// A piece without one trailing carriage return.
pub open spec fn strip_cr(p: Seq<char>) -> Seq<char> {
    if p.len() > 0 && p.last() == '\r' {
        p.drop_last()
    } else {
        p
    }
}

/// `str::lines`: pieces ended by `"\n"` or `"\r\n"`; a final empty piece is not a line.
pub open spec fn lines_seq(s: Seq<char>) -> Seq<Seq<char>> {
    let p = split_nl(s);
    let body = Seq::new((p.len() - 1) as nat, |i: int| strip_cr(p[i]));
    if p.last().len() > 0 {
        body.push(p.last())
    } else {
        body
    }
}

pub proof fn lemma_split_nl_nonempty(s: Seq<char>)
    ensures split_nl(s).len() >= 1,
    decreases s.len(),
{
    if s.len() > 0 {
        lemma_split_nl_nonempty(s.drop_last());
    }
}

/// The lines of `s`, as `str::lines` gives them.
pub fn split_lines(s: &[char]) -> (r: Vec<Vec<char>>)
    ensures seqs(r@) == lines_seq(s@),
{
    let mut out: Vec<Vec<char>> = Vec::new();
    let mut cur: Vec<char> = Vec::new();
    let mut i: usize = 0;
    assert(s@.take(0) =~= Seq::<char>::empty());
    while i < s.len()
        invariant
            i <= s@.len(),
            split_nl(s@.take(i as int)).len() >= 1,
            cur@ == split_nl(s@.take(i as int)).last(),
            out@.len() == split_nl(s@.take(i as int)).len() - 1,
            seqs(out@) =~= Seq::new(
                (split_nl(s@.take(i as int)).len() - 1) as nat,
                |j: int| strip_cr(split_nl(s@.take(i as int))[j]),
            ),
        decreases s@.len() - i,
    {
        let ghost p = split_nl(s@.take(i as int));
        let c = s[i];
        assert(s@.take(i + 1).drop_last() =~= s@.take(i as int));
        assert(s@.take(i + 1).last() == c);
        if c == '\n' {
            let ghost old_out = seqs(out@);
            assert(forall|j: int| 0 <= j < p.len() - 1 ==> old_out[j] == strip_cr(p[j]));
            let mut done = cur;
            if done.len() > 0 && done[done.len() - 1] == '\r' {
                done.pop();
            }
            assert(done@ == strip_cr(p.last()));
            out.push(done);
            cur = Vec::new();
            let ghost p2 = split_nl(s@.take(i + 1));
            assert(p2 == p.push(Seq::<char>::empty()));
            assert(forall|j: int| 0 <= j < p.len() ==> p2[j] == p[j]);
            assert(seqs(out@) == old_out.push(done@));
            i = i + 1;
            assert(seqs(out@) =~= Seq::new(
                (split_nl(s@.take(i as int)).len() - 1) as nat,
                |j: int| strip_cr(split_nl(s@.take(i as int))[j]),
            ));
        } else {
            cur.push(c);
            let ghost p2 = split_nl(s@.take(i + 1));
            assert(p2 == p.update(p.len() - 1, p.last().push(c)));
            assert(forall|j: int| 0 <= j < p.len() - 1 ==> p2[j] == p[j]);
            i = i + 1;
            assert(seqs(out@) =~= Seq::new(
                (split_nl(s@.take(i as int)).len() - 1) as nat,
                |j: int| strip_cr(split_nl(s@.take(i as int))[j]),
            ));
        }
    }
    assert(s@.take(i as int) =~= s@);
    if cur.len() > 0 {
        out.push(cur);
    }
    assert(seqs(out@) =~= lines_seq(s@));
    out
}

// ---------------------------------------------------------------------------
// Whitespace-separated tokens

/// `str::split_whitespace`.
pub open spec fn ws_tokens(s: Seq<char>) -> Seq<Seq<char>>
    decreases s.len(),
{
    if s.len() == 0 {
        seq![]
    } else {
        let t = ws_tokens(s.drop_last());
        let c = s.last();
        if is_ws(c) {
            t
        } else if s.len() >= 2 && !is_ws(s[s.len() - 2]) {
            t.update(t.len() - 1, t.last().push(c))
        } else {
            t.push(seq![c])
        }
    }
}

/// The whitespace-separated tokens of `s`.
pub fn split_ws(s: &[char]) -> (r: Vec<Vec<char>>)
    ensures seqs(r@) == ws_tokens(s@),
{
    let mut out: Vec<Vec<char>> = Vec::new();
    let mut i: usize = 0;
    assert(s@.take(0) =~= Seq::<char>::empty());
    while i < s.len()
        invariant
            i <= s@.len(),
            seqs(out@) =~= ws_tokens(s@.take(i as int)),
            (i > 0 && !is_ws(s@[i - 1])) ==> out@.len() > 0,
        decreases s@.len() - i,
    {
        let c = s[i];
        let ghost t = s@.take(i + 1);
        assert(t.drop_last() =~= s@.take(i as int));
        assert(t.last() == c);
        if is_whitespace_char(c) {
        } else if i > 0 && !is_whitespace_char(s[i - 1]) {
            assert(t[t.len() - 2] == s@[i - 1]);
            let mut last = out.pop().unwrap();
            last.push(c);
            out.push(last);
        } else {
            assert(i > 0 ==> t[t.len() - 2] == s@[i - 1]);
            let mut tok: Vec<char> = Vec::new();
            tok.push(c);
            assert(tok@ =~= seq![c]);
            out.push(tok);
        }
        i = i + 1;
        assert(seqs(out@) =~= ws_tokens(s@.take(i as int)));
    }
    assert(s@.take(i as int) =~= s@);
    out
}

// ---------------------------------------------------------------------------
// Decimal numbers

pub open spec fn digit_char(d: int) -> char {
    if d == 0 { '0' } else if d == 1 { '1' } else if d == 2 { '2' } else if d == 3 { '3' }
    else if d == 4 { '4' } else if d == 5 { '5' } else if d == 6 { '6' } else if d == 7 { '7' }
    else if d == 8 { '8' } else { '9' }
}

/// The decimal representation of `n` (as `usize`'s `Display` writes it).
pub open spec fn dec_seq(n: nat) -> Seq<char>
    decreases n,
{
    if n < 10 {
        seq![digit_char(n as int)]
    } else {
        dec_seq(n / 10).push(digit_char((n % 10) as int))
    }
}

fn digit_to_char(d: usize) -> (c: char)
    requires d < 10,
    ensures c == digit_char(d as int),
{
    if d == 0 { '0' } else if d == 1 { '1' } else if d == 2 { '2' } else if d == 3 { '3' }
    else if d == 4 { '4' } else if d == 5 { '5' } else if d == 6 { '6' } else if d == 7 { '7' }
    else if d == 8 { '8' } else { '9' }
}

/// The decimal digits of `n`.
pub fn usize_chars(n: usize) -> (r: Vec<char>)
    ensures r@ == dec_seq(n as nat),
    decreases n,
{
    if n < 10 {
        let mut v: Vec<char> = Vec::new();
        v.push(digit_to_char(n));
        assert(v@ =~= dec_seq(n as nat));
        v
    } else {
        let mut v = usize_chars(n / 10);
        v.push(digit_to_char(n % 10));
        v
    }
}

/// `n.to_string()`.
pub fn usize_string(n: usize) -> (r: String)
    ensures r@ == dec_seq(n as nat),
{
    let v = usize_chars(n);
    string_of(v.as_slice())
}

pub open spec fn is_digit(c: char) -> bool {
    '0' <= c && c <= '9'
}

pub open spec fn all_digits(s: Seq<char>) -> bool {
    forall|i: int| 0 <= i < s.len() ==> is_digit(#[trigger] s[i])
}

/// The value of a run of decimal digits.
pub open spec fn digits_val(s: Seq<char>) -> nat
    decreases s.len(),
{
    if s.len() == 0 {
        0
    } else {
        digits_val(s.drop_last()) * 10 + ((s.last() as int - 48) as nat)
    }
}

/// What an unsigned integer's `FromStr` reads: an optional `+`, then one or
/// more ASCII digits, with a value no greater than `max`.
pub open spec fn parse_unsigned_spec(s: Seq<char>, max: nat) -> Option<nat> {
    let b = if s.len() > 0 && s[0] == '+' { s.drop_first() } else { s };
    if b.len() > 0 && all_digits(b) && digits_val(b) <= max {
        Some(digits_val(b))
    } else {
        None
    }
}

proof fn lemma_digits_val_prefix(s: Seq<char>, j: int)
    requires
        0 <= j <= s.len(),
        all_digits(s),
    ensures
        digits_val(s.take(j)) <= digits_val(s),
    decreases s.len() - j,
{
    if j < s.len() {
        lemma_digits_val_prefix(s, j + 1);
        assert(s.take(j + 1).drop_last() =~= s.take(j));
        assert(is_digit(s[j]));
        assert(digits_val(s.take(j + 1)) == digits_val(s.take(j)) * 10 + ((s[j] as int - 48) as nat));
    } else {
        assert(s.take(j) =~= s);
    }
}

/// Parses an unsigned decimal no greater than `max`, as `str::parse::<usize>()`
/// (or a narrower unsigned type with that maximum) does.
pub fn parse_unsigned(s: &[char], max: usize) -> (r: Option<usize>)
    ensures
        r is Some <==> parse_unsigned_spec(s@, max as nat) is Some,
        r is Some ==> r->0 as nat == parse_unsigned_spec(s@, max as nat)->0,
{
    let start: usize = if s.len() > 0 && s[0] == '+' { 1 } else { 0 };
    let ghost b = if s@.len() > 0 && s@[0] == '+' { s@.drop_first() } else { s@ };
    assert(b =~= s@.skip(start as int));
    if start >= s.len() {
        return None;
    }
    let mut acc: usize = 0;
    let mut i = start;
    let mut overflow = false;
    while i < s.len()
        invariant
            start <= i <= s@.len(),
            b == s@.skip(start as int),
            b == (if s@.len() > 0 && s@[0] == '+' { s@.drop_first() } else { s@ }),
            all_digits(b.take(i - start)),
            !overflow ==> acc as nat == digits_val(b.take(i - start)),
            !overflow ==> acc <= max,
            overflow ==> digits_val(b.take(i - start)) > max,
        decreases s@.len() - i,
    {
        let c = s[i];
        if !('0' <= c && c <= '9') {
            assert(b[i - start] == c);
            assert(!all_digits(b));
            return None;
        }
        let ghost k = (i - start) as int;
        assert(b.take(k + 1).drop_last() =~= b.take(k));
        assert(b.take(k + 1).last() == c);
        assert(all_digits(b.take(k + 1))) by {
            assert forall|j: int| 0 <= j < k + 1 implies is_digit(#[trigger] b.take(k + 1)[j]) by {
                if j < k {
                    assert(b.take(k + 1)[j] == b.take(k)[j]);
                }
            }
        }
        let d = (c as u32 - '0' as u32) as usize;
        if !overflow {
            match acc.checked_mul(10) {
                Some(m) => match m.checked_add(d) {
                    Some(v) => {
                        if v <= max {
                            acc = v;
                        } else {
                            overflow = true;
                        }
                    },
                    None => { overflow = true; },
                },
                None => {
                    overflow = true;
                    assert(digits_val(b.take(k + 1)) >= digits_val(b.take(k)) * 10);
                },
            }
        } else {
            assert(digits_val(b.take(k + 1)) >= digits_val(b.take(k)) * 10) by (nonlinear_arith)
                requires digits_val(b.take(k + 1)) == digits_val(b.take(k)) * 10 + ((c as int - 48) as nat);
            assert(digits_val(b.take(k)) * 10 >= digits_val(b.take(k))) by (nonlinear_arith);
        }
        i = i + 1;
    }
    assert(b.take(i - start) =~= b);
    if overflow {
        None
    } else {
        Some(acc)
    }
}

// ---------------------------------------------------------------------------
// Case-insensitive comparison with ASCII text

/// ASCII lowercase of one character; other characters are unchanged.
pub open spec fn ascii_lower(c: char) -> char {
    if 'A' <= c && c <= 'Z' { ((c as int) + 32) as char } else { c }
}

pub open spec fn ascii_lower_seq(s: Seq<char>) -> Seq<char> {
    s.map_values(|c: char| ascii_lower(c))
}

/// The ASCII lowercase of `s`.
pub fn to_ascii_lower(s: &[char]) -> (r: Vec<char>)
    ensures r@ == ascii_lower_seq(s@),
{
    let mut out: Vec<char> = Vec::new();
    let mut i: usize = 0;
    while i < s.len()
        invariant
            i <= s@.len(),
            out@ =~= ascii_lower_seq(s@).take(i as int),
        decreases s@.len() - i,
    {
        let c = s[i];
        let l = if 'A' <= c && c <= 'Z' { ((c as u8) + 32) as char } else { c };
        assert(l == ascii_lower(c));
        out.push(l);
        i = i + 1;
    }
    out
}

/// Whether the ASCII lowercase of `s` is `lit`.
pub fn eq_ascii_lower(s: &[char], lit: &[char]) -> (r: bool)
    ensures r == (ascii_lower_seq(s@) == lit@),
{
    if s.len() != lit.len() {
        assert(ascii_lower_seq(s@).len() != lit@.len());
        return false;
    }
    let mut i: usize = 0;
    while i < s.len()
        invariant
            i <= s@.len(),
            s@.len() == lit@.len(),
            forall|j: int| 0 <= j < i ==> ascii_lower(s@[j]) == lit@[j],
        decreases s@.len() - i,
    {
        let c = s[i];
        let l = if 'A' <= c && c <= 'Z' { ((c as u8) + 32) as char } else { c };
        assert(l == ascii_lower(c));
        if l != lit[i] {
            assert(ascii_lower_seq(s@)[i as int] != lit@[i as int]);
            return false;
        }
        i = i + 1;
    }
    assert(ascii_lower_seq(s@) =~= lit@);
    true
}


// ---------------------------------------------------------------------------
// Floating-point literals

/// Number of leading ASCII digits.
pub open spec fn lead_digits(s: Seq<char>) -> nat
    decreases s.len(),
{
    if s.len() > 0 && is_digit(s[0]) {
        1 + lead_digits(s.drop_first())
    } else {
        0
    }
}

/// An exponent: `e`/`E`, an optional sign, then one or more digits, to the end.
pub open spec fn exponent_ok(s: Seq<char>) -> bool {
    &&& s.len() >= 2
    &&& (s[0] == 'e' || s[0] == 'E')
    &&& {
        let t = if s[1] == '+' || s[1] == '-' { s.skip(2) } else { s.skip(1) };
        t.len() > 0 && all_digits(t)
    }
}

/// `Digit+ | Digit+ '.' Digit* | Digit* '.' Digit+`, then an optional exponent.
pub open spec fn number_ok(b: Seq<char>) -> bool {
    let i = lead_digits(b);
    let r = b.skip(i as int);
    if r.len() > 0 && r[0] == '.' {
        let f = r.skip(1);
        let j = lead_digits(f);
        let after = f.skip(j as int);
        (i > 0 || j > 0) && (after.len() == 0 || exponent_ok(after))
    } else {
        i > 0 && (r.len() == 0 || exponent_ok(r))
    }
}

/// The text `f64`'s `FromStr` accepts: an optional sign, then `inf`,
/// `infinity`, `nan` (in any ASCII case) or a decimal number.
pub open spec fn float_lit(s: Seq<char>) -> bool {
    let b = if s.len() > 0 && (s[0] == '+' || s[0] == '-') { s.drop_first() } else { s };
    ||| ascii_lower_seq(b) == seq!['i', 'n', 'f']
    ||| ascii_lower_seq(b) == seq!['i', 'n', 'f', 'i', 'n', 'i', 't', 'y']
    ||| ascii_lower_seq(b) == seq!['n', 'a', 'n']
    ||| number_ok(b)
}

/// The index after the run of digits that starts at `a`.
pub fn digits_end(s: &[char], a: usize) -> (k: usize)
    requires a <= s@.len(),
    ensures
        a <= k <= s@.len(),
        k - a == lead_digits(s@.skip(a as int)),
        s@.skip(k as int) == s@.skip(a as int).skip(k - a),
{
    let mut k = a;
    while k < s.len() && '0' <= s[k] && s[k] <= '9'
        invariant
            a <= k <= s@.len(),
            lead_digits(s@.skip(a as int)) == (k - a) + lead_digits(s@.skip(k as int)),
        decreases s@.len() - k,
    {
        assert(s@.skip(k as int).drop_first() =~= s@.skip(k + 1));
        k = k + 1;
    }
    assert(s@.skip(k as int) =~= s@.skip(a as int).skip(k - a));
    k
}

/// Whether `s[a..]` is made of digits only.
pub fn all_digits_from(s: &[char], a: usize) -> (r: bool)
    requires a <= s@.len(),
    ensures r == all_digits(s@.skip(a as int)),
{
    let mut k = a;
    while k < s.len()
        invariant
            a <= k <= s@.len(),
            forall|j: int| a <= j < k ==> is_digit(s@[j]),
        decreases s@.len() - k,
    {
        if !('0' <= s[k] && s[k] <= '9') {
            assert(!is_digit(s@.skip(a as int)[k - a]));
            return false;
        }
        k = k + 1;
    }
    assert forall|j: int| 0 <= j < s@.skip(a as int).len() implies is_digit(#[trigger] s@.skip(a as int)[j]) by {
        assert(s@.skip(a as int)[j] == s@[a + j]);
    }
    true
}

fn exponent_ok_at(s: &[char], a: usize) -> (r: bool)
    requires a <= s@.len(),
    ensures r == exponent_ok(s@.skip(a as int)),
{
    let ghost t = s@.skip(a as int);
    if s.len() - a < 2 {
        return false;
    }
    if !(s[a] == 'e' || s[a] == 'E') {
        assert(t[0] == s@[a as int]);
        return false;
    }
    assert(t[0] == s@[a as int] && t[1] == s@[a + 1]);
    let d = if s[a + 1] == '+' || s[a + 1] == '-' { a + 2 } else { a + 1 };
    assert(s@.skip(d as int) =~= if t[1] == '+' || t[1] == '-' { t.skip(2) } else { t.skip(1) });
    d < s.len() && all_digits_from(s, d)
}

/// Whether `s` reads as an `f64` with `str::parse`.
pub fn is_float_literal(s: &[char]) -> (r: bool)
    ensures r == float_lit(s@),
{
    let a: usize = if s.len() > 0 && (s[0] == '+' || s[0] == '-') { 1 } else { 0 };
    let ghost b = if s@.len() > 0 && (s@[0] == '+' || s@[0] == '-') { s@.drop_first() } else { s@ };
    assert(b =~= s@.skip(a as int));
    let body = copy_range(s, a, s.len());
    assert(body@ == b);
    let inf = vec!['i', 'n', 'f'];
    let infinity = vec!['i', 'n', 'f', 'i', 'n', 'i', 't', 'y'];
    let nan = vec!['n', 'a', 'n'];
    assert(inf@ =~= seq!['i', 'n', 'f']);
    assert(infinity@ =~= seq!['i', 'n', 'f', 'i', 'n', 'i', 't', 'y']);
    assert(nan@ =~= seq!['n', 'a', 'n']);
    if eq_ascii_lower(body.as_slice(), inf.as_slice())
        || eq_ascii_lower(body.as_slice(), infinity.as_slice())
        || eq_ascii_lower(body.as_slice(), nan.as_slice()) {
        return true;
    }
    let bs = body.as_slice();
    let i = digits_end(bs, 0);
    assert(b.skip(0) =~= b);
    let ghost r = b.skip(i as int);
    if i < bs.len() && bs[i] == '.' {
        assert(r[0] == b[i as int]);
        let j = digits_end(bs, i + 1);
        assert(b.skip(i + 1) =~= r.skip(1));
        let ghost f = r.skip(1);
        assert(b.skip(j as int) =~= f.skip(j - (i + 1)));
        (i > 0 || j > i + 1) && (j == bs.len() || exponent_ok_at(bs, j))
    } else {
        assert(i < bs.len() ==> r[0] == b[i as int]);
        i > 0 && (i == bs.len() || exponent_ok_at(bs, i))
    }
}


// ---------------------------------------------------------------------------
// Splitting on a character

/// The pieces of `s` between occurrences of `sep` (`str::split(sep)`); never empty.
pub open spec fn split_on(s: Seq<char>, sep: char) -> Seq<Seq<char>>
    decreases s.len(),
{
    if s.len() == 0 {
        seq![Seq::<char>::empty()]
    } else {
        let p = split_on(s.drop_last(), sep);
        if s.last() == sep {
            p.push(Seq::<char>::empty())
        } else {
            p.update(p.len() - 1, p.last().push(s.last()))
        }
    }
}

/// The pieces of `s` between occurrences of `sep`.
pub fn split_char(s: &[char], sep: char) -> (r: Vec<Vec<char>>)
    ensures
        seqs(r@) == split_on(s@, sep),
        r@.len() >= 1,
{
    let mut out: Vec<Vec<char>> = Vec::new();
    out.push(Vec::new());
    let mut i: usize = 0;
    assert(s@.take(0) =~= Seq::<char>::empty());
    assert(seqs(out@) =~= split_on(s@.take(0), sep));
    while i < s.len()
        invariant
            i <= s@.len(),
            out@.len() >= 1,
            seqs(out@) =~= split_on(s@.take(i as int), sep),
        decreases s@.len() - i,
    {
        let c = s[i];
        assert(s@.take(i + 1).drop_last() =~= s@.take(i as int));
        assert(s@.take(i + 1).last() == c);
        if c == sep {
            out.push(Vec::new());
        } else {
            let mut last = out.pop().unwrap();
            last.push(c);
            out.push(last);
        }
        i = i + 1;
        assert(seqs(out@) =~= split_on(s@.take(i as int), sep));
    }
    assert(s@.take(i as int) =~= s@);
    out
}

/// Index of the last `c` in `s`, or -1.
pub open spec fn last_index_of(s: Seq<char>, c: char) -> int
    decreases s.len(),
{
    if s.len() == 0 {
        -1
    } else if s.last() == c {
        s.len() - 1
    } else {
        last_index_of(s.drop_last(), c)
    }
}

proof fn lemma_last_index_bounds(s: Seq<char>, c: char)
    ensures
        -1 <= last_index_of(s, c) < s.len(),
        last_index_of(s, c) >= 0 ==> s[last_index_of(s, c)] == c,
    decreases s.len(),
{
    if s.len() > 0 && s.last() != c {
        lemma_last_index_bounds(s.drop_last(), c);
    }
}

/// The position of the last `c` in `s`.
pub fn find_last(s: &[char], c: char) -> (r: Option<usize>)
    ensures
        r is None <==> last_index_of(s@, c) == -1,
        r is Some ==> r->0 as int == last_index_of(s@, c),
        r is Some ==> r->0 < s@.len(),
{
    let mut j = s.len();
    assert(s@.take(j as int) =~= s@);
    while j > 0
        invariant
            j <= s@.len(),
            last_index_of(s@, c) == last_index_of(s@.take(j as int), c),
        decreases j,
    {
        assert(s@.take(j as int).last() == s@[j - 1]);
        if s[j - 1] == c {
            return Some(j - 1);
        }
        assert(s@.take(j as int).drop_last() =~= s@.take(j - 1));
        j = j - 1;
    }
    None
}


// ---------------------------------------------------------------------------
// Counting and replacing

/// Occurrences of `c` in `s`.
pub open spec fn count_of(s: Seq<char>, c: char) -> nat
    decreases s.len(),
{
    if s.len() == 0 {
        0
    } else {
        count_of(s.drop_last(), c) + if s.last() == c { 1nat } else { 0nat }
    }
}

pub fn count_char(s: &[char], c: char) -> (r: usize)
    ensures r as nat == count_of(s@, c),
{
    let mut n: usize = 0;
    let mut i: usize = 0;
    assert(s@.take(0) =~= Seq::<char>::empty());
    while i < s.len()
        invariant
            i <= s@.len(),
            n <= i,
            n as nat == count_of(s@.take(i as int), c),
        decreases s@.len() - i,
    {
        assert(s@.take(i + 1).drop_last() =~= s@.take(i as int));
        if s[i] == c {
            n = n + 1;
        }
        i = i + 1;
    }
    assert(s@.take(i as int) =~= s@);
    n
}

/// Non-overlapping occurrences of the two-character pattern `a b`, scanning
/// left to right (`str::matches(..).count()`).
pub open spec fn count_pair(s: Seq<char>, a: char, b: char) -> nat
    decreases s.len(),
{
    if s.len() < 2 {
        0
    } else if s[0] == a && s[1] == b {
        1 + count_pair(s.skip(2), a, b)
    } else {
        count_pair(s.drop_first(), a, b)
    }
}

/// `s` with every non-overlapping `a b` (left to right) replaced by `r`
/// (`str::replace` of a two-character pattern by one character).
pub open spec fn replace_pair(s: Seq<char>, a: char, b: char, r: char) -> Seq<char>
    decreases s.len(),
{
    if s.len() < 2 {
        s
    } else if s[0] == a && s[1] == b {
        seq![r] + replace_pair(s.skip(2), a, b, r)
    } else {
        seq![s[0]] + replace_pair(s.drop_first(), a, b, r)
    }
}

pub fn count_pairs(s: &[char], a: char, b: char) -> (r: usize)
    ensures r as nat == count_pair(s@, a, b),
{
    let mut n: usize = 0;
    let mut i: usize = 0;
    assert(s@.skip(0) =~= s@);
    while i < s.len()
        invariant
            i <= s@.len(),
            n <= i,
            n + count_pair(s@.skip(i as int), a, b) == count_pair(s@, a, b),
        decreases s@.len() - i,
    {
        let ghost rest = s@.skip(i as int);
        if i + 1 < s.len() && s[i] == a && s[i + 1] == b {
            assert(rest.skip(2) =~= s@.skip(i + 2));
            n = n + 1;
            i = i + 2;
        } else {
            if i + 1 < s.len() {
                assert(rest.drop_first() =~= s@.skip(i + 1));
            } else {
                assert(count_pair(s@.skip(i + 1), a, b) == 0);
            }
            i = i + 1;
        }
    }
    assert(s@.skip(i as int).len() == 0);
    n
}

pub fn replace_pairs(s: &[char], a: char, b: char, r: char) -> (out: Vec<char>)
    ensures out@ == replace_pair(s@, a, b, r),
{
    let mut out: Vec<char> = Vec::new();
    let mut i: usize = 0;
    assert(s@.skip(0) =~= s@);
    while i < s.len()
        invariant
            i <= s@.len(),
            out@ + replace_pair(s@.skip(i as int), a, b, r) == replace_pair(s@, a, b, r),
        decreases s@.len() - i,
    {
        let ghost rest = s@.skip(i as int);
        if i + 1 < s.len() && s[i] == a && s[i + 1] == b {
            assert(rest.skip(2) =~= s@.skip(i + 2));
            out.push(r);
            assert(out@ + replace_pair(s@.skip(i + 2), a, b, r) =~= replace_pair(s@, a, b, r));
            i = i + 2;
        } else {
            if i + 1 < s.len() {
                assert(rest.drop_first() =~= s@.skip(i + 1));
                out.push(s[i]);
                assert(out@ + replace_pair(s@.skip(i + 1), a, b, r) =~= replace_pair(s@, a, b, r));
            } else {
                assert(rest =~= seq![s@[i as int]]);
                assert(replace_pair(rest, a, b, r) == rest);
                out.push(s[i]);
                assert(s@.skip(i + 1) =~= Seq::<char>::empty());
                assert(out@ + replace_pair(s@.skip(i + 1), a, b, r) =~= replace_pair(s@, a, b, r));
            }
            i = i + 1;
        }
    }
    assert(s@.skip(i as int) =~= Seq::<char>::empty());
    assert(out@ =~= replace_pair(s@, a, b, r));
    out
}


// ---------------------------------------------------------------------------
// Joining and searching

/// `s` with the characters of `lit` appended.
pub fn append_str(s: &mut String, lit: &str)
    ensures final(s)@ == old(s)@ + lit@,
{
    let cs = chars_of(lit);
    push_chars(s, cs.as_slice());
}

/// The pieces joined with `sep` between each two (`[..].join(sep)`).
pub open spec fn join_with(parts: Seq<Seq<char>>, sep: Seq<char>) -> Seq<char>
    decreases parts.len(),
{
    if parts.len() == 0 {
        Seq::empty()
    } else if parts.len() == 1 {
        parts[0]
    } else {
        join_with(parts.drop_last(), sep) + sep + parts.last()
    }
}

/// The first `k` strings joined with `sep` between each two.
pub fn join_first(parts: &[String], k: usize, sep: &str) -> (r: String)
    requires k <= parts@.len(),
    ensures r@ == join_with(strs(parts@).take(k as int), sep@),
{
    let mut out = String::new();
    let mut i: usize = 0;
    while i < k
        invariant
            i <= k <= parts@.len(),
            out@ == join_with(strs(parts@).take(i as int), sep@),
        decreases k - i,
    {
        let ghost t = strs(parts@).take(i + 1);
        assert(t.drop_last() =~= strs(parts@).take(i as int));
        assert(t.last() == parts@[i as int]@);
        if i > 0 {
            append_str(&mut out, sep);
        }
        append_str(&mut out, parts[i].as_str());
        i = i + 1;
        assert(i == 1 ==> strs(parts@).take(i as int) =~= seq![parts@[0]@]);
    }
    out
}

/// The strings joined with `sep` between each two.
pub fn join_strings(parts: &[String], sep: &str) -> (r: String)
    ensures r@ == join_with(strs(parts@), sep@),
{
    assert(strs(parts@).take(parts@.len() as int) =~= strs(parts@));
    join_first(parts, parts.len(), sep)
}

/// `p` occurs in `s`.
pub open spec fn has_substring(s: Seq<char>, p: Seq<char>) -> bool {
    exists|i: int| 0 <= i && i + p.len() <= s.len() && #[trigger] s.subrange(i, i + p.len()) == p
}

/// The number of places where `p` occurs in `s` (overlapping ones counted).
pub open spec fn occurrences(s: Seq<char>, p: Seq<char>) -> nat
    decreases s.len(),
{
    if s.len() == 0 || p.len() == 0 {
        0
    } else {
        (if has_prefix(s, p) { 1nat } else { 0nat }) + occurrences(s.drop_first(), p)
    }
}

/// Occurrences in a concatenation are those of the two parts when no
/// occurrence can straddle the joint: the last character of `a` is not in
/// `p`, or the first of `b` is not in `p` after its first character.
pub proof fn lemma_occurrences_concat(a: Seq<char>, b: Seq<char>, p: Seq<char>)
    requires
        p.len() > 0,
        a.len() == 0 || b.len() == 0 || !p.contains(a.last()) || !p.drop_first().contains(b[0]),
    ensures
        occurrences(a + b, p) == occurrences(a, p) + occurrences(b, p),
    decreases a.len(),
{
    if a.len() == 0 {
        assert(a + b =~= b);
    } else if b.len() == 0 {
        assert(a + b =~= a);
    } else {
        assert((a + b).drop_first() =~= a.drop_first() + b);
        if a.len() >= 2 {
            assert(a.drop_first().last() == a.last());
        }
        lemma_occurrences_concat(a.drop_first(), b, p);
        if a.len() >= p.len() {
            assert((a + b).take(p.len() as int) =~= a.take(p.len() as int));
        } else if has_prefix(a + b, p) {
            assert((a + b).take(p.len() as int) == p);
            assert(p[a.len() - 1] == (a + b)[a.len() - 1]);
            assert(p[a.len() as int] == (a + b)[a.len() as int]);
            assert(p.contains(a.last()));
            assert(p.drop_first()[a.len() - 1] == b[0]);
            assert(p.drop_first().contains(b[0]));
        }
    }
}

/// Text without the first character of `p` holds no occurrence of it.
pub proof fn lemma_occurrences_absent(s: Seq<char>, p: Seq<char>)
    requires
        p.len() > 0,
        forall|i: int| 0 <= i < s.len() ==> s[i] != p[0],
    ensures
        occurrences(s, p) == 0,
    decreases s.len(),
{
    if s.len() > 0 {
        assert(s.drop_first().len() < s.len());
        assert forall|i: int| 0 <= i < s.drop_first().len() implies s.drop_first()[i] != p[0] by {
            assert(s.drop_first()[i] == s[i + 1]);
        }
        lemma_occurrences_absent(s.drop_first(), p);
        if has_prefix(s, p) {
            assert(s.take(p.len() as int)[0] == s[0]);
        }
    }
}

/// Text whose only occurrence of `p`'s first character is its first
/// character holds `p` once if it starts with `p`, else not at all.
pub proof fn lemma_occurrences_lead(s: Seq<char>, p: Seq<char>)
    requires
        p.len() > 0,
        forall|i: int| 1 <= i < s.len() ==> s[i] != p[0],
    ensures
        occurrences(s, p) == (if s.len() > 0 && has_prefix(s, p) { 1nat } else { 0nat }),
{
    if s.len() > 0 {
        assert forall|i: int| 0 <= i < s.drop_first().len() implies s.drop_first()[i] != p[0] by {
            assert(s.drop_first()[i] == s[i + 1]);
        }
        lemma_occurrences_absent(s.drop_first(), p);
    }
}

/// Whether `p` occurs in `s`.
pub fn contains_seq(s: &[char], p: &[char]) -> (r: bool)
    ensures r == has_substring(s@, p@),
{
    let n = s.len();
    let m = p.len();
    if m == 0 {
        assert(s@.subrange(0, 0 + p@.len() as int) =~= p@);
        return true;
    }
    if m > n {
        return false;
    }
    let end = n - m + 1;
    let mut i: usize = 0;
    while i < end
        invariant
            n == s@.len(),
            m == p@.len(),
            1 <= m <= n,
            end == n - m + 1,
            i <= end,
            forall|j: int| 0 <= j < i ==> #[trigger] s@.subrange(j, j + m) != p@,
        decreases end - i,
    {
        let mut k: usize = 0;
        let mut same = true;
        while k < m
            invariant
                n == s@.len(),
                m == p@.len(),
                k <= m,
                i + m <= n,
                same == (forall|q: int| 0 <= q < k ==> s@[i + q] == p@[q]),
            decreases m - k,
        {
            if s[i + k] != p[k] {
                same = false;
            }
            k = k + 1;
        }
        if same {
            assert(s@.subrange(i as int, i + m) =~= p@);
            return true;
        }
        assert(s@.subrange(i as int, i + m) != p@) by {
            let q = choose|q: int| 0 <= q < m && s@[i + q] != p@[q];
            assert(s@.subrange(i as int, i + m)[q] == s@[i + q]);
        }
        i = i + 1;
    }
    proof {
        if has_substring(s@, p@) {
            let w = choose|w: int| 0 <= w && w + p@.len() <= s@.len() && #[trigger] s@.subrange(w, w + p@.len()) == p@;
            assert(s@.subrange(w, w + m) != p@);
        }
    }
    false
}

} // verus!
