//! Inline Markdown in slide text: `**bold**`, `*italic*` and `` `code` ``.

use vstd::prelude::*;
use crate::text::{chars_of, copy_range, string_of};

verus! {

/// How a piece of slide text is shown.
#[derive(Debug, Clone, Copy, PartialEq, Eq, Structural)]
pub enum SpanStyle {
    Plain,
    Bold,
    Italic,
    Code,
}

/// A piece of slide text with its style.
#[derive(Debug, Clone, PartialEq)]
pub struct InlineSpan {
    pub text: String,
    pub style: SpanStyle,
}

impl View for InlineSpan {
    type V = (Seq<char>, SpanStyle);

    open spec fn view(&self) -> (Seq<char>, SpanStyle) {
        (self.text@, self.style)
    }
}

pub open spec fn spans_view(v: Seq<InlineSpan>) -> Seq<(Seq<char>, SpanStyle)> {
    v.map_values(|s: InlineSpan| s@)
}

/// Index of the first `c` in `s` at or after `i`, or -1.
pub open spec fn find_char_from(s: Seq<char>, c: char, i: int) -> int
    decreases s.len() - i,
{
    if i < 0 || i >= s.len() {
        -1
    } else if s[i] == c {
        i
    } else {
        find_char_from(s, c, i + 1)
    }
}

/// Index of the first `cc` in `s` at or after `i`, or -1.
pub open spec fn find_pair_from(s: Seq<char>, c: char, i: int) -> int
    decreases s.len() - i,
{
    if i < 0 || i + 1 >= s.len() {
        -1
    } else if s[i] == c && s[i + 1] == c {
        i
    } else {
        find_pair_from(s, c, i + 1)
    }
}

pub proof fn lemma_find_char_bounds(s: Seq<char>, c: char, i: int)
    ensures
        find_char_from(s, c, i) == -1 || (i <= find_char_from(s, c, i) < s.len()),
    decreases s.len() - i,
{
    if 0 <= i < s.len() && s[i] != c {
        lemma_find_char_bounds(s, c, i + 1);
    }
}

pub proof fn lemma_find_pair_bounds(s: Seq<char>, c: char, i: int)
    ensures
        find_pair_from(s, c, i) == -1 || (i <= find_pair_from(s, c, i) && find_pair_from(s, c, i) + 2 <= s.len()),
    decreases s.len() - i,
{
    if 0 <= i && i + 1 < s.len() && !(s[i] == c && s[i + 1] == c) {
        lemma_find_pair_bounds(s, c, i + 1);
    }
}

/// A plain span for the text before a marker, if there is any.
pub open spec fn plain_before(r: Seq<char>, k: int) -> Seq<(Seq<char>, SpanStyle)> {
    if k > 0 {
        seq![(r.take(k), SpanStyle::Plain)]
    } else {
        Seq::empty()
    }
}

/// The spans of `r`: the first `**..**` pair makes a bold span; failing
/// that, the first `*..*` an italic one; failing that, the first `` `..` ``
/// a code span; text before the marker is plain, and the rest is read the
/// same way. Text without a closed marker is one plain span.
pub open spec fn inline_spans_spec(r: Seq<char>) -> Seq<(Seq<char>, SpanStyle)>
    decreases r.len(),
{
    if r.len() == 0 {
        Seq::empty()
    } else {
        let b = find_pair_from(r, '*', 0);
        let be = if b >= 0 { find_pair_from(r.skip(b + 2), '*', 0) } else { -1 };
        let i = find_char_from(r, '*', 0);
        let ie = if i >= 0 { find_char_from(r.skip(i + 1), '*', 0) } else { -1 };
        let k = find_char_from(r, '`', 0);
        let ke = if k >= 0 { find_char_from(r.skip(k + 1), '`', 0) } else { -1 };
        proof {
            lemma_find_pair_bounds(r, '*', 0);
            lemma_find_char_bounds(r, '*', 0);
            lemma_find_char_bounds(r, '`', 0);
            if b >= 0 {
                lemma_find_pair_bounds(r.skip(b + 2), '*', 0);
            }
            if i >= 0 {
                lemma_find_char_bounds(r.skip(i + 1), '*', 0);
            }
            if k >= 0 {
                lemma_find_char_bounds(r.skip(k + 1), '`', 0);
            }
        }
        if b >= 0 && be >= 0 {
            plain_before(r, b) + seq![(r.subrange(b + 2, b + 2 + be), SpanStyle::Bold)]
                + inline_spans_spec(r.skip(b + be + 4))
        } else if i >= 0 && ie >= 0 {
            plain_before(r, i) + seq![(r.subrange(i + 1, i + 1 + ie), SpanStyle::Italic)]
                + inline_spans_spec(r.skip(i + ie + 2))
        } else if k >= 0 && ke >= 0 {
            plain_before(r, k) + seq![(r.subrange(k + 1, k + 1 + ke), SpanStyle::Code)]
                + inline_spans_spec(r.skip(k + ke + 2))
        } else {
            seq![(r, SpanStyle::Plain)]
        }
    }
}

/// The spans of a line of slide text (a single plain span for empty text).
pub open spec fn parse_inline_spec(text: Seq<char>) -> Seq<(Seq<char>, SpanStyle)> {
    let s = inline_spans_spec(text);
    if s.len() == 0 {
        seq![(text, SpanStyle::Plain)]
    } else {
        s
    }
}

fn find_char(s: &[char], c: char) -> (r: Option<usize>)
    ensures
        r is None <==> find_char_from(s@, c, 0) < 0,
        r is Some ==> r->0 as int == find_char_from(s@, c, 0),
{
    let mut i: usize = 0;
    while i < s.len()
        invariant
            i <= s@.len(),
            find_char_from(s@, c, 0) == find_char_from(s@, c, i as int),
        decreases s@.len() - i,
    {
        if s[i] == c {
            return Some(i);
        }
        i = i + 1;
    }
    None
}

fn find_pair(s: &[char], c: char) -> (r: Option<usize>)
    ensures
        r is None <==> find_pair_from(s@, c, 0) < 0,
        r is Some ==> r->0 as int == find_pair_from(s@, c, 0),
{
    let n = s.len();
    let mut i: usize = 0;
    while i < n && n - i >= 2
        invariant
            n == s@.len(),
            i <= s@.len(),
            find_pair_from(s@, c, 0) == find_pair_from(s@, c, i as int),
        decreases s@.len() - i,
    {
        if s[i] == c && s[i + 1] == c {
            return Some(i);
        }
        i = i + 1;
    }
    None
}

fn span_of(cs: &[char], a: usize, b: usize, style: SpanStyle) -> (r: InlineSpan)
    requires a <= b <= cs@.len(),
    ensures r@ == (cs@.subrange(a as int, b as int), style),
{
    InlineSpan { text: string_of(copy_range(cs, a, b).as_slice()), style }
}

/// One step of reading: the spans up to and including the first marked
/// span, and the text left after it; `None` when no marker is closed.
fn next_spans(r: &[char]) -> (res: Option<(Vec<InlineSpan>, usize)>)
    requires r@.len() > 0,
    ensures
        match res {
            Some((v, k)) => 0 < k <= r@.len() && spans_view(v@) + inline_spans_spec(r@.skip(k as int))
                == inline_spans_spec(r@),
            None => inline_spans_spec(r@) == seq![(r@, SpanStyle::Plain)],
        },
{
    let n = r.len();
    proof {
        lemma_find_pair_bounds(r@, '*', 0);
        lemma_find_char_bounds(r@, '*', 0);
        lemma_find_char_bounds(r@, '`', 0);
    }
    let mut out: Vec<InlineSpan> = Vec::new();
    match find_pair(r, '*') {
        Some(b) => {
            let tail = copy_range(r, b + 2, n);
            assert(tail@ =~= r@.skip(b + 2));
            proof {
                lemma_find_pair_bounds(tail@, '*', 0);
            }
            match find_pair(tail.as_slice(), '*') {
                Some(be) => {
                    if b > 0 {
                        out.push(span_of(r, 0, b, SpanStyle::Plain));
                    }
                    out.push(span_of(r, b + 2, b + 2 + be, SpanStyle::Bold));
                    assert(r@.take(b as int) =~= r@.subrange(0, b as int));
                    assert(spans_view(out@) =~= plain_before(r@, b as int)
                        + seq![(r@.subrange(b + 2, b + 2 + be), SpanStyle::Bold)]);
                    return Some((out, b + be + 4));
                },
                None => {},
            }
        },
        None => {},
    }
    match find_char(r, '*') {
        Some(i) => {
            let tail = copy_range(r, i + 1, n);
            assert(tail@ =~= r@.skip(i + 1));
            proof {
                lemma_find_char_bounds(tail@, '*', 0);
            }
            match find_char(tail.as_slice(), '*') {
                Some(ie) => {
                    if i > 0 {
                        out.push(span_of(r, 0, i, SpanStyle::Plain));
                    }
                    out.push(span_of(r, i + 1, i + 1 + ie, SpanStyle::Italic));
                    assert(r@.take(i as int) =~= r@.subrange(0, i as int));
                    assert(spans_view(out@) =~= plain_before(r@, i as int)
                        + seq![(r@.subrange(i + 1, i + 1 + ie), SpanStyle::Italic)]);
                    return Some((out, i + ie + 2));
                },
                None => {},
            }
        },
        None => {},
    }
    match find_char(r, '`') {
        Some(k) => {
            let tail = copy_range(r, k + 1, n);
            assert(tail@ =~= r@.skip(k + 1));
            proof {
                lemma_find_char_bounds(tail@, '`', 0);
            }
            match find_char(tail.as_slice(), '`') {
                Some(ke) => {
                    if k > 0 {
                        out.push(span_of(r, 0, k, SpanStyle::Plain));
                    }
                    out.push(span_of(r, k + 1, k + 1 + ke, SpanStyle::Code));
                    assert(r@.take(k as int) =~= r@.subrange(0, k as int));
                    assert(spans_view(out@) =~= plain_before(r@, k as int)
                        + seq![(r@.subrange(k + 1, k + 1 + ke), SpanStyle::Code)]);
                    return Some((out, k + ke + 2));
                },
                None => {},
            }
        },
        None => {},
    }
    None
}

/// Splits slide text into plain, bold, italic and code spans.
pub fn parse_inline_spans(text: &str) -> (r: Vec<InlineSpan>)
    ensures spans_view(r@) == parse_inline_spec(text@),
{
    let mut rest = chars_of(text);
    let mut out: Vec<InlineSpan> = Vec::new();
    assert(spans_view(out@) + inline_spans_spec(rest@) =~= inline_spans_spec(text@));
    while rest.len() > 0
        invariant
            spans_view(out@) + inline_spans_spec(rest@) == inline_spans_spec(text@),
        decreases rest@.len(),
    {
        match next_spans(rest.as_slice()) {
            Some((mut more, k)) => {
                let ghost before = spans_view(out@);
                let ghost added = spans_view(more@);
                out.append(&mut more);
                assert(spans_view(out@) =~= before + added);
                let n = rest.len();
                rest = copy_range(rest.as_slice(), k, n);
                assert(spans_view(out@) + inline_spans_spec(rest@) =~= inline_spans_spec(text@));
            },
            None => {
                let ghost before = spans_view(out@);
                let s = InlineSpan { text: string_of(rest.as_slice()), style: SpanStyle::Plain };
                out.push(s);
                assert(spans_view(out@) =~= before + seq![(rest@, SpanStyle::Plain)]);
                rest = Vec::new();
                assert(inline_spans_spec(rest@) =~= Seq::<(Seq<char>, SpanStyle)>::empty());
                assert(spans_view(out@) + inline_spans_spec(rest@) =~= inline_spans_spec(text@));
            },
        }
    }
    assert(inline_spans_spec(rest@) =~= Seq::<(Seq<char>, SpanStyle)>::empty());
    assert(spans_view(out@) =~= inline_spans_spec(text@));
    if out.len() == 0 {
        out.push(InlineSpan { text: text.to_owned(), style: SpanStyle::Plain });
        assert(spans_view(out@) =~= seq![(text@, SpanStyle::Plain)]);
    }
    out
}


/// A span written back as Markdown: its text inside its markers.
pub open spec fn marked(span: (Seq<char>, SpanStyle)) -> Seq<char> {
    match span.1 {
        SpanStyle::Plain => span.0,
        SpanStyle::Bold => "**"@ + span.0 + "**"@,
        SpanStyle::Italic => seq!['*'] + span.0 + seq!['*'],
        SpanStyle::Code => seq!['`'] + span.0 + seq!['`'],
    }
}

/// Spans written back as Markdown, one after another.
pub open spec fn rejoin(spans: Seq<(Seq<char>, SpanStyle)>) -> Seq<char>
    decreases spans.len(),
{
    if spans.len() == 0 {
        Seq::empty()
    } else {
        rejoin(spans.drop_last()) + marked(spans.last())
    }
}

proof fn lemma_rejoin_add(a: Seq<(Seq<char>, SpanStyle)>, b: Seq<(Seq<char>, SpanStyle)>)
    ensures rejoin(a + b) == rejoin(a) + rejoin(b),
    decreases b.len(),
{
    if b.len() == 0 {
        assert(a + b =~= a);
        assert(rejoin(a) + rejoin(b) =~= rejoin(a));
    } else {
        lemma_rejoin_add(a, b.drop_last());
        assert((a + b).drop_last() =~= a + b.drop_last());
        assert((a + b).last() == b.last());
        assert(rejoin(a + b) =~= rejoin(a) + rejoin(b));
    }
}

proof fn lemma_find_char_hit(s: Seq<char>, c: char, i: int)
    ensures
        find_char_from(s, c, i) >= 0 ==> s[find_char_from(s, c, i)] == c,
        (forall|j: int| 0 <= j < s.len() ==> s[j] != c) ==> find_char_from(s, c, i) == -1,
    decreases s.len() - i,
{
    if 0 <= i < s.len() && s[i] != c {
        lemma_find_char_hit(s, c, i + 1);
    }
}

proof fn lemma_find_pair_hit(s: Seq<char>, c: char, i: int)
    ensures
        find_pair_from(s, c, i) >= 0 ==> s[find_pair_from(s, c, i)] == c && s[find_pair_from(s, c, i) + 1] == c,
        (forall|j: int| 0 <= j < s.len() ==> s[j] != c) ==> find_pair_from(s, c, i) == -1,
    decreases s.len() - i,
{
    if 0 <= i && i + 1 < s.len() && !(s[i] == c && s[i + 1] == c) {
        lemma_find_pair_hit(s, c, i + 1);
    }
}

proof fn lemma_rejoin_single(x: (Seq<char>, SpanStyle))
    ensures rejoin(seq![x]) == marked(x),
{
    let e = Seq::<(Seq<char>, SpanStyle)>::empty();
    assert(rejoin(e) == Seq::<char>::empty());
    assert(seq![x].drop_last() =~= e);
    assert(seq![x].last() == x);
    assert(rejoin(seq![x]) =~= marked(x));
}

proof fn lemma_rejoin_piece(r: Seq<char>, a: int, s0: int, s1: int, e: int, st: SpanStyle)
    requires
        0 <= a <= s0 <= s1 <= e <= r.len(),
        marked((r.subrange(s0, s1), st)) == r.subrange(a, e),
        rejoin(inline_spans_spec(r.skip(e))) == r.skip(e),
    ensures
        rejoin(plain_before(r, a) + seq![(r.subrange(s0, s1), st)] + inline_spans_spec(r.skip(e))) == r,
{
    let sp = (r.subrange(s0, s1), st);
    let head = plain_before(r, a) + seq![sp];
    lemma_rejoin_add(head, inline_spans_spec(r.skip(e)));
    lemma_rejoin_add(plain_before(r, a), seq![sp]);
    lemma_rejoin_single(sp);
    if a > 0 {
        lemma_rejoin_single((r.take(a), SpanStyle::Plain));
        assert(rejoin(plain_before(r, a)) =~= r.take(a));
    } else {
        assert(rejoin(plain_before(r, a)) =~= r.take(a));
    }
    assert(r =~= r.take(a) + r.subrange(a, e) + r.skip(e));
}

#[verifier::rlimit(40)]
proof fn lemma_inline_rejoin(r: Seq<char>)
    ensures rejoin(inline_spans_spec(r)) == r,
    decreases r.len(),
{
    if r.len() > 0 {
        let b = find_pair_from(r, '*', 0);
        let be = if b >= 0 { find_pair_from(r.skip(b + 2), '*', 0) } else { -1 };
        let i = find_char_from(r, '*', 0);
        let ie = if i >= 0 { find_char_from(r.skip(i + 1), '*', 0) } else { -1 };
        let k = find_char_from(r, '`', 0);
        let ke = if k >= 0 { find_char_from(r.skip(k + 1), '`', 0) } else { -1 };
        lemma_find_pair_bounds(r, '*', 0);
        lemma_find_char_bounds(r, '*', 0);
        lemma_find_char_bounds(r, '`', 0);
        lemma_find_pair_hit(r, '*', 0);
        lemma_find_char_hit(r, '*', 0);
        lemma_find_char_hit(r, '`', 0);
        if b >= 0 {
            lemma_find_pair_bounds(r.skip(b + 2), '*', 0);
            lemma_find_pair_hit(r.skip(b + 2), '*', 0);
        }
        if i >= 0 {
            lemma_find_char_bounds(r.skip(i + 1), '*', 0);
            lemma_find_char_hit(r.skip(i + 1), '*', 0);
        }
        if k >= 0 {
            lemma_find_char_bounds(r.skip(k + 1), '`', 0);
            lemma_find_char_hit(r.skip(k + 1), '`', 0);
        }
        if b >= 0 && be >= 0 {
            lemma_inline_rejoin(r.skip(b + be + 4));
            reveal_strlit("**");
            assert(r.skip(b + 2)[be] == r[b + 2 + be]);
            assert(r.skip(b + 2)[be + 1] == r[b + 3 + be]);
            assert(marked((r.subrange(b + 2, b + 2 + be), SpanStyle::Bold)) =~= r.subrange(b, b + 4 + be));
            lemma_rejoin_piece(r, b, b + 2, b + 2 + be, b + be + 4, SpanStyle::Bold);
        } else if i >= 0 && ie >= 0 {
            lemma_inline_rejoin(r.skip(i + ie + 2));
            assert(r.skip(i + 1)[ie] == r[i + 1 + ie]);
            assert(marked((r.subrange(i + 1, i + 1 + ie), SpanStyle::Italic)) =~= r.subrange(i, i + 2 + ie));
            lemma_rejoin_piece(r, i, i + 1, i + 1 + ie, i + ie + 2, SpanStyle::Italic);
        } else if k >= 0 && ke >= 0 {
            lemma_inline_rejoin(r.skip(k + ke + 2));
            assert(r.skip(k + 1)[ke] == r[k + 1 + ke]);
            assert(marked((r.subrange(k + 1, k + 1 + ke), SpanStyle::Code)) =~= r.subrange(k, k + 2 + ke));
            lemma_rejoin_piece(r, k, k + 1, k + 1 + ke, k + ke + 2, SpanStyle::Code);
        } else {
            lemma_rejoin_single((r, SpanStyle::Plain));
        }
    }
}

/// Splitting slide text into spans loses nothing: there is always at least
/// one span, and writing each span back inside its markers (`**`, `*`, `` ` ``)
/// gives the text again. Text with no `*` and no `` ` `` is one plain span.
pub proof fn law_inline_spans_rejoin(text: Seq<char>)
    ensures
        parse_inline_spec(text).len() >= 1,
        rejoin(parse_inline_spec(text)) == text,
        (forall|j: int| 0 <= j < text.len() ==> text[j] != '*' && text[j] != '`')
            ==> parse_inline_spec(text) == seq![(text, SpanStyle::Plain)],
{
    lemma_inline_rejoin(text);
    if inline_spans_spec(text).len() == 0 {
        lemma_rejoin_single((text, SpanStyle::Plain));
        assert(rejoin(inline_spans_spec(text)) == Seq::<char>::empty());
        assert(text.len() == 0);
        assert(rejoin(seq![(text, SpanStyle::Plain)]) =~= text);
    }
    if forall|j: int| 0 <= j < text.len() ==> text[j] != '*' && text[j] != '`' {
        lemma_find_pair_hit(text, '*', 0);
        lemma_find_char_hit(text, '*', 0);
        lemma_find_char_hit(text, '`', 0);
    }
}

} // verus!
