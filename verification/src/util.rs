//! File-path labels and the text around displayed numbers.
//!
//! Paths are handled as text with `/` separators, following `std::path::Path`
//! on Unix: empty and `.` components are ignored, and a final `..` has no name.

use vstd::prelude::*;
use crate::text::{
    seqs, split_on, split_char, last_index_of, find_last, copy_range, string_of, chars_of,
    trim_seq, trim_start_seq, trim_end_seq, has_prefix, has_suffix, ascii_lower_seq, is_digit,
    trim, trim_start, trim_end_index, starts_with, ends_with, to_ascii_lower, push_char, push_chars,
};
use crate::oneshot::summary::str_views;

verus! {

/// The named components of a path.
pub open spec fn path_components(p: Seq<char>) -> Seq<Seq<char>> {
    split_on(p, '/').filter(|c: Seq<char>| c.len() > 0 && c != seq!['.'])
}

/// `Path::file_name`: the last component, unless there is none or it is `..`.
pub open spec fn file_name_spec(p: Seq<char>) -> Option<Seq<char>> {
    let cs = path_components(p);
    if cs.len() == 0 || cs.last() == seq!['.', '.'] {
        None
    } else {
        Some(cs.last())
    }
}

/// `Path::file_stem` of a file name: the part before the last `.`, unless that
/// `.` is the first character or there is none.
pub open spec fn stem_of(f: Seq<char>) -> Seq<char> {
    let k = last_index_of(f, '.');
    if k <= 0 { f } else { f.take(k) }
}

/// `Path::extension` of a file name: the part after the last `.`, if that `.`
/// is not the first character.
pub open spec fn extension_of(f: Seq<char>) -> Option<Seq<char>> {
    let k = last_index_of(f, '.');
    if k <= 0 { None } else { Some(f.skip(k + 1)) }
}

pub open spec fn file_stem_spec(p: Seq<char>) -> Option<Seq<char>> {
    match file_name_spec(p) {
        Some(f) => Some(stem_of(f)),
        None => None,
    }
}

pub open spec fn extension_spec(p: Seq<char>) -> Option<Seq<char>> {
    match file_name_spec(p) {
        Some(f) => extension_of(f),
        None => None,
    }
}

/// The file name of a path, if it has one.
pub fn file_name(p: &[char]) -> (r: Option<Vec<char>>)
    ensures
        r is Some <==> file_name_spec(p@) is Some,
        r is Some ==> r->0@ == file_name_spec(p@)->0,
{
    let parts = split_char(p, '/');
    let ghost ps = split_on(p@, '/');
    let ghost pred = |c: Seq<char>| c.len() > 0 && c != seq!['.'];
    let mut last: Option<Vec<char>> = None;
    let mut i: usize = 0;
    proof { reveal_with_fuel(Seq::filter, 1); }
    assert(ps.take(0) =~= Seq::<Seq<char>>::empty());
    while i < parts.len()
        invariant
            i <= parts@.len(),
            seqs(parts@) == ps,
            ps == split_on(p@, '/'),
            pred == (|c: Seq<char>| c.len() > 0 && c != seq!['.']),
            last is None <==> ps.take(i as int).filter(pred).len() == 0,
            last is Some ==> last->0@ == ps.take(i as int).filter(pred).last(),
        decreases parts@.len() - i,
    {
        let c = parts[i].as_slice();
        assert(c@ == ps[i as int]);
        assert(ps.take(i + 1).drop_last() =~= ps.take(i as int));
        assert(ps.take(i + 1).last() == c@);
        proof { reveal_with_fuel(Seq::filter, 1); }
        let dot = c.len() == 1 && c[0] == '.';
        assert(dot == (c@ == seq!['.'])) by {
            if c@.len() == 1 && c@[0] == '.' {
                assert(c@ =~= seq!['.']);
            }
        }
        if c.len() > 0 && !dot {
            last = Some(copy_range(c, 0, c.len()));
            assert(last->0@ =~= c@);
        }
        i = i + 1;
    }
    assert(ps.take(i as int) =~= ps);
    match last {
        Some(f) => {
            let dotdot = f.len() == 2 && f[0] == '.' && f[1] == '.';
            assert(dotdot == (f@ == seq!['.', '.'])) by {
                if f@.len() == 2 && f@[0] == '.' && f@[1] == '.' {
                    assert(f@ =~= seq!['.', '.']);
                }
            }
            if dotdot { None } else { Some(f) }
        },
        None => None,
    }
}

/// The extension of a path's file name.
pub fn path_extension(p: &[char]) -> (r: Option<Vec<char>>)
    ensures
        r is Some <==> extension_spec(p@) is Some,
        r is Some ==> r->0@ == extension_spec(p@)->0,
{
    match file_name(p) {
        Some(f) => match find_last(f.as_slice(), '.') {
            Some(k) => {
                assert(k < f.len());
                if k == 0 {
                    None
                } else {
                    Some(copy_range(f.as_slice(), k + 1, f.len()))
                }
            },
            None => None,
        },
        None => None,
    }
}

/// The file stem of a path (file name without extension).
pub fn path_stem(p: &[char]) -> (r: Option<Vec<char>>)
    ensures
        r is Some <==> file_stem_spec(p@) is Some,
        r is Some ==> r->0@ == file_stem_spec(p@)->0,
{
    match file_name(p) {
        Some(f) => match find_last(f.as_slice(), '.') {
            Some(k) => {
                if k == 0 {
                    Some(f)
                } else {
                    Some(copy_range(f.as_slice(), 0, k))
                }
            },
            None => Some(f),
        },
        None => None,
    }
}

/// The file stem of a path, or `"unknown"` when the path has no file name.
pub fn path_label(p: &str) -> (r: String)
    ensures
        r@ == match file_stem_spec(p@) {
            Some(s) => s,
            None => seq!['u', 'n', 'k', 'n', 'o', 'w', 'n'],
        },
{
    let cs = chars_of(p);
    match path_stem(cs.as_slice()) {
        Some(s) => string_of(s.as_slice()),
        None => {
            let r = string_of(&['u', 'n', 'k', 'n', 'o', 'w', 'n']);
            r
        },
    }
}


// ---------------------------------------------------------------------------
// Number text

/// The decimal scale a unit suffix stands for.
#[derive(Debug, Clone, Copy, PartialEq, Eq, Structural)]
pub enum Scale {
    One,
    Kilo,
    Mega,
    Giga,
    Tera,
    Kibi,
    Mebi,
    Gibi,
    Tebi,
}

/// One layer of matching quotes removed (and the inside trimmed).
pub open spec fn unquote(t: Seq<char>) -> Seq<char> {
    if t.len() >= 2 && ((t[0] == '"' && t.last() == '"') || (t[0] == '\'' && t.last() == '\'')) {
        trim_seq(t.subrange(1, t.len() - 1))
    } else {
        t
    }
}

/// Accounting notation for a negative number: `(42)`.
pub open spec fn paren_negative(t: Seq<char>) -> bool {
    t.len() >= 2 && t[0] == '(' && t.last() == ')'
}

/// `t` after the first of `syms` that its ASCII lowercase starts with
/// (and the spaces after it); `t` when none does.
pub open spec fn strip_lead_symbol(t: Seq<char>, syms: Seq<Seq<char>>) -> Seq<char>
    decreases syms.len(),
{
    if syms.len() == 0 {
        t
    } else if has_prefix(ascii_lower_seq(t), syms[0]) {
        trim_start_seq(t.skip(syms[0].len() as int))
    } else {
        strip_lead_symbol(t, syms.drop_first())
    }
}

/// `t` before the first of `syms` that it ends with (and the spaces before
/// it); `t` when none does.
pub open spec fn strip_trail_symbol(t: Seq<char>, syms: Seq<Seq<char>>) -> Seq<char>
    decreases syms.len(),
{
    if syms.len() == 0 {
        t
    } else if has_suffix(t, syms[0]) {
        trim_end_seq(t.take(t.len() - syms[0].len()))
    } else {
        strip_trail_symbol(t, syms.drop_first())
    }
}

/// Currency signs and codes that may lead a number.
pub open spec fn lead_symbols() -> Seq<Seq<char>> {
    seq!["$"@, "€"@, "£"@, "¥"@, "₹"@, "usd"@, "eur"@, "gbp"@, "jpy"@, "cny"@, "inr"@]
}

/// Currency signs that may follow a number.
pub open spec fn trail_symbols() -> Seq<Seq<char>> {
    seq!["$"@, "€"@, "£"@, "¥"@, "₹"@]
}

/// A digit-group separator: `,`, space, `_` or `'`.
pub open spec fn is_group_sep(c: char) -> bool {
    c == ',' || c == ' ' || c == '_' || c == '\''
}

/// `s` without digit-group separators.
pub open spec fn drop_group_seps(s: Seq<char>) -> Seq<char>
    decreases s.len(),
{
    if s.len() == 0 {
        Seq::empty()
    } else if is_group_sep(s.last()) {
        drop_group_seps(s.drop_last())
    } else {
        drop_group_seps(s.drop_last()).push(s.last())
    }
}

/// The body of a display-formatted number: surrounding whitespace, one layer
/// of quotes, accounting parentheses (which make it negative), a sign,
/// currency signs or codes before or after it, and digit-group separators
/// are removed; a negative sign that was removed is put back in front.
pub open spec fn strip_outer_spec(raw: Seq<char>) -> Seq<char> {
    let t1 = unquote(trim_seq(raw));
    let neg_paren = paren_negative(t1);
    let t2 = trim_seq(if neg_paren { t1.subrange(1, t1.len() - 1) } else { t1 });
    let signed = t2.len() > 0 && (t2[0] == '+' || t2[0] == '-');
    let negative = neg_paren || (signed && t2[0] == '-');
    let t3 = if signed { trim_start_seq(t2.drop_first()) } else { t2 };
    let t4 = strip_trail_symbol(strip_lead_symbol(t3, lead_symbols()), trail_symbols());
    let cleaned = drop_group_seps(t4);
    if negative && !(cleaned.len() > 0 && (cleaned[0] == '-' || cleaned[0] == '+')) {
        seq!['-'] + cleaned
    } else {
        cleaned
    }
}

fn strip_lead(t: Vec<char>, syms: &[&str]) -> (r: Vec<char>)
    ensures r@ == strip_lead_symbol(t@, str_views(syms@)),
{
    let lower = to_ascii_lower(t.as_slice());
    let mut i: usize = 0;
    assert(str_views(syms@).skip(0) =~= str_views(syms@));
    while i < syms.len()
        invariant
            i <= syms@.len(),
            lower@ == ascii_lower_seq(t@),
            strip_lead_symbol(t@, str_views(syms@)) == strip_lead_symbol(t@, str_views(syms@).skip(i as int)),
        decreases syms@.len() - i,
    {
        let ghost rest = str_views(syms@).skip(i as int);
        assert(rest[0] == syms@[i as int]@);
        assert(rest.drop_first() =~= str_views(syms@).skip(i + 1));
        let sym = chars_of(syms[i]);
        if starts_with(lower.as_slice(), sym.as_slice()) {
            let rest_t = copy_range(t.as_slice(), sym.len(), t.len());
            assert(rest_t@ =~= t@.skip(sym@.len() as int));
            return trim_start(rest_t.as_slice());
        }
        i = i + 1;
    }
    assert(str_views(syms@).skip(i as int) =~= Seq::<Seq<char>>::empty());
    t
}

fn strip_trail(t: Vec<char>, syms: &[&str]) -> (r: Vec<char>)
    ensures r@ == strip_trail_symbol(t@, str_views(syms@)),
{
    let mut i: usize = 0;
    assert(str_views(syms@).skip(0) =~= str_views(syms@));
    while i < syms.len()
        invariant
            i <= syms@.len(),
            strip_trail_symbol(t@, str_views(syms@)) == strip_trail_symbol(t@, str_views(syms@).skip(i as int)),
        decreases syms@.len() - i,
    {
        let ghost rest = str_views(syms@).skip(i as int);
        assert(rest[0] == syms@[i as int]@);
        assert(rest.drop_first() =~= str_views(syms@).skip(i + 1));
        let sym = chars_of(syms[i]);
        if ends_with(t.as_slice(), sym.as_slice()) {
            let head = copy_range(t.as_slice(), 0, t.len() - sym.len());
            assert(head@ =~= t@.take(t@.len() - sym@.len()));
            let (a, b) = (0usize, trim_end_index(head.as_slice(), 0));
            let r = copy_range(head.as_slice(), a, b);
            assert(head@.subrange(0, head@.len() as int) =~= head@);
            return r;
        }
        i = i + 1;
    }
    assert(str_views(syms@).skip(i as int) =~= Seq::<Seq<char>>::empty());
    t
}

/// Strips what surrounds the digits of a display-formatted number (see
/// [`strip_outer_spec`]); `(42)` gives `-42`, `"$1,000"` gives `1000`.
pub fn strip_outer(raw: &str) -> (r: String)
    ensures r@ == strip_outer_spec(raw@),
{
    let cs = chars_of(raw);
    let t0 = trim(cs.as_slice());
    let n0 = t0.len();
    let t1 = if n0 >= 2 && ((t0[0] == '"' && t0[n0 - 1] == '"') || (t0[0] == '\'' && t0[n0 - 1] == '\'')) {
        let inner = copy_range(t0.as_slice(), 1, n0 - 1);
        trim(inner.as_slice())
    } else {
        t0
    };
    assert(t1@ == unquote(trim_seq(raw@)));
    let n1 = t1.len();
    let neg_paren = n1 >= 2 && t1[0] == '(' && t1[n1 - 1] == ')';
    let t2 = if neg_paren {
        let inner = copy_range(t1.as_slice(), 1, n1 - 1);
        trim(inner.as_slice())
    } else {
        trim(t1.as_slice())
    };
    let signed = t2.len() > 0 && (t2[0] == '+' || t2[0] == '-');
    let negative = neg_paren || (signed && t2[0] == '-');
    let t3 = if signed {
        let after = copy_range(t2.as_slice(), 1, t2.len());
        assert(after@ =~= t2@.drop_first());
        trim_start(after.as_slice())
    } else {
        t2
    };
    let leads: [&str; 11] = ["$", "€", "£", "¥", "₹", "usd", "eur", "gbp", "jpy", "cny", "inr"];
    let trails: [&str; 5] = ["$", "€", "£", "¥", "₹"];
    assert(str_views(leads@) =~= lead_symbols());
    assert(str_views(trails@) =~= trail_symbols());
    let t4 = strip_trail(strip_lead(t3, &leads), &trails);
    let mut cleaned: Vec<char> = Vec::new();
    let mut i: usize = 0;
    assert(t4@.take(0) =~= Seq::<char>::empty());
    while i < t4.len()
        invariant
            i <= t4@.len(),
            cleaned@ == drop_group_seps(t4@.take(i as int)),
        decreases t4@.len() - i,
    {
        let c = t4[i];
        assert(t4@.take(i + 1).drop_last() =~= t4@.take(i as int));
        if !(c == ',' || c == ' ' || c == '_' || c == '\'') {
            cleaned.push(c);
        }
        i = i + 1;
    }
    assert(t4@.take(i as int) =~= t4@);
    let mut out = String::new();
    if negative && !(cleaned.len() > 0 && (cleaned[0] == '-' || cleaned[0] == '+')) {
        push_char(&mut out, '-');
    }
    push_chars(&mut out, cleaned.as_slice());
    assert(out@ =~= strip_outer_spec(raw@));
    out
}

/// The unit suffixes a number may end in, longest first, with their scales.
pub open spec fn unit_suffixes() -> Seq<(Seq<char>, Scale)> {
    seq![
        ("tib"@, Scale::Tebi), ("gib"@, Scale::Gibi), ("mib"@, Scale::Mebi), ("kib"@, Scale::Kibi),
        ("tb"@, Scale::Tera), ("gb"@, Scale::Giga), ("mb"@, Scale::Mega), ("kb"@, Scale::Kilo),
        ("bps"@, Scale::One), ("t"@, Scale::Tera), ("g"@, Scale::Giga), ("b"@, Scale::Giga),
        ("m"@, Scale::Mega), ("k"@, Scale::Kilo),
    ]
}

/// The first suffix in `sufs` that `lower` ends with decides: the text
/// before it, with that scale, when it is not empty and ends in a digit or
/// `.`; nothing otherwise. Without a suffix, `lower` itself at scale one.
pub open spec fn split_unit_spec(lower: Seq<char>, sufs: Seq<(Seq<char>, Scale)>) -> Option<(Seq<char>, Scale)>
    decreases sufs.len(),
{
    if sufs.len() == 0 {
        Some((lower, Scale::One))
    } else if has_suffix(lower, sufs[0].0) {
        let num = lower.take(lower.len() - sufs[0].0.len());
        if num.len() > 0 && (is_digit(num.last()) || num.last() == '.') {
            Some((num, sufs[0].1))
        } else {
            None
        }
    } else {
        split_unit_spec(lower, sufs.drop_first())
    }
}

/// Splits a trailing unit suffix (`k`, `mb`, `gib`, `bps`, ...) off
/// lower-case number text.
pub fn strip_unit_suffix(lower: &str) -> (r: Option<(String, Scale)>)
    ensures
        match r {
            Some((num, scale)) => split_unit_spec(lower@, unit_suffixes()) == Some((num@, scale)),
            None => split_unit_spec(lower@, unit_suffixes()) is None,
        },
{
    let sufs: [(&str, Scale); 14] = [
        ("tib", Scale::Tebi), ("gib", Scale::Gibi), ("mib", Scale::Mebi), ("kib", Scale::Kibi),
        ("tb", Scale::Tera), ("gb", Scale::Giga), ("mb", Scale::Mega), ("kb", Scale::Kilo),
        ("bps", Scale::One), ("t", Scale::Tera), ("g", Scale::Giga), ("b", Scale::Giga),
        ("m", Scale::Mega), ("k", Scale::Kilo),
    ];
    let ghost sv = sufs@.map_values(|p: (&str, Scale)| (p.0@, p.1));
    assert(sv =~= unit_suffixes());
    let t = chars_of(lower);
    let mut i: usize = 0;
    assert(sv.skip(0) =~= sv);
    while i < 14
        invariant
            i <= 14,
            sufs@.len() == 14,
            t@ == lower@,
            sv == sufs@.map_values(|p: (&str, Scale)| (p.0@, p.1)),
            sv == unit_suffixes(),
            split_unit_spec(lower@, sv) == split_unit_spec(lower@, sv.skip(i as int)),
        decreases 14 - i,
    {
        let ghost rest = sv.skip(i as int);
        assert(rest[0] == (sufs@[i as int].0@, sufs@[i as int].1));
        assert(rest.drop_first() =~= sv.skip(i + 1));
        let (suf, scale) = sufs[i];
        let sc = chars_of(suf);
        if ends_with(t.as_slice(), sc.as_slice()) {
            let num = copy_range(t.as_slice(), 0, t.len() - sc.len());
            assert(num@ =~= lower@.take(lower@.len() - sc@.len()));
            let k = num.len();
            assert(suf@ == rest[0].0);
            assert(has_suffix(lower@, rest[0].0));
            if k > 0 && (('0' <= num[k - 1] && num[k - 1] <= '9') || num[k - 1] == '.') {
                let out = string_of(num.as_slice());
                assert(split_unit_spec(lower@, rest) == Some((out@, scale)));
                return Some((out, scale));
            }
            assert(split_unit_spec(lower@, rest) is None);
            return None;
        }
        i = i + 1;
    }
    assert(sv.skip(14) =~= Seq::<(Seq<char>, Scale)>::empty());
    Some((lower.to_owned(), Scale::One))
}


proof fn lemma_no_group_seps(s: Seq<char>)
    ensures
        forall|i: int| 0 <= i < drop_group_seps(s).len() ==> !is_group_sep(#[trigger] drop_group_seps(s)[i]),
    decreases s.len(),
{
    if s.len() > 0 {
        lemma_no_group_seps(s.drop_last());
        let p = drop_group_seps(s.drop_last());
        assert forall|i: int| 0 <= i < drop_group_seps(s).len() implies !is_group_sep(#[trigger] drop_group_seps(s)[i]) by {
            if i < p.len() {
                assert(drop_group_seps(s)[i] == p[i]);
            }
        }
    }
}

/// A stripped number holds no digit-group separator (`,`, space, `_`, `'`).
pub proof fn law_stripped_number_has_no_separators(raw: Seq<char>)
    ensures
        forall|i: int| 0 <= i < strip_outer_spec(raw).len() ==> !is_group_sep(#[trigger] strip_outer_spec(raw)[i]),
{
    let t1 = unquote(trim_seq(raw));
    let neg_paren = paren_negative(t1);
    let t2 = trim_seq(if neg_paren { t1.subrange(1, t1.len() - 1) } else { t1 });
    let signed = t2.len() > 0 && (t2[0] == '+' || t2[0] == '-');
    let t3 = if signed { trim_start_seq(t2.drop_first()) } else { t2 };
    let t4 = strip_trail_symbol(strip_lead_symbol(t3, lead_symbols()), trail_symbols());
    let cleaned = drop_group_seps(t4);
    lemma_no_group_seps(t4);
    assert forall|i: int| 0 <= i < strip_outer_spec(raw).len() implies !is_group_sep(#[trigger] strip_outer_spec(raw)[i]) by {
        if strip_outer_spec(raw) != cleaned {
            assert(strip_outer_spec(raw) == seq!['-'] + cleaned);
            if i > 0 {
                assert(strip_outer_spec(raw)[i] == cleaned[i - 1]);
            }
        }
    }
}

} // verus!
