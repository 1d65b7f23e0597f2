//! Hints for mistyped column names.

use vstd::prelude::*;
use crate::text::{strs, chars_of, to_ascii_lower, chars_eq, ascii_lower_seq, append_str};

verus! {

pub open spec fn min3(a: nat, b: nat, c: nat) -> nat {
    let m = if a <= b { a } else { b };
    if m <= c { m } else { c }
}

/// The edit distance of two names: the fewest single-character insertions,
/// deletions and substitutions that turn one into the other.
pub open spec fn edit_distance(a: Seq<char>, b: Seq<char>) -> nat
    decreases a.len() + b.len(),
{
    if a.len() == 0 {
        b.len()
    } else if b.len() == 0 {
        a.len()
    } else {
        min3(
            edit_distance(a.drop_last(), b.drop_last()) + (if a.last() == b.last() { 0nat } else { 1nat }),
            edit_distance(a.drop_last(), b) + 1,
            edit_distance(a, b.drop_last()) + 1,
        )
    }
}

proof fn lemma_edit_distance_bound(a: Seq<char>, b: Seq<char>)
    ensures edit_distance(a, b) <= a.len() + b.len(),
    decreases a.len() + b.len(),
{
    if a.len() > 0 && b.len() > 0 {
        lemma_edit_distance_bound(a.drop_last(), b);
    }
}

/// Names longer than this get no spelling suggestion.
pub const MAX_SUGGEST_LEN: usize = 256;

/// The edit distance of two names of at most `MAX_SUGGEST_LEN` characters.
fn edit_distance_of(a: &[char], b: &[char]) -> (r: usize)
    requires
        a@.len() <= MAX_SUGGEST_LEN,
        b@.len() <= MAX_SUGGEST_LEN,
    ensures r == edit_distance(a@, b@),
{
    let m = b.len();
    // prev[j] is the distance of a[..i] and b[..j].
    let mut prev: Vec<usize> = Vec::new();
    let mut j: usize = 0;
    while j <= m
        invariant
            j <= m + 1,
            m == b@.len() <= MAX_SUGGEST_LEN,
            prev@.len() == j,
            forall|k: int| 0 <= k < j ==> prev@[k] == edit_distance(a@.take(0), b@.take(k)),
        decreases m + 1 - j,
    {
        proof {
            assert(a@.take(0).len() == 0);
        }
        prev.push(j);
        j = j + 1;
    }
    let mut i: usize = 0;
    while i < a.len()
        invariant
            i <= a@.len() <= MAX_SUGGEST_LEN,
            m == b@.len() <= MAX_SUGGEST_LEN,
            prev@.len() == m + 1,
            forall|k: int| 0 <= k <= m ==> prev@[k] == edit_distance(a@.take(i as int), b@.take(k)),
        decreases a@.len() - i,
    {
        let ghost ai = a@.take(i + 1);
        assert(ai.drop_last() =~= a@.take(i as int));
        let mut cur: Vec<usize> = Vec::new();
        proof {
            assert(b@.take(0).len() == 0);
        }
        cur.push(i + 1);
        let mut k: usize = 1;
        while k <= m
            invariant
                1 <= k <= m + 1,
                i < a@.len() <= MAX_SUGGEST_LEN,
                m == b@.len() <= MAX_SUGGEST_LEN,
                ai == a@.take(i + 1),
                ai.drop_last() == a@.take(i as int),
                prev@.len() == m + 1,
                forall|q: int| 0 <= q <= m ==> prev@[q] == edit_distance(a@.take(i as int), b@.take(q)),
                cur@.len() == k,
                forall|q: int| 0 <= q < k ==> cur@[q] == edit_distance(ai, b@.take(q)),
            decreases m + 1 - k,
        {
            let ghost bk = b@.take(k as int);
            assert(bk.drop_last() =~= b@.take(k - 1));
            assert(ai.last() == a@[i as int]);
            assert(bk.last() == b@[k - 1]);
            proof {
                lemma_edit_distance_bound(a@.take(i as int), b@.take(k - 1));
                lemma_edit_distance_bound(a@.take(i as int), bk);
                lemma_edit_distance_bound(ai, b@.take(k - 1));
            }
            let cost: usize = if a[i] == b[k - 1] { 0 } else { 1 };
            let sub = prev[k - 1] + cost;
            let del = prev[k] + 1;
            let ins = cur[k - 1] + 1;
            let mut best = if sub <= del { sub } else { del };
            if ins < best {
                best = ins;
            }
            cur.push(best);
            k = k + 1;
        }
        prev = cur;
        i = i + 1;
    }
    assert(a@.take(a@.len() as int) =~= a@);
    assert(b@.take(m as int) =~= b@);
    prev[m]
}

/// A header that differs from `name` only in ASCII case, the first such.
pub open spec fn case_match(headers: Seq<Seq<char>>, name: Seq<char>) -> int
    decreases headers.len(),
{
    if headers.len() == 0 {
        -1
    } else {
        let p = case_match(headers.drop_last(), name);
        if p >= 0 {
            p
        } else if ascii_lower_seq(headers.last()) == ascii_lower_seq(name) {
            headers.len() - 1
        } else {
            -1
        }
    }
}

/// The closest header by edit distance (the first of equally close ones),
/// or -1 when there are no headers or a name is too long to compare.
pub open spec fn closest_header(headers: Seq<Seq<char>>, name: Seq<char>) -> int
    decreases headers.len(),
{
    if headers.len() == 0 || name.len() > MAX_SUGGEST_LEN {
        -1
    } else {
        let p = closest_header(headers.drop_last(), name);
        let h = headers.last();
        if h.len() > MAX_SUGGEST_LEN {
            p
        } else if p < 0 || edit_distance(h, name) < edit_distance(headers[p], name) {
            headers.len() - 1
        } else {
            p
        }
    }
}

/// The largest edit distance that still earns a suggestion.
pub const MAX_SUGGEST_DISTANCE: usize = 2;

/// The header to suggest for a name that is not among the headers: one that
/// differs only in case, else the closest one within two edits.
pub open spec fn suggestion_spec(headers: Seq<Seq<char>>, name: Seq<char>) -> Option<Seq<char>> {
    let c = case_match(headers, name);
    let d = closest_header(headers, name);
    if c >= 0 {
        Some(headers[c])
    } else if d >= 0 && edit_distance(headers[d], name) <= MAX_SUGGEST_DISTANCE {
        Some(headers[d])
    } else {
        None
    }
}

proof fn lemma_case_match_bounds(headers: Seq<Seq<char>>, name: Seq<char>)
    ensures -1 <= case_match(headers, name) < headers.len(),
    decreases headers.len(),
{
    if headers.len() > 0 {
        lemma_case_match_bounds(headers.drop_last(), name);
    }
}

proof fn lemma_closest_bounds(headers: Seq<Seq<char>>, name: Seq<char>)
    ensures
        -1 <= closest_header(headers, name) < headers.len(),
        closest_header(headers, name) >= 0 ==> headers[closest_header(headers, name)].len() <= MAX_SUGGEST_LEN,
    decreases headers.len(),
{
    if headers.len() > 0 && name.len() <= MAX_SUGGEST_LEN {
        lemma_closest_bounds(headers.drop_last(), name);
        let p = closest_header(headers.drop_last(), name);
        if p >= 0 {
            assert(headers.drop_last()[p] == headers[p]);
        }
    }
}

/// Suggests a header for a column name that was not found.
pub fn suggest_column(headers: &[String], name: &str) -> (r: Option<String>)
    ensures
        match r {
            Some(s) => suggestion_spec(strs(headers@), name@) == Some(s@),
            None => suggestion_spec(strs(headers@), name@) is None,
        },
{
    let ghost hs = strs(headers@);
    let n = chars_of(name);
    let nl = to_ascii_lower(n.as_slice());
    let mut case_idx: Option<usize> = None;
    let mut best: Option<(usize, usize)> = None;
    let mut i: usize = 0;
    assert(hs.take(0) =~= Seq::<Seq<char>>::empty());
    while i < headers.len()
        invariant
            i <= headers@.len(),
            hs == strs(headers@),
            n@ == name@,
            nl@ == ascii_lower_seq(name@),
            match case_idx {
                Some(c) => c < i && case_match(hs.take(i as int), name@) == c,
                None => case_match(hs.take(i as int), name@) == -1,
            },
            match best {
                Some((b, d)) => b < i && closest_header(hs.take(i as int), name@) == b
                    && d == edit_distance(hs[b as int], name@),
                None => closest_header(hs.take(i as int), name@) == -1,
            },
        decreases headers@.len() - i,
    {
        let ghost t = hs.take(i + 1);
        assert(t.drop_last() =~= hs.take(i as int));
        assert(t.last() == headers@[i as int]@);
        let h = chars_of(headers[i].as_str());
        if case_idx.is_none() {
            let hl = to_ascii_lower(h.as_slice());
            if chars_eq(hl.as_slice(), nl.as_slice()) {
                case_idx = Some(i);
            }
        }
        if n.len() <= MAX_SUGGEST_LEN && h.len() <= MAX_SUGGEST_LEN {
            let d = edit_distance_of(h.as_slice(), n.as_slice());
            match best {
                Some((b, bd)) => {
                    assert(t[b as int] == hs[b as int]);
                    if d < bd {
                        best = Some((i, d));
                    }
                },
                None => {
                    best = Some((i, d));
                },
            }
        } else {
            match best {
                Some((b, bd)) => {
                    assert(t[b as int] == hs[b as int]);
                },
                None => {},
            }
        }
        i = i + 1;
    }
    assert(hs.take(i as int) =~= hs);
    match case_idx {
        Some(c) => {
            return Some(headers[c].clone());
        },
        None => {},
    }
    match best {
        Some((b, d)) => {
            if d <= MAX_SUGGEST_DISTANCE {
                Some(headers[b].clone())
            } else {
                None
            }
        },
        None => None,
    }
}

/// The end of a "column not found" message: `. Did you mean 'x'?`, and a
/// reminder that names are case-sensitive when the suggestion differs from
/// the name only in case.
pub open spec fn column_suffix_spec(suggestion: Option<Seq<char>>, name: Seq<char>) -> Seq<char> {
    match suggestion {
        Some(s) => ". Did you mean '"@ + s + "'?"@
            + (if ascii_lower_seq(s) == ascii_lower_seq(name) {
                " (column names are case-sensitive)"@
            } else {
                Seq::empty()
            }),
        None => Seq::empty(),
    }
}

/// The suggestion part of a "column not found" message.
pub fn format_column_suffix(suggestion: Option<&str>, name: &str) -> (r: String)
    ensures
        r@ == column_suffix_spec(
            match suggestion {
                Some(s) => Some(s@),
                None => None,
            },
            name@,
        ),
{
    let mut out = String::new();
    match suggestion {
        Some(s) => {
            append_str(&mut out, ". Did you mean '");
            append_str(&mut out, s);
            append_str(&mut out, "'?");
            let sl = to_ascii_lower(chars_of(s).as_slice());
            let nl = to_ascii_lower(chars_of(name).as_slice());
            if chars_eq(sl.as_slice(), nl.as_slice()) {
                append_str(&mut out, " (column names are case-sensitive)");
            }
        },
        None => {},
    }
    out
}

} // verus!
