//! Column statistics that need no arithmetic on numbers: the values present,
//! the distinct ones, and the range of values in text order.

use vstd::prelude::*;
use crate::loader::rows_view;
use crate::text::{strs, chars_of, chars_eq, is_blank, trim_seq, append_str, usize_chars, push_chars, dec_seq};

verus! {

/// The values of column `idx` that are not blank, in row order (rows
/// without the column are skipped).
pub open spec fn present_values(rows: Seq<Seq<Seq<char>>>, idx: int) -> Seq<Seq<char>>
    decreases rows.len(),
{
    if rows.len() == 0 {
        Seq::empty()
    } else {
        let p = present_values(rows.drop_last(), idx);
        let r = rows.last();
        if 0 <= idx < r.len() && trim_seq(r[idx]).len() > 0 {
            p.push(r[idx])
        } else {
            p
        }
    }
}

/// The non-blank values of column `idx`.
pub fn column_values(rows: &[Vec<String>], idx: usize) -> (r: Vec<String>)
    ensures strs(r@) == present_values(rows_view(rows@), idx as int),
{
    let ghost rv = rows_view(rows@);
    let mut out: Vec<String> = Vec::new();
    let mut i: usize = 0;
    assert(rv.take(0) =~= Seq::<Seq<Seq<char>>>::empty());
    while i < rows.len()
        invariant
            i <= rows@.len(),
            rv == rows_view(rows@),
            strs(out@) == present_values(rv.take(i as int), idx as int),
        decreases rows@.len() - i,
    {
        assert(rv.take(i + 1).drop_last() =~= rv.take(i as int));
        assert(rv.take(i + 1).last() == strs(rows@[i as int]@));
        if idx < rows[i].len() {
            assert(strs(rows@[i as int]@)[idx as int] == rows@[i as int]@[idx as int]@);
            let v = &rows[i][idx];
            if !is_blank(chars_of(v.as_str()).as_slice()) {
                let ghost prev = strs(out@);
                out.push(v.clone());
                assert(strs(out@) =~= prev.push(v@));
            }
        }
        i = i + 1;
    }
    assert(rv.take(i as int) =~= rv);
    out
}

/// The distinct values, in order of first appearance.
pub open spec fn distinct_in_order(values: Seq<Seq<char>>) -> Seq<Seq<char>>
    decreases values.len(),
{
    if values.len() == 0 {
        Seq::empty()
    } else {
        let p = distinct_in_order(values.drop_last());
        if p.contains(values.last()) {
            p
        } else {
            p.push(values.last())
        }
    }
}

/// The distinct values, in order of first appearance.
pub fn distinct_values(values: &[String]) -> (r: Vec<String>)
    ensures strs(r@) == distinct_in_order(strs(values@)),
{
    let mut out: Vec<String> = Vec::new();
    let mut i: usize = 0;
    assert(strs(values@).take(0) =~= Seq::<Seq<char>>::empty());
    while i < values.len()
        invariant
            i <= values@.len(),
            strs(out@) == distinct_in_order(strs(values@).take(i as int)),
        decreases values@.len() - i,
    {
        let ghost t = strs(values@).take(i + 1);
        assert(t.drop_last() =~= strs(values@).take(i as int));
        assert(t.last() == values@[i as int]@);
        let mut found = false;
        let mut j: usize = 0;
        while j < out.len()
            invariant
                j <= out@.len(),
                i < values@.len(),
                found == (exists|k: int| 0 <= k < j && strs(out@)[k] == values@[i as int]@),
            decreases out@.len() - j,
        {
            if out[j] == values[i] {
                assert(strs(out@)[j as int] == values@[i as int]@);
                found = true;
            }
            j = j + 1;
        }
        if !found {
            let ghost prev = strs(out@);
            out.push(values[i].clone());
            assert(strs(out@) =~= prev.push(values@[i as int]@));
        } else {
            assert(strs(out@).contains(values@[i as int]@));
        }
        i = i + 1;
    }
    assert(strs(values@).take(i as int) =~= strs(values@));
    out
}

/// `a` sorts before `b` (by character, as `str`'s order compares them).
pub open spec fn text_lt(a: Seq<char>, b: Seq<char>) -> bool
    decreases a.len(),
{
    if a.len() == 0 {
        b.len() > 0
    } else if b.len() == 0 {
        false
    } else if a[0] != b[0] {
        a[0] < b[0]
    } else {
        text_lt(a.drop_first(), b.drop_first())
    }
}

fn text_less(a: &[char], b: &[char]) -> (r: bool)
    ensures r == text_lt(a@, b@),
{
    let mut i: usize = 0;
    assert(a@.skip(0) =~= a@);
    assert(b@.skip(0) =~= b@);
    while i < a.len() && i < b.len() && a[i] == b[i]
        invariant
            i <= a@.len(),
            i <= b@.len(),
            text_lt(a@, b@) == text_lt(a@.skip(i as int), b@.skip(i as int)),
        decreases a@.len() - i,
    {
        assert(a@.skip(i as int).drop_first() =~= a@.skip(i + 1));
        assert(b@.skip(i as int).drop_first() =~= b@.skip(i + 1));
        i = i + 1;
    }
    if i == a.len() {
        i < b.len()
    } else if i == b.len() {
        false
    } else {
        assert(a@.skip(i as int)[0] == a@[i as int]);
        assert(b@.skip(i as int)[0] == b@[i as int]);
        a[i] < b[i]
    }
}

/// The least of `values` in text order (the first of equals).
pub open spec fn least(values: Seq<Seq<char>>) -> Seq<char>
    decreases values.len(),
{
    if values.len() <= 1 {
        values[0]
    } else {
        let m = least(values.drop_last());
        if text_lt(values.last(), m) { values.last() } else { m }
    }
}

/// The greatest of `values` in text order (the last of equals).
pub open spec fn greatest(values: Seq<Seq<char>>) -> Seq<char>
    decreases values.len(),
{
    if values.len() <= 1 {
        values[0]
    } else {
        let m = greatest(values.drop_last());
        if text_lt(values.last(), m) { m } else { values.last() }
    }
}

/// The least and greatest values in text order, if there are any.
pub fn text_range(values: &[String]) -> (r: Option<(String, String)>)
    ensures
        r is None <==> values@.len() == 0,
        r matches Some((lo, hi)) ==> lo@ == least(strs(values@)) && hi@ == greatest(strs(values@)),
{
    if values.len() == 0 {
        return None;
    }
    let mut lo = values[0].clone();
    let mut hi = values[0].clone();
    let mut i: usize = 1;
    assert(strs(values@).take(1) =~= seq![values@[0]@]);
    while i < values.len()
        invariant
            1 <= i <= values@.len(),
            lo@ == least(strs(values@).take(i as int)),
            hi@ == greatest(strs(values@).take(i as int)),
        decreases values@.len() - i,
    {
        let ghost t = strs(values@).take(i + 1);
        assert(t.drop_last() =~= strs(values@).take(i as int));
        assert(t.last() == values@[i as int]@);
        let v = chars_of(values[i].as_str());
        if text_less(v.as_slice(), chars_of(lo.as_str()).as_slice()) {
            lo = values[i].clone();
        }
        if !text_less(v.as_slice(), chars_of(hi.as_str()).as_slice()) {
            hi = values[i].clone();
        }
        i = i + 1;
    }
    assert(strs(values@).take(i as int) =~= strs(values@));
    Some((lo, hi))
}

/// The text for a range of values: the value alone when both ends agree,
/// else `min..max`.
pub fn range_text(min: &str, max: &str) -> (r: String)
    ensures
        r@ == (if min@ == max@ { min@ } else { min@ + ".."@ + max@ }),
{
    let mut out = String::new();
    append_str(&mut out, min);
    let same = chars_eq(chars_of(min).as_slice(), chars_of(max).as_slice());
    if !same {
        append_str(&mut out, "..");
        append_str(&mut out, max);
    }
    out
}

/// The text for a count of distinct values: `"3 unique"`.
pub fn unique_text(count: usize) -> (r: String)
    ensures r@ == dec_seq(count as nat) + " unique"@,
{
    let mut out = String::new();
    let d = usize_chars(count);
    push_chars(&mut out, d.as_slice());
    append_str(&mut out, " unique");
    out
}

} // verus!
