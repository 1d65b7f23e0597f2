//! Tabular loaders: CSV, TSV, JSON (array of objects), NDJSON and space-aligned text.
//!
//! Format detection looks at the file extension first and then at the content.

pub mod space;

use vstd::prelude::*;
use crate::text::{
    strs, seqs, chars_of, string_of, trim_start_seq, trim_start, lines_seq, split_lines,
    ascii_lower_seq, eq_ascii_lower, count_of, count_char, count_pair, count_pairs, replace_pair,
    replace_pairs, float_lit, is_float_literal, trim_seq, is_blank, dec_seq,
};
use crate::util::{extension_spec, path_extension};
use self::space::{
    looks_like_space_spec, looks_like_space_format, space_layout_ok, space_headers, space_rows,
    load_space, synthetic_headers,
};

verus! {

/// Raw loaded data before type inference.
#[derive(Debug)]
pub struct LoadedData {
    pub headers: Vec<String>,
    pub rows: Vec<Vec<String>>,
}

/// The cells of each row.
pub open spec fn rows_view(rows: Seq<Vec<String>>) -> Seq<Seq<Seq<char>>> {
    rows.map_values(|r: Vec<String>| strs(r@))
}

/// Why a document could not be loaded.
#[derive(Debug, Clone, Copy, PartialEq, Eq)]
pub enum LoadError {
    /// The header record of a CSV/TSV document could not be read.
    CsvHeaders,
    /// A JSON document that is a single object rather than an array of objects.
    SingleJsonObject,
    /// Text that is not a JSON array.
    InvalidJsonArray,
    /// A JSON array (or NDJSON stream) whose first element is not an object.
    NotObjects,
    /// A non-blank NDJSON line that is not a JSON value.
    InvalidNdjson,
}

/// The message shown for a load error.
pub open spec fn load_error_message(e: LoadError) -> Seq<char> {
    match e {
        LoadError::CsvHeaders => "Failed to read CSV headers"@,
        LoadError::SingleJsonObject => "Input is a single JSON object, not an array.\n\n  vz expects a JSON array of objects: [{\"col\": \"val\"}, ...]\n  Tip: wrap in brackets, or use NDJSON format (-f ndjson) for single objects."@,
        LoadError::InvalidJsonArray => "Failed to parse JSON array"@,
        LoadError::NotObjects => "JSON elements must be objects (e.g., [{\"col\": \"val\"}]). Got an array of primitives."@,
        LoadError::InvalidNdjson => "Failed to parse NDJSON"@,
    }
}

impl LoadError {
    /// The message shown to the user.
    pub fn message(&self) -> (r: &'static str)
        ensures r@ == load_error_message(*self),
    {
        match self {
            LoadError::CsvHeaders => "Failed to read CSV headers",
            LoadError::SingleJsonObject => "Input is a single JSON object, not an array.\n\n  vz expects a JSON array of objects: [{\"col\": \"val\"}, ...]\n  Tip: wrap in brackets, or use NDJSON format (-f ndjson) for single objects.",
            LoadError::InvalidJsonArray => "Failed to parse JSON array",
            LoadError::NotObjects => "JSON elements must be objects (e.g., [{\"col\": \"val\"}]). Got an array of primitives.",
            LoadError::InvalidNdjson => "Failed to parse NDJSON",
        }
    }
}

impl LoadedData {
    /// Header names.
    pub open spec fn headers_view(&self) -> Seq<Seq<char>> {
        strs(self.headers@)
    }

    /// Cell text, row by row.
    pub open spec fn rows_view(&self) -> Seq<Seq<Seq<char>>> {
        rows_view(self.rows@)
    }
}

/// Detected input format.
#[derive(Debug, Clone, Copy, PartialEq, Eq)]
pub enum InputFormat {
    Csv,
    Tsv,
    Json,
    Ndjson,
    Space,
}

// ---------------------------------------------------------------------------
// Format detection

/// The format a file extension names (compared without regard to ASCII case;
/// no other character lowercases to a letter of these names).
pub open spec fn extension_format(e: Seq<char>) -> Option<InputFormat> {
    let l = ascii_lower_seq(e);
    if l == seq!['j', 's', 'o', 'n'] {
        Some(InputFormat::Json)
    } else if l == seq!['n', 'd', 'j', 's', 'o', 'n'] || l == seq!['j', 's', 'o', 'n', 'l'] {
        Some(InputFormat::Ndjson)
    } else if l == seq!['t', 's', 'v'] || l == seq!['t', 'a', 'b'] {
        Some(InputFormat::Tsv)
    } else if l == seq!['c', 's', 'v'] {
        Some(InputFormat::Csv)
    } else {
        None
    }
}

/// The first line has a tab and no more commas than tabs.
pub open spec fn tab_heavy_first_line(content: Seq<char>) -> bool {
    let ls = lines_seq(content);
    ls.len() > 0 && count_of(ls[0], '\t') > 0 && count_of(ls[0], '\t') >= count_of(ls[0], ',')
}

/// The format of a document: by extension, else `[` → JSON, `{` → NDJSON
/// (after leading whitespace), a tab-heavy first line → TSV, space-aligned
/// columns → fixed width, otherwise CSV.
pub open spec fn detect_format_spec(path: Seq<char>, content: Seq<char>) -> InputFormat {
    let by_ext = match extension_spec(path) {
        Some(e) => extension_format(e),
        None => None,
    };
    let t = trim_start_seq(content);
    if by_ext is Some {
        by_ext->0
    } else if t.len() > 0 && t[0] == '[' {
        InputFormat::Json
    } else if t.len() > 0 && t[0] == '{' {
        InputFormat::Ndjson
    } else if tab_heavy_first_line(content) {
        InputFormat::Tsv
    } else if looks_like_space_spec(content) {
        InputFormat::Space
    } else {
        InputFormat::Csv
    }
}

fn format_of_extension(e: &[char]) -> (r: Option<InputFormat>)
    ensures r == extension_format(e@),
{
    let json = vec!['j', 's', 'o', 'n'];
    let ndjson = vec!['n', 'd', 'j', 's', 'o', 'n'];
    let jsonl = vec!['j', 's', 'o', 'n', 'l'];
    let tsv = vec!['t', 's', 'v'];
    let tab = vec!['t', 'a', 'b'];
    let csv = vec!['c', 's', 'v'];
    assert(json@ =~= seq!['j', 's', 'o', 'n']);
    assert(ndjson@ =~= seq!['n', 'd', 'j', 's', 'o', 'n']);
    assert(jsonl@ =~= seq!['j', 's', 'o', 'n', 'l']);
    assert(tsv@ =~= seq!['t', 's', 'v']);
    assert(tab@ =~= seq!['t', 'a', 'b']);
    assert(csv@ =~= seq!['c', 's', 'v']);
    if eq_ascii_lower(e, json.as_slice()) {
        Some(InputFormat::Json)
    } else if eq_ascii_lower(e, ndjson.as_slice()) || eq_ascii_lower(e, jsonl.as_slice()) {
        Some(InputFormat::Ndjson)
    } else if eq_ascii_lower(e, tsv.as_slice()) || eq_ascii_lower(e, tab.as_slice()) {
        Some(InputFormat::Tsv)
    } else if eq_ascii_lower(e, csv.as_slice()) {
        Some(InputFormat::Csv)
    } else {
        None
    }
}

/// Detect the input format from the file path's extension and the content.
pub fn detect_format(path: &str, content: &str) -> (r: InputFormat)
    ensures r == detect_format_spec(path@, content@),
{
    let p = chars_of(path);
    let by_ext = match path_extension(p.as_slice()) {
        Some(e) => format_of_extension(e.as_slice()),
        None => None,
    };
    if let Some(f) = by_ext {
        return f;
    }
    let c = chars_of(content);
    let t = trim_start(c.as_slice());
    if t.len() > 0 && t[0] == '[' {
        return InputFormat::Json;
    }
    if t.len() > 0 && t[0] == '{' {
        return InputFormat::Ndjson;
    }
    let ls = split_lines(c.as_slice());
    if ls.len() > 0 {
        let first = ls[0].as_slice();
        assert(first@ == lines_seq(content@)[0]);
        let tabs = count_char(first, '\t');
        let commas = count_char(first, ',');
        if tabs > 0 && tabs >= commas {
            return InputFormat::Tsv;
        }
    }
    if looks_like_space_format(content) {
        return InputFormat::Space;
    }
    InputFormat::Csv
}

// ---------------------------------------------------------------------------
// Escape expansion for piped input

/// Whether the text has literal `\n` escapes and at most one real newline.
pub open spec fn needs_escape_expansion(s: Seq<char>) -> bool {
    count_pair(s, '\\', 'n') >= 1 && count_of(s, '\n') <= 1
}

/// The text with literal `\n` and then literal `\t` turned into a newline and a tab,
/// when it needs that; otherwise unchanged.
pub open spec fn expand_escapes_spec(s: Seq<char>) -> Seq<char> {
    if needs_escape_expansion(s) {
        replace_pair(replace_pair(s, '\\', 'n', '\n'), '\\', 't', '\t')
    } else {
        s
    }
}

/// Expand literal `\n` / `\t` sequences (typed into a shell but not expanded) when the
/// content has at least one of them and at most one real newline.
pub fn expand_literal_escapes_if_needed(content: String) -> (r: String)
    ensures r@ == expand_escapes_spec(content@),
{
    let c = chars_of(content.as_str());
    let real_newlines = count_char(c.as_slice(), '\n');
    let literal = count_pairs(c.as_slice(), '\\', 'n');
    if literal >= 1 && real_newlines <= 1 {
        let once = replace_pairs(c.as_slice(), '\\', 'n', '\n');
        let twice = replace_pairs(once.as_slice(), '\\', 't', '\t');
        string_of(twice.as_slice())
    } else {
        content
    }
}

// ---------------------------------------------------------------------------
// CSV / TSV

/// Every header reads as a number (and there is at least one header).
pub open spec fn headers_numeric_spec(h: Seq<Seq<char>>) -> bool {
    h.len() > 0 && forall|i: int| 0 <= i < h.len() ==> float_lit(#[trigger] h[i])
}

/// Whether all headers parse as numbers (so they are probably data, not headers).
pub fn headers_are_numeric(headers: &[String]) -> (r: bool)
    ensures r == headers_numeric_spec(strs(headers@)),
{
    if headers.len() == 0 {
        return false;
    }
    let mut i: usize = 0;
    while i < headers.len()
        invariant
            i <= headers@.len(),
            forall|j: int| 0 <= j < i ==> float_lit(#[trigger] strs(headers@)[j]),
        decreases headers@.len() - i,
    {
        let h = chars_of(headers[i].as_str());
        if !is_float_literal(h.as_slice()) {
            assert(!float_lit(strs(headers@)[i as int]));
            return false;
        }
        i = i + 1;
    }
    true
}

/// The records the `csv` crate reads from `text` with the given delimiter, no
/// header row and records of any length; `None` for a record it could not read.
pub uninterp spec fn csv_records(text: Seq<char>, delimiter: u8) -> Seq<Option<Seq<Seq<char>>>>;

pub open spec fn record_view(r: Option<Vec<String>>) -> Option<Seq<Seq<char>>> {
    match r {
        Some(v) => Some(strs(v@)),
        None => None,
    }
}

pub open spec fn records_view(v: Seq<Option<Vec<String>>>) -> Seq<Option<Seq<Seq<char>>>> {
    v.map_values(|r: Option<Vec<String>>| record_view(r))
}

/// Reads every record of `content` with `csv::ReaderBuilder` (the given
/// delimiter, `has_headers(false)`, `flexible(true)`). The contract names the
/// result; what the crate makes of quoting and escapes is not restated here.
#[verifier::external_body]
fn read_csv_records(content: &str, delimiter: u8) -> (r: Vec<Option<Vec<String>>>)
    ensures records_view(r@) == csv_records(content@, delimiter),
{
    let mut rdr = csv::ReaderBuilder::new()
        .delimiter(delimiter)
        .has_headers(false)
        .flexible(true)
        .from_reader(content.as_bytes());
    rdr.records().map(|rec| rec.ok().map(|r| r.iter().map(|f| f.to_string()).collect())).collect()
}

/// The records that were read, in order.
pub open spec fn good_records(rs: Seq<Option<Seq<Seq<char>>>>) -> Seq<Seq<Seq<char>>> {
    rs.filter(|r: Option<Seq<Seq<char>>>| r is Some).map_values(|r: Option<Seq<Seq<char>>>| r->0)
}

/// `(headers, rows)` of delimited text read without a header row.
pub open spec fn delimited_no_header_spec(rs: Seq<Option<Seq<Seq<char>>>>) -> (Seq<Seq<char>>, Seq<Seq<Seq<char>>>) {
    let rows = good_records(rs);
    let n = if rows.len() > 0 { rows[0].len() } else { 0 };
    (synthetic_headers(n), rows)
}

/// `(headers, rows)` of delimited text: the first record names the columns,
/// unless `no_header` is set or every name reads as a number.
pub open spec fn delimited_spec(rs: Seq<Option<Seq<Seq<char>>>>, no_header: bool) -> Option<(Seq<Seq<char>>, Seq<Seq<Seq<char>>>)> {
    if no_header {
        Some(delimited_no_header_spec(rs))
    } else if rs.len() == 0 {
        Some((seq![], seq![]))
    } else if rs[0] is None {
        None
    } else if headers_numeric_spec(rs[0]->0) {
        Some(delimited_no_header_spec(rs))
    } else {
        Some((rs[0]->0, good_records(rs.drop_first())))
    }
}

fn keep_good_records(recs: Vec<Option<Vec<String>>>, from: usize) -> (r: Vec<Vec<String>>)
    requires from <= recs@.len(),
    ensures rows_view(r@) == good_records(records_view(recs@).skip(from as int)),
{
    let ghost rv = records_view(recs@).skip(from as int);
    let ghost pred = |r: Option<Seq<Seq<char>>>| r is Some;
    let mut out: Vec<Vec<String>> = Vec::new();
    let mut i = from;
    let mut recs = recs;
    let n = recs.len();
    proof { reveal_with_fuel(Seq::filter, 1); }
    assert(rv.take(0) =~= Seq::<Option<Seq<Seq<char>>>>::empty());
    while i < n
        invariant
            from <= i <= n,
            n == recs@.len(),
            rv == records_view(recs@).skip(from as int),
            pred == (|r: Option<Seq<Seq<char>>>| r is Some),
            rows_view(out@) =~= rv.take(i - from).filter(pred).map_values(|r: Option<Seq<Seq<char>>>| r->0),
        decreases n - i,
    {
        let ghost k = (i - from) as int;
        assert(rv.take(k + 1).drop_last() =~= rv.take(k));
        assert(rv.take(k + 1).last() == record_view(recs@[i as int]));
        proof { reveal_with_fuel(Seq::filter, 1); }
        let ghost before = rv.take(k).filter(pred);
        let ghost old_out = rows_view(out@);
        assert(old_out =~= before.map_values(|r: Option<Seq<Seq<char>>>| r->0));
        match &recs[i] {
            Some(r) => {
                let row = r.clone();
                assert(strs(row@) =~= strs(r@)) by {
                    assert forall|j: int| 0 <= j < row@.len() implies row@[j]@ == r@[j]@ by {
                        assert(cloned::<String>(r@[j], row@[j]));
                    }
                }
                out.push(row);
                assert(rv.take(k + 1).filter(pred) == before.push(record_view(recs@[i as int])));
                assert(rows_view(out@) =~= old_out.push(strs(row@)));
                assert(rows_view(out@) =~= rv.take(k + 1).filter(pred).map_values(|r: Option<Seq<Seq<char>>>| r->0));
            },
            None => {
                assert(rv.take(k + 1).filter(pred) == before);
            },
        }
        i = i + 1;
        assert(rows_view(out@) =~= rv.take(i - from).filter(pred).map_values(|r: Option<Seq<Seq<char>>>| r->0));
    }
    assert(rv.take(n - from) =~= rv);
    out
}

fn synthetic_names(n: usize) -> (r: Vec<String>)
    ensures strs(r@) == synthetic_headers(n as nat),
{
    let mut out: Vec<String> = Vec::new();
    let mut i: usize = 0;
    while i < n
        invariant
            i <= n,
            out@.len() == i,
            forall|j: int| 0 <= j < i ==> #[trigger] out@[j]@ == synthetic_headers(n as nat)[j],
        decreases n - i,
    {
        let mut name = string_of(&['c', 'o', 'l']);
        let digits = crate::text::usize_chars(i + 1);
        crate::text::push_chars(&mut name, digits.as_slice());
        assert(name@ =~= seq!['c', 'o', 'l'] + dec_seq((i + 1) as nat));
        out.push(name);
        i = i + 1;
    }
    assert(strs(out@) =~= synthetic_headers(n as nat));
    out
}

fn delimited_no_header(recs: Vec<Option<Vec<String>>>) -> (r: LoadedData)
    ensures
        (r.headers_view(), r.rows_view()) == delimited_no_header_spec(records_view(recs@)),
{
    let ghost rv = records_view(recs@);
    assert(rv.skip(0) =~= rv);
    let rows = keep_good_records(recs, 0);
    let n = if rows.len() > 0 { rows[0].len() } else { 0 };
    let headers = synthetic_names(n);
    LoadedData { headers, rows }
}

/// The table made of records already read: the first record is the header
/// row unless `no_header` is set or all of its fields read as numbers; an
/// unreadable header record is an error, other unreadable records are left out.
pub fn delimited_from_records(recs: Vec<Option<Vec<String>>>, no_header: bool) -> (r: Result<LoadedData, LoadError>)
    ensures
        delimited_spec(records_view(recs@), no_header) is Some <==> r is Ok,
        r is Ok ==> (r->Ok_0.headers_view(), r->Ok_0.rows_view())
            == delimited_spec(records_view(recs@), no_header)->0,
        r is Err ==> r->Err_0 == LoadError::CsvHeaders,
{
    let ghost rv = records_view(recs@);
    if no_header {
        return Ok(delimited_no_header(recs));
    }
    if recs.len() == 0 {
        let d = LoadedData { headers: Vec::new(), rows: Vec::new() };
        assert(d.headers_view() =~= seq![]);
        assert(d.rows_view() =~= seq![]);
        return Ok(d);
    }
    let headers = match &recs[0] {
        Some(h) => h.clone(),
        None => {
            return Err(LoadError::CsvHeaders);
        },
    };
    assert(strs(headers@) =~= rv[0]->0) by {
        assert forall|j: int| 0 <= j < headers@.len() implies headers@[j]@ == rv[0]->0[j] by {
            assert(cloned::<String>(recs@[0]->0@[j], headers@[j]));
        }
    }
    if headers_are_numeric(headers.as_slice()) {
        return Ok(delimited_no_header(recs));
    }
    assert(rv.skip(1) =~= rv.drop_first());
    let rows = keep_good_records(recs, 1);
    Ok(LoadedData { headers, rows })
}

/// Load CSV/TSV text with the given delimiter; the first record is the header
/// row unless `no_header` is set or all of its fields read as numbers.
pub fn load_delimited(content: &str, delimiter: u8, no_header: bool) -> (r: Result<LoadedData, LoadError>)
    ensures
        delimited_spec(csv_records(content@, delimiter), no_header) is Some <==> r is Ok,
        r is Ok ==> (r->Ok_0.headers_view(), r->Ok_0.rows_view())
            == delimited_spec(csv_records(content@, delimiter), no_header)->0,
        r is Err ==> r->Err_0 == LoadError::CsvHeaders,
{
    let recs = read_csv_records(content, delimiter);
    delimited_from_records(recs, no_header)
}


// ---------------------------------------------------------------------------
// JSON and NDJSON

/// A JSON member value as the loader uses it: `null`, a string, or any other
/// value written out as JSON text (numbers, booleans, arrays, objects).
#[derive(Debug, PartialEq, Eq)]
pub enum JsonCell {
    Null,
    Text(String),
    Other(String),
}

/// A JSON array element or NDJSON line: an object's members, or something else.
#[derive(Debug)]
pub enum JsonItem {
    Object(Vec<(String, JsonCell)>),
    NotObject,
}

/// The content of a [`JsonCell`].
pub enum JsonCellV {
    Null,
    Text(Seq<char>),
    Other(Seq<char>),
}

/// The content of a [`JsonItem`].
pub enum JsonItemV {
    Object(Seq<(Seq<char>, JsonCellV)>),
    NotObject,
}

pub open spec fn cell_view(c: JsonCell) -> JsonCellV {
    match c {
        JsonCell::Null => JsonCellV::Null,
        JsonCell::Text(s) => JsonCellV::Text(s@),
        JsonCell::Other(s) => JsonCellV::Other(s@),
    }
}

pub open spec fn entries_view(e: Seq<(String, JsonCell)>) -> Seq<(Seq<char>, JsonCellV)> {
    e.map_values(|p: (String, JsonCell)| (p.0@, cell_view(p.1)))
}

pub open spec fn item_view(i: JsonItem) -> JsonItemV {
    match i {
        JsonItem::Object(e) => JsonItemV::Object(entries_view(e@)),
        JsonItem::NotObject => JsonItemV::NotObject,
    }
}

pub open spec fn items_view(v: Seq<JsonItem>) -> Seq<JsonItemV> {
    v.map_values(|i: JsonItem| item_view(i))
}

/// What `serde_json` reads from `text` as an array of values, each converted to
/// a [`JsonItemV`]; `None` when the text is not a JSON array.
pub uninterp spec fn json_array_items(text: Seq<char>) -> Option<Seq<JsonItemV>>;

/// What `serde_json` reads from `text` as one JSON value, converted to a
/// [`JsonItemV`]; `None` when the text is not a JSON value.
pub uninterp spec fn json_value_item(text: Seq<char>) -> Option<JsonItemV>;

/// Parses `content` with `serde_json::from_str::<Vec<serde_json::Value>>` and
/// converts each element: an object becomes its members (in the map's key
/// order), with `null` and strings kept apart and every other value written
/// out with `serde_json`'s `Display`. The contract names the result.
#[verifier::external_body]
fn parse_json_array(content: &str) -> (r: Option<Vec<JsonItem>>)
    ensures
        r is Some <==> json_array_items(content@) is Some,
        r is Some ==> items_view(r->0@) == json_array_items(content@)->0,
{
    let values: Vec<serde_json::Value> = serde_json::from_str(content).ok()?;
    Some(values.iter().map(|v| match v.as_object() {
        Some(m) => JsonItem::Object(m.iter().map(|(k, x)| (k.clone(), match x {
            serde_json::Value::Null => JsonCell::Null,
            serde_json::Value::String(s) => JsonCell::Text(s.clone()),
            other => JsonCell::Other(other.to_string()),
        })).collect()),
        None => JsonItem::NotObject,
    }).collect())
}

/// Parses `line` with `serde_json::from_str::<serde_json::Value>` and converts
/// it as `parse_json_array` converts each element. The contract names the result.
#[verifier::external_body]
fn parse_json_value(line: &str) -> (r: Option<JsonItem>)
    ensures
        r is Some <==> json_value_item(line@) is Some,
        r is Some ==> item_view(r->0) == json_value_item(line@)->0,
{
    let v: serde_json::Value = serde_json::from_str(line).ok()?;
    Some(match v.as_object() {
        Some(m) => JsonItem::Object(m.iter().map(|(k, x)| (k.clone(), match x {
            serde_json::Value::Null => JsonCell::Null,
            serde_json::Value::String(s) => JsonCell::Text(s.clone()),
            other => JsonCell::Other(other.to_string()),
        })).collect()),
        None => JsonItem::NotObject,
    })
}

/// The first member value named `key`.
pub open spec fn lookup(e: Seq<(Seq<char>, JsonCellV)>, key: Seq<char>) -> Option<JsonCellV>
    decreases e.len(),
{
    if e.len() == 0 {
        None
    } else if e[0].0 == key {
        Some(e[0].1)
    } else {
        lookup(e.drop_first(), key)
    }
}

/// The text a value becomes in a table cell: empty for a missing value or
/// `null`, the string itself, or the value's JSON text.
pub open spec fn cell_text(c: Option<JsonCellV>) -> Seq<char> {
    match c {
        None => Seq::empty(),
        Some(JsonCellV::Null) => Seq::empty(),
        Some(JsonCellV::Text(s)) => s,
        Some(JsonCellV::Other(t)) => t,
    }
}

pub open spec fn is_object(i: JsonItemV) -> bool {
    i is Object
}

/// `(headers, rows)` of a list of JSON items: the first item's member names
/// are the headers; every object item is a row (non-objects are skipped).
/// `None` when the first item is not an object.
pub open spec fn tabular_spec(items: Seq<JsonItemV>) -> Option<(Seq<Seq<char>>, Seq<Seq<Seq<char>>>)> {
    if items.len() == 0 {
        Some((seq![], seq![]))
    } else {
        match items[0] {
            JsonItemV::Object(e) => {
                let h = e.map_values(|p: (Seq<char>, JsonCellV)| p.0);
                let objs = items.filter(|i: JsonItemV| is_object(i));
                Some((h, objs.map_values(|i: JsonItemV| h.map_values(|k: Seq<char>| cell_text(lookup(i->Object_0, k))))))
            },
            JsonItemV::NotObject => None,
        }
    }
}

/// Text of one cell (`null` or a missing member → empty).
pub fn value_to_string(val: Option<&JsonCell>) -> (r: String)
    ensures r@ == cell_text(match val { Some(c) => Some(cell_view(*c)), None => None }),
{
    match val {
        None => String::new(),
        Some(JsonCell::Null) => String::new(),
        Some(JsonCell::Text(s)) => s.clone(),
        Some(JsonCell::Other(t)) => t.clone(),
    }
}

fn lookup_cell<'a>(e: &'a Vec<(String, JsonCell)>, key: &String) -> (r: Option<&'a JsonCell>)
    ensures
        (match r { Some(c) => Some(cell_view(*c)), None => None }) == lookup(entries_view(e@), key@),
{
    let ghost ev = entries_view(e@);
    let mut i: usize = 0;
    assert(ev.skip(0) =~= ev);
    while i < e.len()
        invariant
            i <= e@.len(),
            ev == entries_view(e@),
            lookup(ev, key@) == lookup(ev.skip(i as int), key@),
        decreases e@.len() - i,
    {
        let ghost rest = ev.skip(i as int);
        assert(rest[0] == (e@[i as int].0@, cell_view(e@[i as int].1)));
        if e[i].0 == *key {
            return Some(&e[i].1);
        }
        assert(rest.drop_first() =~= ev.skip(i + 1));
        i = i + 1;
    }
    None
}

/// Convert a list of JSON items into headers and rows.
pub fn objects_to_tabular(items: Vec<JsonItem>) -> (r: Result<LoadedData, LoadError>)
    ensures
        r is Ok <==> tabular_spec(items_view(items@)) is Some,
        r is Ok ==> (r->Ok_0.headers_view(), r->Ok_0.rows_view()) == tabular_spec(items_view(items@))->0,
        r is Err ==> r->Err_0 == LoadError::NotObjects,
{
    let ghost iv = items_view(items@);
    if items.len() == 0 {
        let d = LoadedData { headers: Vec::new(), rows: Vec::new() };
        assert(d.headers_view() =~= seq![]);
        assert(d.rows_view() =~= seq![]);
        return Ok(d);
    }
    let mut headers: Vec<String> = Vec::new();
    match &items[0] {
        JsonItem::Object(e) => {
            let mut k: usize = 0;
            while k < e.len()
                invariant
                    k <= e@.len(),
                    headers@.len() == k,
                    forall|j: int| 0 <= j < k ==> #[trigger] headers@[j]@ == e@[j].0@,
                decreases e@.len() - k,
            {
                headers.push(e[k].0.clone());
                k = k + 1;
            }
            assert(strs(headers@) =~= entries_view(e@).map_values(|p: (Seq<char>, JsonCellV)| p.0));
        },
        JsonItem::NotObject => {
            return Err(LoadError::NotObjects);
        },
    }
    let ghost h = strs(headers@);
    let ghost pred = |i: JsonItemV| is_object(i);
    let ghost rowf = |i: JsonItemV| h.map_values(|k: Seq<char>| cell_text(lookup(i->Object_0, k)));
    let mut rows: Vec<Vec<String>> = Vec::new();
    let mut i: usize = 0;
    proof { reveal_with_fuel(Seq::filter, 1); }
    assert(iv.take(0) =~= Seq::<JsonItemV>::empty());
    while i < items.len()
        invariant
            i <= items@.len(),
            iv == items_view(items@),
            h == strs(headers@),
            pred == (|i: JsonItemV| is_object(i)),
            rowf == (|i: JsonItemV| h.map_values(|k: Seq<char>| cell_text(lookup(i->Object_0, k)))),
            rows_view(rows@) =~= iv.take(i as int).filter(pred).map_values(rowf),
        decreases items@.len() - i,
    {
        assert(iv.take(i + 1).drop_last() =~= iv.take(i as int));
        assert(iv.take(i + 1).last() == item_view(items@[i as int]));
        proof { reveal_with_fuel(Seq::filter, 1); }
        let ghost before = iv.take(i as int).filter(pred);
        let ghost old_rows = rows_view(rows@);
        assert(old_rows =~= before.map_values(rowf));
        match &items[i] {
            JsonItem::Object(e) => {
                let mut row: Vec<String> = Vec::new();
                let mut k: usize = 0;
                while k < headers.len()
                    invariant
                        k <= headers@.len(),
                        row@.len() == k,
                        h == strs(headers@),
                        forall|j: int| 0 <= j < k ==> #[trigger] row@[j]@
                            == cell_text(lookup(entries_view(e@), h[j])),
                    decreases headers@.len() - k,
                {
                    let c = lookup_cell(e, &headers[k]);
                    row.push(value_to_string(c));
                    k = k + 1;
                }
                assert(strs(row@) =~= rowf(item_view(items@[i as int])));
                rows.push(row);
                assert(iv.take(i + 1).filter(pred) == before.push(item_view(items@[i as int])));
                assert(rows_view(rows@) =~= old_rows.push(strs(row@)));
            },
            JsonItem::NotObject => {
                assert(iv.take(i + 1).filter(pred) == before);
            },
        }
        i = i + 1;
    }
    assert(iv.take(i as int) =~= iv);
    let d = LoadedData { headers, rows };
    Ok(d)
}

/// `Err` for an array that could not be read, else the table of its items.
pub open spec fn json_array_spec(c: Seq<char>) -> Result<(Seq<Seq<char>>, Seq<Seq<Seq<char>>>), LoadError> {
    let t = trim_start_seq(c);
    if t.len() > 0 && t[0] == '{' {
        Err(LoadError::SingleJsonObject)
    } else {
        match json_array_items(c) {
            None => Err(LoadError::InvalidJsonArray),
            Some(items) => match tabular_spec(items) {
                None => Err(LoadError::NotObjects),
                Some(x) => Ok(x),
            },
        }
    }
}

/// Load a JSON array of objects.
pub fn load_json_array(content: &str) -> (r: Result<LoadedData, LoadError>)
    ensures
        r is Ok <==> json_array_spec(content@) is Ok,
        r is Ok ==> (r->Ok_0.headers_view(), r->Ok_0.rows_view()) == json_array_spec(content@)->Ok_0,
        r is Err ==> r->Err_0 == json_array_spec(content@)->Err_0,
{
    let c = chars_of(content);
    let t = trim_start(c.as_slice());
    if t.len() > 0 && t[0] == '{' {
        return Err(LoadError::SingleJsonObject);
    }
    match parse_json_array(content) {
        None => Err(LoadError::InvalidJsonArray),
        Some(items) => objects_to_tabular(items),
    }
}

/// The non-blank lines of an NDJSON document.
pub open spec fn ndjson_lines(c: Seq<char>) -> Seq<Seq<char>> {
    lines_seq(c).filter(|l: Seq<char>| trim_seq(l).len() > 0)
}

/// Every non-blank line is a JSON value.
pub open spec fn ndjson_ok(c: Seq<char>) -> bool {
    forall|i: int| 0 <= i < ndjson_lines(c).len() ==> #[trigger] json_value_item(ndjson_lines(c)[i]) is Some
}

pub open spec fn ndjson_spec(c: Seq<char>) -> Result<(Seq<Seq<char>>, Seq<Seq<Seq<char>>>), LoadError> {
    if !ndjson_ok(c) {
        Err(LoadError::InvalidNdjson)
    } else {
        let items = ndjson_lines(c).map_values(|l: Seq<char>| json_value_item(l)->0);
        match tabular_spec(items) {
            None => Err(LoadError::NotObjects),
            Some(x) => Ok(x),
        }
    }
}

/// Load NDJSON: one JSON object per non-blank line.
pub fn load_ndjson(content: &str) -> (r: Result<LoadedData, LoadError>)
    ensures
        r is Ok <==> ndjson_spec(content@) is Ok,
        r is Ok ==> (r->Ok_0.headers_view(), r->Ok_0.rows_view()) == ndjson_spec(content@)->Ok_0,
        r is Err ==> r->Err_0 == ndjson_spec(content@)->Err_0,
{
    let c = chars_of(content);
    let all = split_lines(c.as_slice());
    let ghost ls = lines_seq(content@);
    let ghost pred = |l: Seq<char>| trim_seq(l).len() > 0;
    let ghost nl = ndjson_lines(content@);
    let mut items: Vec<JsonItem> = Vec::new();
    let mut i: usize = 0;
    proof { reveal_with_fuel(Seq::filter, 1); }
    assert(ls.take(0) =~= Seq::<Seq<char>>::empty());
    while i < all.len()
        invariant
            i <= all@.len(),
            seqs(all@) == ls,
            ls == lines_seq(content@),
            nl == ndjson_lines(content@),
            pred == (|l: Seq<char>| trim_seq(l).len() > 0),
            items@.len() == ls.take(i as int).filter(pred).len(),
            forall|j: int| 0 <= j < items@.len() ==> json_value_item(#[trigger] ls.take(i as int).filter(pred)[j]) is Some
                && item_view(items@[j]) == json_value_item(ls.take(i as int).filter(pred)[j])->0,
        decreases all@.len() - i,
    {
        let l = all[i].as_slice();
        assert(l@ == ls[i as int]);
        assert(ls.take(i + 1).drop_last() =~= ls.take(i as int));
        assert(ls.take(i + 1).last() == l@);
        proof { reveal_with_fuel(Seq::filter, 1); }
        let ghost before = ls.take(i as int).filter(pred);
        if !is_blank(l) {
            let text = string_of(l);
            match parse_json_value(text.as_str()) {
                Some(item) => {
                    items.push(item);
                    assert(ls.take(i + 1).filter(pred) == before.push(l@));
                },
                None => {
                    proof {
                        let k = before.len() as int;
                        assert(ls.take(i + 1).filter(pred) == before.push(l@));
                        assert(ls.take(i + 1).filter(pred)[k] == l@);
                        lemma_filter_take_prefix(ls, pred, i + 1);
                        assert(nl[k] == l@);
                        assert(!ndjson_ok(content@));
                    }
                    return Err(LoadError::InvalidNdjson);
                },
            }
        } else {
            assert(ls.take(i + 1).filter(pred) == before);
        }
        i = i + 1;
    }
    assert(ls.take(i as int) =~= ls);
    assert(ndjson_ok(content@));
    assert(items_view(items@) =~= nl.map_values(|l: Seq<char>| json_value_item(l)->0));
    objects_to_tabular(items)
}

/// A filtered prefix is a prefix of the filtered whole.
proof fn lemma_filter_take_prefix(s: Seq<Seq<char>>, p: spec_fn(Seq<char>) -> bool, n: int)
    requires 0 <= n <= s.len(),
    ensures
        s.take(n).filter(p).len() <= s.filter(p).len(),
        forall|j: int| 0 <= j < s.take(n).filter(p).len() ==> #[trigger] s.take(n).filter(p)[j] == s.filter(p)[j],
    decreases s.len() - n,
{
    reveal_with_fuel(Seq::filter, 1);
    if n < s.len() {
        lemma_filter_take_prefix(s, p, n + 1);
        assert(s.take(n + 1).drop_last() =~= s.take(n));
        let a = s.take(n).filter(p);
        let b = s.take(n + 1).filter(p);
        assert(s.take(n + 1).last() == s[n]);
        assert(b == if p(s[n]) { a.push(s[n]) } else { a });
        assert forall|j: int| 0 <= j < a.len() implies #[trigger] a[j] == s.filter(p)[j] by {
            assert(a[j] == b[j]);
        }
    } else {
        assert(s.take(n) =~= s);
    }
}

// ---------------------------------------------------------------------------
// Any format

/// The content without a leading byte-order mark.
pub open spec fn strip_bom(c: Seq<char>) -> Seq<char> {
    if c.len() > 0 && c[0] == '\u{FEFF}' { c.drop_first() } else { c }
}

/// `(headers, rows)` of a document in the given format, or why it fails.
pub open spec fn load_spec(content: Seq<char>, format: InputFormat, no_header: bool)
    -> Result<(Seq<Seq<char>>, Seq<Seq<Seq<char>>>), LoadError>
{
    let c = strip_bom(content);
    match format {
        InputFormat::Csv => match delimited_spec(csv_records(c, 44u8), no_header) {
            Some(x) => Ok(x),
            None => Err(LoadError::CsvHeaders),
        },
        InputFormat::Tsv => match delimited_spec(csv_records(c, 9u8), no_header) {
            Some(x) => Ok(x),
            None => Err(LoadError::CsvHeaders),
        },
        InputFormat::Json => json_array_spec(c),
        InputFormat::Ndjson => ndjson_spec(c),
        InputFormat::Space => Ok((space_headers(c, no_header), space_rows(c, no_header))),
    }
}

/// The space-aligned loader can cut every row of this content.
pub open spec fn loadable(content: Seq<char>, format: InputFormat, no_header: bool) -> bool {
    format == InputFormat::Space ==> space_layout_ok(strip_bom(content), no_header)
}

/// Load a document held in memory in the given format (a leading BOM is dropped).
pub fn load_from_content(content: &str, format: InputFormat, no_header: bool) -> (r: Result<LoadedData, LoadError>)
    requires loadable(content@, format, no_header),
    ensures
        r is Ok <==> load_spec(content@, format, no_header) is Ok,
        r is Ok ==> (r->Ok_0.headers_view(), r->Ok_0.rows_view()) == load_spec(content@, format, no_header)->Ok_0,
        r is Err ==> r->Err_0 == load_spec(content@, format, no_header)->Err_0,
{
    let c = chars_of(content);
    let body = if c.len() > 0 && c[0] == '\u{FEFF}' {
        crate::text::copy_range(c.as_slice(), 1, c.len())
    } else {
        c
    };
    assert(body@ =~= strip_bom(content@));
    let text = string_of(body.as_slice());
    match format {
        InputFormat::Csv => load_delimited(text.as_str(), 44u8, no_header),
        InputFormat::Tsv => load_delimited(text.as_str(), 9u8, no_header),
        InputFormat::Json => load_json_array(text.as_str()),
        InputFormat::Ndjson => load_ndjson(text.as_str()),
        InputFormat::Space => load_space(text.as_str(), no_header),
    }
}


/// Whether [`load_from_content`] can cut every row of this content: only
/// space-aligned text can fail, when a row's split points cross.
pub fn is_loadable(content: &str, format: InputFormat, no_header: bool) -> (r: bool)
    ensures r == loadable(content@, format, no_header),
{
    match format {
        InputFormat::Space => {
            let c = chars_of(content);
            let body = if c.len() > 0 && c[0] == '\u{FEFF}' {
                crate::text::copy_range(c.as_slice(), 1, c.len())
            } else {
                c
            };
            assert(body@ =~= strip_bom(content@));
            let text = string_of(body.as_slice());
            crate::loader::space::space_layout_is_ok(text.as_str(), no_header)
        },
        _ => true,
    }
}


// ---------------------------------------------------------------------------
// Laws

/// A UTF-8 byte-order mark at the start of the input is ignored: loading
/// `BOM + text` gives what loading `text` gives.
pub proof fn law_bom_is_ignored(content: Seq<char>, format: InputFormat, no_header: bool)
    requires
        !(content.len() > 0 && content[0] == '\u{FEFF}'),
    ensures
        load_spec(seq!['\u{FEFF}'] + content, format, no_header) == load_spec(content, format, no_header),
{
    assert(strip_bom(seq!['\u{FEFF}'] + content) =~= content);
}

/// A first record that is entirely numeric is read as data, exactly as if
/// headerless reading had been asked for.
pub proof fn law_numeric_first_row_is_data(rs: Seq<Option<Seq<Seq<char>>>>)
    requires
        rs.len() > 0,
        rs[0] is Some,
        headers_numeric_spec(rs[0]->0),
    ensures
        delimited_spec(rs, false) == delimited_spec(rs, true),
{
}

/// A known file extension decides the format, whatever the content.
pub proof fn law_extension_decides_format(path: Seq<char>, content: Seq<char>, e: Seq<char>)
    requires
        extension_spec(path) == Some(e),
        extension_format(e) is Some,
    ensures
        detect_format_spec(path, content) == extension_format(e)->0,
{
}

} // verus!
