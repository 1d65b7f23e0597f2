//! Checks on loaded data before it is drawn.

use vstd::prelude::*;
use crate::loader::LoadedData;
use crate::text::{append_str, usize_chars, push_chars, strs, join_with, join_strings};
use crate::diagnostics::{suggestion_spec, suggest_column, column_suffix_spec, format_column_suffix};
use crate::chart::opt_view;

verus! {

/// Why loaded data cannot be drawn.
#[derive(Debug, Clone, PartialEq)]
pub enum ValidationError {
    /// Rows were read but the filters excluded all of them.
    AllRowsFiltered { pre_filter_count: usize },
    /// The input has no rows and no (non-blank) headers.
    EmptyInput { file: String },
    /// The input has headers but no rows.
    HeadersOnly { file: String },
}

/// No row remains and the filters removed some.
pub open spec fn all_filtered(n_rows: nat, n_filters: nat, pre_filter_count: nat) -> bool {
    n_rows == 0 && n_filters > 0 && pre_filter_count > 0
}

/// Every header is blank (or there are none).
pub open spec fn headers_blank(headers: Seq<Seq<char>>) -> bool {
    forall|i: int| 0 <= i < headers.len() ==> #[trigger] headers[i].len() == 0
}

/// Checks that loaded data has rows, and says why not.
pub fn validate_loaded_data(
    data: &LoadedData,
    file: &str,
    filters: &[String],
    pre_filter_count: usize,
) -> (r: Result<(), ValidationError>)
    ensures
        r is Ok <==> data.rows@.len() > 0,
        r matches Err(ValidationError::AllRowsFiltered { pre_filter_count: n }) <==> all_filtered(
            data.rows@.len(),
            filters@.len(),
            pre_filter_count as nat,
        ),
        r matches Err(ValidationError::AllRowsFiltered { pre_filter_count: n }) ==> n == pre_filter_count,
        r matches Err(ValidationError::EmptyInput { file: f }) <==> (data.rows@.len() == 0
            && !all_filtered(data.rows@.len(), filters@.len(), pre_filter_count as nat)
            && headers_blank(strs(data.headers@))),
        r matches Err(ValidationError::EmptyInput { file: f }) ==> f@ == file@,
        r matches Err(ValidationError::HeadersOnly { file: f }) <==> (data.rows@.len() == 0
            && !all_filtered(data.rows@.len(), filters@.len(), pre_filter_count as nat)
            && !headers_blank(strs(data.headers@))),
        r matches Err(ValidationError::HeadersOnly { file: f }) ==> f@ == file@,
{
    if data.rows.len() > 0 {
        return Ok(());
    }
    if filters.len() > 0 && pre_filter_count > 0 {
        return Err(ValidationError::AllRowsFiltered { pre_filter_count });
    }
    let mut i: usize = 0;
    let mut blank = true;
    while i < data.headers.len()
        invariant
            i <= data.headers@.len(),
            blank == (forall|j: int| 0 <= j < i ==> #[trigger] strs(data.headers@)[j].len() == 0),
        decreases data.headers@.len() - i,
    {
        assert(strs(data.headers@)[i as int] == data.headers@[i as int]@);
        if !data.headers[i].as_str().is_empty() {
            blank = false;
        }
        i = i + 1;
    }
    if blank {
        Err(ValidationError::EmptyInput { file: file.to_owned() })
    } else {
        Err(ValidationError::HeadersOnly { file: file.to_owned() })
    }
}

/// The message shown for a validation error.
pub open spec fn validation_message(e: ValidationError) -> Seq<char> {
    match e {
        ValidationError::AllRowsFiltered { pre_filter_count } => "No rows remain after filtering. All "@
            + crate::text::dec_seq(pre_filter_count as nat) + " rows were excluded by --where predicates."@,
        ValidationError::EmptyInput { file } => "Input '"@ + file@
            + "' is empty — no data to visualize.\n\n  Tip: ensure the command or file produces output before piping to vz."@,
        ValidationError::HeadersOnly { file } => "No data rows found in '"@ + file@
            + "'. The file appears to contain only headers."@,
    }
}

impl ValidationError {
    /// The message shown to the user.
    pub fn message(&self) -> (r: String)
        ensures r@ == validation_message(*self),
    {
        let mut out = String::new();
        match self {
            ValidationError::AllRowsFiltered { pre_filter_count } => {
                append_str(&mut out, "No rows remain after filtering. All ");
                let n = usize_chars(*pre_filter_count);
                push_chars(&mut out, n.as_slice());
                append_str(&mut out, " rows were excluded by --where predicates.");
            },
            ValidationError::EmptyInput { file } => {
                append_str(&mut out, "Input '");
                append_str(&mut out, file.as_str());
                append_str(
                    &mut out,
                    "' is empty — no data to visualize.\n\n  Tip: ensure the command or file produces output before piping to vz.",
                );
            },
            ValidationError::HeadersOnly { file } => {
                append_str(&mut out, "No data rows found in '");
                append_str(&mut out, file.as_str());
                append_str(&mut out, "'. The file appears to contain only headers.");
            },
        }
        out
    }
}


/// A colour column that is not among the headers.
#[derive(Debug, Clone, PartialEq)]
pub struct UnknownColorColumn {
    /// The column asked for.
    pub column: String,
    /// The columns there are.
    pub available: Vec<String>,
    /// A header the column may have been meant to be.
    pub suggestion: Option<String>,
}

/// The message for an unknown colour column: the columns there are, and a
/// suggestion when one is close.
pub open spec fn unknown_color_message(column: Seq<char>, available: Seq<Seq<char>>, suggestion: Option<Seq<char>>) -> Seq<char> {
    "Color column '"@ + column + "' not found. Available columns: "@ + join_with(available, ", "@)
        + column_suffix_spec(suggestion, column)
}

impl UnknownColorColumn {
    /// The message shown to the user.
    pub fn message(&self) -> (r: String)
        ensures r@ == unknown_color_message(self.column@, strs(self.available@), opt_view(self.suggestion)),
    {
        let mut out = String::new();
        append_str(&mut out, "Color column '");
        append_str(&mut out, self.column.as_str());
        append_str(&mut out, "' not found. Available columns: ");
        let joined = join_strings(self.available.as_slice(), ", ");
        append_str(&mut out, joined.as_str());
        let suffix = match &self.suggestion {
            Some(s) => format_column_suffix(Some(s.as_str()), self.column.as_str()),
            None => format_column_suffix(None, self.column.as_str()),
        };
        append_str(&mut out, suffix.as_str());
        out
    }
}

/// Checks that the colour column, if one is asked for, is one of the headers;
/// when it is not, the error carries the headers and a suggestion.
pub fn validate_color_column(headers: &[String], color_col: Option<&str>) -> (r: Result<(), UnknownColorColumn>)
    ensures
        r is Ok <==> (color_col is None || strs(headers@).contains(color_col->0@)),
        r matches Err(e) ==> color_col matches Some(c) && e.column@ == c@ && strs(e.available@) == strs(headers@)
            && opt_view(e.suggestion) == suggestion_spec(strs(headers@), c@),
{
    match color_col {
        Some(c) => {
            let target = c.to_owned();
            let mut i: usize = 0;
            while i < headers.len()
                invariant
                    i <= headers@.len(),
                    color_col == Some(c),
                    target@ == c@,
                    forall|j: int| 0 <= j < i ==> strs(headers@)[j] != c@,
                decreases headers@.len() - i,
            {
                if headers[i] == target {
                    assert(strs(headers@)[i as int] == c@);
                    return Ok(());
                }
                i = i + 1;
            }
            let mut available: Vec<String> = Vec::new();
            let mut k: usize = 0;
            while k < headers.len()
                invariant
                    k <= headers@.len(),
                    strs(available@) =~= strs(headers@).take(k as int),
                decreases headers@.len() - k,
            {
                let ghost prev = strs(available@);
                available.push(headers[k].clone());
                assert(strs(available@) =~= prev.push(headers@[k as int]@));
                k = k + 1;
            }
            assert(strs(headers@).take(k as int) =~= strs(headers@));
            let suggestion = suggest_column(headers, c);
            Err(UnknownColorColumn { column: target, available, suggestion })
        },
        None => Ok(()),
    }
}

} // verus!
