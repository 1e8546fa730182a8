//! What the demo printer decides before it prints: which metadata entry
//! holds the Arrow schema, how a column is labelled, how dictionary indices
//! map to values, and which lines preview a list of values.

use vstd::prelude::*;
use crate::decoders::min_nat;
use crate::errors::{decimal, push_decimal, push_signed_decimal, push_str, signed_decimal};
use crate::summary::ColumnMeta;

verus! {

/// Prints a Parquet file's metadata and pages, showing at most
/// `max_preview_values` values of each page.
#[derive(Debug, Clone, Copy)]
pub struct DemoPrinter {
    max_preview_values: usize,
}

impl DemoPrinter {
    /// The number of values each preview shows.
    pub closed spec fn preview_limit(&self) -> usize {
        self.max_preview_values
    }

    pub fn new(max_preview_values: usize) -> (p: Self)
        ensures
            p.preview_limit() == max_preview_values,
    {
        Self { max_preview_values }
    }

    /// The number of values each preview shows.
    pub fn max_preview_values(&self) -> (n: usize)
        ensures
            n == self.preview_limit(),
    {
        self.max_preview_values
    }

    /// The preview of `i64` values: one line per shown value, then a line
    /// with the number of values left out, if any.
    pub fn preview_i64(&self, values: &[i64]) -> (lines: Vec<String>)
        ensures
            lines@.map_values(|l: String| l@) == preview_lines(
                values@.map_values(|v: i64| signed_decimal(v as int)),
                self.preview_limit() as nat,
            ),
    {
        let ghost texts = values@.map_values(|v: i64| signed_decimal(v as int));
        let shown = if values.len() < self.max_preview_values {
            values.len()
        } else {
            self.max_preview_values
        };
        let mut lines: Vec<String> = Vec::new();
        let mut i: usize = 0;
        while i < shown
            invariant
                i <= shown <= values.len(),
                shown == min_nat(values@.len(), self.preview_limit() as nat),
                texts == values@.map_values(|v: i64| signed_decimal(v as int)),
                lines@.map_values(|l: String| l@) == shown_lines(texts, i as nat),
            decreases shown - i,
        {
            let mut line = String::new();
            push_str(&mut line, "      [");
            push_decimal(&mut line, i as u64);
            push_str(&mut line, "]: ");
            push_signed_decimal(&mut line, values[i]);
            proof {
                assert(line@ == preview_line(i as nat, texts[i as int]));
            }
            let ghost prev = lines@.map_values(|l: String| l@);
            lines.push(line);
            proof {
                assert(lines@.map_values(|l: String| l@) =~= prev.push(
                    preview_line(i as nat, texts[i as int]),
                ));
                assert(shown_lines(texts, (i + 1) as nat) =~= shown_lines(texts, i as nat).push(
                    preview_line(i as nat, texts[i as int]),
                ));
            }
            i = i + 1;
        }
        self.push_more_line(&mut lines, values.len());
        proof {
            assert(lines@.map_values(|l: String| l@) =~= preview_lines(
                texts,
                self.preview_limit() as nat,
            ));
        }
        lines
    }

    /// The preview of `u32` values (dictionary indices), as `preview_i64`.
    pub fn preview_u32(&self, values: &[u32]) -> (lines: Vec<String>)
        ensures
            lines@.map_values(|l: String| l@) == preview_lines(
                values@.map_values(|v: u32| decimal(v as nat)),
                self.preview_limit() as nat,
            ),
    {
        let ghost texts = values@.map_values(|v: u32| decimal(v as nat));
        let shown = if values.len() < self.max_preview_values {
            values.len()
        } else {
            self.max_preview_values
        };
        let mut lines: Vec<String> = Vec::new();
        let mut i: usize = 0;
        while i < shown
            invariant
                i <= shown <= values.len(),
                shown == min_nat(values@.len(), self.preview_limit() as nat),
                texts == values@.map_values(|v: u32| decimal(v as nat)),
                lines@.map_values(|l: String| l@) == shown_lines(texts, i as nat),
            decreases shown - i,
        {
            let mut line = String::new();
            push_str(&mut line, "      [");
            push_decimal(&mut line, i as u64);
            push_str(&mut line, "]: ");
            push_decimal(&mut line, values[i] as u64);
            proof {
                assert(line@ == preview_line(i as nat, texts[i as int]));
            }
            let ghost prev = lines@.map_values(|l: String| l@);
            lines.push(line);
            proof {
                assert(lines@.map_values(|l: String| l@) =~= prev.push(
                    preview_line(i as nat, texts[i as int]),
                ));
                assert(shown_lines(texts, (i + 1) as nat) =~= shown_lines(texts, i as nat).push(
                    preview_line(i as nat, texts[i as int]),
                ));
            }
            i = i + 1;
        }
        self.push_more_line(&mut lines, values.len());
        proof {
            assert(lines@.map_values(|l: String| l@) =~= preview_lines(
                texts,
                self.preview_limit() as nat,
            ));
        }
        lines
    }

    /// Appends the line that counts the values a preview leaves out, if it
    /// leaves out any.
    fn push_more_line(&self, lines: &mut Vec<String>, len: usize)
        ensures
            final(lines)@.map_values(|l: String| l@) == old(lines)@.map_values(|l: String| l@)
                + more_lines(len as nat, self.preview_limit() as nat),
    {
        if len > self.max_preview_values {
            let mut line = String::new();
            push_str(&mut line, "      ... and ");
            push_decimal(&mut line, (len - self.max_preview_values) as u64);
            push_str(&mut line, " more");
            lines.push(line);
        }
        assert(lines@.map_values(|l: String| l@) =~= old(lines)@.map_values(|l: String| l@)
            + more_lines(len as nat, self.preview_limit() as nat));
    }
}

impl Default for DemoPrinter {
    /// A printer that previews five values.
    fn default() -> (p: Self)
        ensures
            p.preview_limit() == 5,
    {
        Self { max_preview_values: 5 }
    }
}

/// A preview line: the value's index and its text.
pub open spec fn preview_line(idx: nat, text: Seq<char>) -> Seq<char> {
    "      ["@ + decimal(idx) + "]: "@ + text
}

/// The lines of the first `n` values.
pub open spec fn shown_lines(texts: Seq<Seq<char>>, n: nat) -> Seq<Seq<char>> {
    Seq::new(n, |i: int| preview_line(i as nat, texts[i]))
}

/// The line counting the values left out of a preview of `len` values, if
/// any are.
pub open spec fn more_lines(len: nat, limit: nat) -> Seq<Seq<char>> {
    if len > limit {
        seq!["      ... and "@ + decimal((len - limit) as nat) + " more"@]
    } else {
        Seq::empty()
    }
}

/// The preview of values with the given texts: the first `limit` of them,
/// then the count of those left out.
pub open spec fn preview_lines(texts: Seq<Seq<char>>, limit: nat) -> Seq<Seq<char>> {
    shown_lines(texts, min_nat(texts.len(), limit)) + more_lines(texts.len(), limit)
}

/// The value of dictionary index `idx`: the dictionary entry, or 0 for an
/// index past its end.
pub open spec fn dictionary_value(dictionary: Seq<i64>, idx: u32) -> i64 {
    if idx < dictionary.len() {
        dictionary[idx as int]
    } else {
        0
    }
}

/// Maps dictionary indices to the dictionary's values; an index past the
/// end of the dictionary maps to 0.
pub fn map_dictionary_indices(indices: &[u32], dictionary: &[i64]) -> (mapped: Vec<i64>)
    ensures
        mapped@ == indices@.map_values(|idx: u32| dictionary_value(dictionary@, idx)),
{
    let mut mapped: Vec<i64> = Vec::new();
    let mut i: usize = 0;
    while i < indices.len()
        invariant
            i <= indices.len(),
            mapped@ == indices@.take(i as int).map_values(
                |idx: u32| dictionary_value(dictionary@, idx),
            ),
        decreases indices.len() - i,
    {
        let idx = indices[i];
        let v = if (idx as usize) < dictionary.len() {
            dictionary[idx as usize]
        } else {
            0
        };
        mapped.push(v);
        i = i + 1;
        assert(mapped@ =~= indices@.take(i as int).map_values(
            |idx: u32| dictionary_value(dictionary@, idx),
        ));
    }
    assert(indices@.take(indices.len() as int) =~= indices@);
    mapped
}

/// Strings joined with `sep` between them.
pub open spec fn joined(parts: Seq<String>, sep: Seq<char>) -> Seq<char>
    decreases parts.len(),
{
    if parts.len() == 0 {
        Seq::empty()
    } else if parts.len() == 1 {
        parts[0]@
    } else {
        joined(parts.drop_last(), sep) + sep + parts.last()@
    }
}

/// The label of a column: its schema path joined with dots, or
/// `<unknown>` for a column without metadata.
pub open spec fn column_label(meta: Option<ColumnMeta>) -> Seq<char> {
    match meta {
        Some(m) => joined(m.path_in_schema@, "."@),
        None => "<unknown>"@,
    }
}

/// Labels a column by its schema path, as the data-page listing shows it.
pub fn column_path_label(meta: &Option<ColumnMeta>) -> (label: String)
    ensures
        label@ == column_label(*meta),
{
    match meta {
        None => "<unknown>".to_string(),
        Some(m) => {
            let parts = &m.path_in_schema;
            let mut label = String::new();
            let mut i: usize = 0;
            while i < parts.len()
                invariant
                    i <= parts.len(),
                    label@ == joined(parts@.take(i as int), "."@),
                decreases parts.len() - i,
            {
                if i > 0 {
                    push_str(&mut label, ".");
                }
                push_str(&mut label, parts[i].as_str());
                proof {
                    let next = parts@.take(i + 1);
                    assert(next.drop_last() =~= parts@.take(i as int));
                }
                i = i + 1;
            }
            assert(parts@.take(parts.len() as int) =~= parts@);
            label
        },
    }
}

/// The key under which Arrow writers keep their schema.
pub open spec fn arrow_schema_key() -> Seq<char> {
    "ARROW:schema"@
}

/// The index of the first entry keyed `key`, from index `i`.
pub open spec fn first_keyed(entries: Seq<(String, Option<String>)>, key: Seq<char>, i: int) -> Option<
    int,
>
    decreases entries.len() - i,
{
    if i < 0 || i >= entries.len() {
        None
    } else if entries[i].0@ == key {
        Some(i)
    } else {
        first_keyed(entries, key, i + 1)
    }
}

/// The value of the first metadata entry keyed `ARROW:schema`, when that
/// entry has a value.
pub open spec fn arrow_schema_text(kv: Option<Vec<(String, Option<String>)>>) -> Option<Seq<char>> {
    match kv {
        None => None,
        Some(entries) => match first_keyed(entries@, arrow_schema_key(), 0) {
            None => None,
            Some(i) => match entries@[i].1 {
                Some(v) => Some(v@),
                None => None,
            },
        },
    }
}

/// Finds the base64 Arrow schema among a file's key-value metadata: the
/// value of the first entry keyed `ARROW:schema`.
pub fn arrow_schema_value(key_value_metadata: &Option<Vec<(String, Option<String>)>>) -> (v: Option<
    String,
>)
    ensures
        v matches Some(s) ==> arrow_schema_text(*key_value_metadata) == Some(s@),
        v is None ==> arrow_schema_text(*key_value_metadata) is None,
{
    match key_value_metadata {
        None => None,
        Some(entries) => {
            let key = "ARROW:schema".to_string();
            let mut i: usize = 0;
            while i < entries.len()
                invariant
                    i <= entries.len(),
                    key@ == arrow_schema_key(),
                    *key_value_metadata == Some(*entries),
                    first_keyed(entries@, key@, i as int) == first_keyed(entries@, key@, 0),
                decreases entries.len() - i,
            {
                if entries[i].0 == key {
                    proof {
                        assert(first_keyed(entries@, key@, i as int) == Some(i as int));
                    }
                    return match &entries[i].1 {
                        Some(value) => Some(value.clone()),
                        None => None,
                    };
                }
                i = i + 1;
            }
            None
        },
    }
}

} // verus!
