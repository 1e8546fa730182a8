//! The error type of the Parquet reader.

use vstd::prelude::*;

verus! {

/// What went wrong while reading or decoding a Parquet file.  Errors raised
/// by the byte source, the Thrift decoder or the JSON encoder are carried as
/// their messages.
#[derive(Debug, Clone)]
pub enum ParquetDemoError {
    Io(String),
    Thrift(String),
    Serde(String),
    ArrowSchema(String),
    InvalidMagic { kind: &'static str, expected: [u8; 4], actual: [u8; 4] },
    InvalidFooterLength(i32),
    MissingColumnMeta { column_idx: usize },
    Decode(String),
    Message(String),
}

/// The message of a read that ran past the end of the input.
pub open spec fn eof_message() -> Seq<char> {
    "failed to fill whole buffer"@
}

/// `String::push_str`: appends the characters of `t` to `s`.
#[verifier::external_body]
pub(crate) fn push_str(s: &mut String, t: &str)
    ensures
        final(s)@ == old(s)@ + t@,
{
    s.push_str(t)
}

/// The error for a read past the end of the input.
pub fn unexpected_eof() -> (e: ParquetDemoError)
    ensures
        e matches ParquetDemoError::Io(m) && m@ == eof_message(),
{
    ParquetDemoError::Io("failed to fill whole buffer".to_string())
}

impl ParquetDemoError {
    /// The human-readable message of this error, as `Display` writes it.
    pub open spec fn message_text(&self) -> Seq<char> {
        match self {
            ParquetDemoError::Io(m) => "I/O error: "@ + m@,
            ParquetDemoError::Thrift(m) => "Thrift error: "@ + m@,
            ParquetDemoError::Serde(m) => "Serde error: "@ + m@,
            ParquetDemoError::ArrowSchema(m) => "Arrow schema error: "@ + m@,
            ParquetDemoError::InvalidMagic { kind, expected, actual } => "Invalid Parquet "@ + kind@
                + " magic: expected "@ + debug_bytes(*expected) + ", found "@ + debug_bytes(
                *actual,
            ),
            ParquetDemoError::InvalidFooterLength(len) => "Invalid footer length: "@
                + signed_decimal(*len as int),
            ParquetDemoError::MissingColumnMeta { column_idx } =>
                "Missing column metadata for column index "@ + decimal(*column_idx as nat),
            ParquetDemoError::Decode(m) => "Decoding error: "@ + m@,
            ParquetDemoError::Message(m) => m@,
        }
    }

    /// The human-readable message of this error.
    pub fn message(&self) -> (s: String)
        ensures
            s@ == self.message_text(),
    {
        let mut s = String::new();
        match self {
            ParquetDemoError::Io(m) => {
                push_str(&mut s, "I/O error: ");
                push_str(&mut s, m.as_str());
            },
            ParquetDemoError::Thrift(m) => {
                push_str(&mut s, "Thrift error: ");
                push_str(&mut s, m.as_str());
            },
            ParquetDemoError::Serde(m) => {
                push_str(&mut s, "Serde error: ");
                push_str(&mut s, m.as_str());
            },
            ParquetDemoError::ArrowSchema(m) => {
                push_str(&mut s, "Arrow schema error: ");
                push_str(&mut s, m.as_str());
            },
            ParquetDemoError::InvalidMagic { kind, expected, actual } => {
                push_str(&mut s, "Invalid Parquet ");
                push_str(&mut s, kind);
                push_str(&mut s, " magic: expected ");
                push_bytes(&mut s, expected);
                push_str(&mut s, ", found ");
                push_bytes(&mut s, actual);
            },
            ParquetDemoError::InvalidFooterLength(len) => {
                push_str(&mut s, "Invalid footer length: ");
                push_signed_decimal(&mut s, *len as i64);
            },
            ParquetDemoError::MissingColumnMeta { column_idx } => {
                push_str(&mut s, "Missing column metadata for column index ");
                push_decimal(&mut s, *column_idx as u64);
            },
            ParquetDemoError::Decode(m) => {
                push_str(&mut s, "Decoding error: ");
                push_str(&mut s, m.as_str());
            },
            ParquetDemoError::Message(m) => {
                push_str(&mut s, m.as_str());
            },
        }
        s
    }
}

/// `String::push`: appends the character `c` to `s`.
#[verifier::external_body]
pub(crate) fn push_char(s: &mut String, c: char)
    ensures
        final(s)@ == old(s)@.push(c),
{
    s.push(c)
}

/// The decimal digit `d` as a character.
pub open spec fn digit_char(d: nat) -> char {
    (48 + d) as char
}

/// The decimal representation of `n`.
pub open spec fn decimal(n: nat) -> Seq<char>
    decreases n,
{
    if n < 10 {
        seq![digit_char(n)]
    } else {
        decimal(n / 10).push(digit_char(n % 10))
    }
}

fn digit(d: u64) -> (c: char)
    requires
        d < 10,
    ensures
        c == digit_char(d as nat),
{
    match d {
        0 => '0',
        1 => '1',
        2 => '2',
        3 => '3',
        4 => '4',
        5 => '5',
        6 => '6',
        7 => '7',
        8 => '8',
        _ => '9',
    }
}

/// Appends the decimal representation of `n`.
pub fn push_decimal(s: &mut String, n: u64)
    ensures
        final(s)@ == old(s)@ + decimal(n as nat),
    decreases n,
{
    if n >= 10 {
        push_decimal(s, n / 10);
    }
    push_char(s, digit(n % 10));
    assert(s@ =~= old(s)@ + decimal(n as nat)) by {
        if n < 10 {
            assert(decimal(n as nat) == seq![digit_char(n as nat)]);
        }
    }
}

/// The decimal representation of `n`, with a minus sign when negative.
pub open spec fn signed_decimal(n: int) -> Seq<char> {
    if n < 0 {
        seq!['-'] + decimal((-n) as nat)
    } else {
        decimal(n as nat)
    }
}

/// Appends the decimal representation of `n`, with a minus sign when
/// negative.
pub fn push_signed_decimal(s: &mut String, n: i64)
    ensures
        final(s)@ == old(s)@ + signed_decimal(n as int),
{
    if n < 0 {
        push_char(s, '-');
        let magnitude: u64 = (0i128 - n as i128) as u64;
        push_decimal(s, magnitude);
        assert(s@ =~= old(s)@ + signed_decimal(n as int));
    } else {
        push_decimal(s, n as u64);
    }
}

/// A byte array as `Debug` prints it: `[a, b, c, d]`.
pub open spec fn debug_bytes(b: [u8; 4]) -> Seq<char> {
    "["@ + decimal(b[0] as nat) + ", "@ + decimal(b[1] as nat) + ", "@ + decimal(b[2] as nat)
        + ", "@ + decimal(b[3] as nat) + "]"@
}

/// Appends a byte array as `Debug` prints it.
fn push_bytes(s: &mut String, bytes: &[u8; 4])
    ensures
        final(s)@ == old(s)@ + debug_bytes(*bytes),
{
    push_str(s, "[");
    push_decimal(s, bytes[0] as u64);
    push_str(s, ", ");
    push_decimal(s, bytes[1] as u64);
    push_str(s, ", ");
    push_decimal(s, bytes[2] as u64);
    push_str(s, ", ");
    push_decimal(s, bytes[3] as u64);
    push_str(s, "]");
    assert(s@ =~= old(s)@ + debug_bytes(*bytes));
}

} // verus!
