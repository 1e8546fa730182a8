//! Locating and decoding the footer of a Parquet file: the `PAR1` magic at
//! both ends, the 4-byte footer length before the trailing magic, and the
//! Thrift-encoded `FileMetaData` before that.

use vstd::prelude::*;
use std::sync::Arc;
use byteorder::ByteOrder;
use parquet_format::FileMetaData;
use crate::decoders::le_value;
use crate::errors::{eof_message, unexpected_eof, ParquetDemoError};
use crate::summary::{
    file_metadata_decoded, file_metadata_summary, metadata_decoder_returns, thrift_read_column_chunks,
    thrift_read_column_meta_facts, thrift_read_file_facts, thrift_read_schema_facts,
    thrift_read_file_metadata, FileSummary, MetadataRead,
};

verus! {

#[verifier::external_type_specification]
#[verifier::external_body]
pub struct ExFileMetaData(FileMetaData);

/// The magic bytes `PAR1` at the start and the end of every Parquet file.
pub const PARQUET_MAGIC: [u8; 4] = [0x50, 0x41, 0x52, 0x31];

pub open spec fn magic() -> Seq<u8> {
    seq![0x50u8, 0x41u8, 0x52u8, 0x31u8]
}

/// Where a read starts: an offset from the start of the file, or from its
/// end.
#[derive(Debug, Clone, Copy)]
pub enum SeekFrom {
    Start(u64),
    End(i64),
}

/// The position that `seek` designates in a file of `len` bytes; none when
/// it lies before the start.
pub open spec fn seek_position(len: nat, seek: SeekFrom) -> Option<int> {
    match seek {
        SeekFrom::Start(n) => Some(n as int),
        SeekFrom::End(k) => if len + k >= 0 {
            Some(len + k)
        } else {
            None
        },
    }
}

/// The message of a seek before the start of the file.
pub open spec fn bad_seek_message() -> Seq<char> {
    "invalid seek to a negative or overflowing position"@
}

/// Whether `e` reports a seek before the start of the file.
pub open spec fn is_bad_seek(e: ParquetDemoError) -> bool {
    e matches ParquetDemoError::Io(m) && m@ == bad_seek_message()
}

/// Whether `e` reports a read past the end of the file.
pub open spec fn is_eof(e: ParquetDemoError) -> bool {
    e matches ParquetDemoError::Io(m) && m@ == eof_message()
}

fn seek_to(len: usize, seek: SeekFrom) -> (r: Result<usize, ParquetDemoError>)
    ensures
        match seek_position(len as nat, seek) {
            Some(p) => if p <= len {
                r matches Ok(q) && q == p
            } else {
                r matches Err(e) && is_eof(e)
            },
            None => r matches Err(e) && is_bad_seek(e),
        },
{
    match seek {
        SeekFrom::Start(n) => {
            if n > len as u64 {
                Err(unexpected_eof())
            } else {
                Ok(n as usize)
            }
        },
        SeekFrom::End(k) => {
            if k < 0 && (len as i128) + (k as i128) < 0 {
                Err(ParquetDemoError::Io("invalid seek to a negative or overflowing position".to_string()))
            } else if k > 0 {
                Err(unexpected_eof())
            } else {
                Ok((len as i128 + k as i128) as usize)
            }
        },
    }
}

/// Reads the four bytes at `seek` and checks that they are the magic.
pub fn validate_magic(file: &[u8], seek_from: SeekFrom, kind: &'static str) -> (r: Result<
    [u8; 4],
    ParquetDemoError,
>)
    ensures
        match seek_position(file.len() as nat, seek_from) {
            None => r matches Err(e) && is_bad_seek(e),
            Some(p) => if p + 4 > file.len() {
                r matches Err(e) && is_eof(e)
            } else if file@.subrange(p, p + 4) == magic() {
                r matches Ok(b) && b@ == magic()
            } else {
                r matches Err(ParquetDemoError::InvalidMagic { kind: k, expected, actual }) && k
                    == kind && expected@ == magic() && actual@ == file@.subrange(p, p + 4)
            },
        },
{
    let p = seek_to(file.len(), seek_from)?;
    if file.len() - p < 4 {
        return Err(unexpected_eof());
    }
    let buffer: [u8; 4] = [file[p], file[p + 1], file[p + 2], file[p + 3]];
    assert(buffer@ =~= file@.subrange(p as int, p + 4));
    if buffer[0] != PARQUET_MAGIC[0] || buffer[1] != PARQUET_MAGIC[1] || buffer[2]
        != PARQUET_MAGIC[2] || buffer[3] != PARQUET_MAGIC[3] {
        assert(buffer@ != magic()) by {
            if buffer@ == magic() {
                assert(buffer@[0] == magic()[0]);
            }
        }
        assert(PARQUET_MAGIC@ =~= magic());
        return Err(
            ParquetDemoError::InvalidMagic { kind, expected: PARQUET_MAGIC, actual: buffer },
        );
    }
    assert(buffer@ =~= magic());
    Ok(buffer)
}

/// The four bytes from `pos` read as a little-endian two's-complement i32.
pub open spec fn le_i32_at(data: Seq<u8>, pos: int) -> i32 {
    le_value(data.subrange(pos, pos + 4)) as i32
}

/// `byteorder`'s `LittleEndian::read_i32`: the first four bytes of `buf`
/// read as a little-endian two's-complement integer.  It panics on fewer
/// than four bytes.
#[verifier::external_body]
fn le_read_i32(buf: &[u8]) -> (v: i32)
    requires
        buf.len() >= 4,
    ensures
        v == le_i32_at(buf@, 0),
{
    byteorder::LittleEndian::read_i32(buf)
}

/// Reads the footer length: the little-endian i32 eight bytes before the
/// end, which must be positive.
pub fn read_footer_length(file: &[u8]) -> (r: Result<i32, ParquetDemoError>)
    ensures
        file.len() < 8 ==> (r matches Err(e) && is_bad_seek(e)),
        file.len() >= 8 ==> {
            let n = le_i32_at(file@, file.len() - 8);
            if n > 0 {
                r matches Ok(m) && m == n
            } else {
                r matches Err(ParquetDemoError::InvalidFooterLength(m)) && m == n
            }
        },
{
    let p = seek_to(file.len(), SeekFrom::End(-8))?;
    let footer_length = le_read_i32(&file[p..p + 4]);
    assert(file@.subrange(p as int, p + 4).subrange(0, 4) =~= file@.subrange(p as int, p + 4));
    if footer_length <= 0 {
        return Err(ParquetDemoError::InvalidFooterLength(footer_length));
    }
    Ok(footer_length)
}

/// The range of the file metadata: the `footer_length` bytes before the
/// footer length and the trailing magic.
pub open spec fn metadata_start(len: nat, footer_length: i32) -> int {
    len - 8 - footer_length
}

/// Reads the `footer_length` bytes of file metadata before the last eight
/// bytes and decodes them with the Thrift compact protocol, with the summary
/// of them that the page reader reads.
pub fn read_file_metadata(file: &[u8], footer_length: i32) -> (r: Result<
    (FileMetaData, FileSummary),
    ParquetDemoError,
>)
    requires
        footer_length > 0,
        metadata_start(file.len() as nat, footer_length) >= 0 ==> metadata_decoder_returns(
            file@.subrange(
                metadata_start(file.len() as nat, footer_length),
                metadata_start(file.len() as nat, footer_length) + footer_length,
            ),
        ),
    ensures
        metadata_start(file.len() as nat, footer_length) < 0 ==> (r matches Err(e) && is_bad_seek(
            e,
        )),
        metadata_start(file.len() as nat, footer_length) >= 0 ==> {
            let s = metadata_start(file.len() as nat, footer_length);
            match file_metadata_summary(file@.subrange(s, s + footer_length)) {
                MetadataRead::Decoded(summary) => r matches Ok((md, t)) && t == summary && md
                    == file_metadata_decoded(file@.subrange(s, s + footer_length)) && t.wf(),
                MetadataRead::Unreadable(m) => r matches Err(ParquetDemoError::Thrift(x)) && x@ == m,
                MetadataRead::Panics => false,
            }
        },
{
    let start = seek_to(file.len(), SeekFrom::End(-8 - footer_length as i64))?;
    let metadata_bytes = &file[start..start + footer_length as usize];
    match thrift_read_file_metadata(metadata_bytes) {
        Ok((metadata, schema, key_value_metadata)) => {
            let row_groups = thrift_read_column_chunks(metadata_bytes);
            let facts = thrift_read_file_facts(metadata_bytes);
            let schema_facts = thrift_read_schema_facts(metadata_bytes);
            let column_meta_facts = thrift_read_column_meta_facts(metadata_bytes);
            Ok(
                (
                    metadata,
                    FileSummary {
                        schema,
                        row_groups,
                        key_value_metadata,
                        facts,
                        schema_facts,
                        column_meta_facts,
                    },
                ),
            )
        },
        Err(msg) => Err(ParquetDemoError::Thrift(msg)),
    }
}

/// What opening a file with the given bytes gives, up to the decoding of
/// its metadata: the check of the header magic, of the footer magic, the
/// footer length, and the position of the metadata.
pub enum FooterCheck {
    /// The metadata lies at `start` and has `len` bytes.
    Located { start: int, len: int },
    BadHeaderMagic,
    BadFooterMagic,
    BadFooterLength(i32),
    /// A seek before the start of the file.
    BadSeek,
    /// A read past the end of the file.
    Eof,
}

pub open spec fn footer_check(data: Seq<u8>) -> FooterCheck {
    if data.len() < 4 {
        FooterCheck::Eof
    } else if data.subrange(0, 4) != magic() {
        FooterCheck::BadHeaderMagic
    } else if data.subrange(data.len() - 4, data.len() as int) != magic() {
        FooterCheck::BadFooterMagic
    } else if data.len() < 8 {
        FooterCheck::BadSeek
    } else if le_i32_at(data, data.len() - 8) <= 0 {
        FooterCheck::BadFooterLength(le_i32_at(data, data.len() - 8))
    } else if metadata_start(data.len(), le_i32_at(data, data.len() - 8)) < 0 {
        FooterCheck::BadSeek
    } else {
        FooterCheck::Located {
            start: metadata_start(data.len(), le_i32_at(data, data.len() - 8)),
            len: le_i32_at(data, data.len() - 8) as int,
        }
    }
}

/// A Parquet file held in memory, with its decoded metadata.
pub struct ParquetFile {
    path: String,
    file: Vec<u8>,
    metadata: Arc<FileMetaData>,
    summary: FileSummary,
}

/// `Arc::clone`: another handle to the same value.
#[verifier::external_body]
fn arc_clone(a: &Arc<FileMetaData>) -> (r: Arc<FileMetaData>)
    ensures
        *r == **a,
{
    Arc::clone(a)
}

impl ParquetFile {
    /// The bytes of the file.
    pub closed spec fn bytes(&self) -> Seq<u8> {
        self.file@
    }

    /// Where the file was read from.
    pub closed spec fn path_view(&self) -> Seq<char> {
        self.path@
    }

    /// The decoded metadata.
    pub closed spec fn metadata_value(&self) -> FileMetaData {
        *self.metadata
    }

    /// The summary of the decoded metadata.
    pub closed spec fn summary_value(&self) -> FileSummary {
        self.summary
    }

    /// Checks the magic at both ends of `file` (the bytes read from `path`),
    /// reads the footer length and decodes the file metadata.
    pub fn open(path: String, file: Vec<u8>) -> (r: Result<ParquetFile, ParquetDemoError>)
        requires
            footer_check(file@) matches FooterCheck::Located { start, len }
                ==> metadata_decoder_returns(file@.subrange(start, start + len)),
        ensures
            match footer_check(file@) {
                FooterCheck::Located { start, len } => match file_metadata_summary(
                    file@.subrange(start, start + len),
                ) {
                        MetadataRead::Decoded(summary) => r matches Ok(f) && f.bytes() == file@
                        && f.path_view() == path@ && f.summary_value() == summary && summary.wf()
                        && f.metadata_value() == file_metadata_decoded(
                        file@.subrange(start, start + len),
                    ),
                    MetadataRead::Unreadable(m) => r matches Err(ParquetDemoError::Thrift(x)) && x@
                        == m,
                    MetadataRead::Panics => false,
                },
                FooterCheck::BadHeaderMagic => r matches Err(
                    ParquetDemoError::InvalidMagic { kind, expected, actual },
                ) && kind@ == "header"@ && expected@ == magic() && actual@ == file@.subrange(0, 4),
                FooterCheck::BadFooterMagic => r matches Err(
                    ParquetDemoError::InvalidMagic { kind, expected, actual },
                ) && kind@ == "footer"@ && expected@ == magic() && actual@ == file@.subrange(
                    file.len() - 4,
                    file.len() as int,
                ),
                FooterCheck::BadFooterLength(n) => r matches Err(
                    ParquetDemoError::InvalidFooterLength(m),
                ) && m == n,
                FooterCheck::BadSeek => r matches Err(e) && is_bad_seek(e),
                FooterCheck::Eof => r matches Err(e) && is_eof(e),
            },
    {
        let _header_magic = validate_magic(file.as_slice(), SeekFrom::Start(0), "header")?;
        let _footer_magic = validate_magic(file.as_slice(), SeekFrom::End(-4), "footer")?;
        let footer_length = read_footer_length(file.as_slice())?;
        let (metadata, summary) = read_file_metadata(file.as_slice(), footer_length)?;
        Ok(ParquetFile { path, file, metadata: Arc::new(metadata), summary })
    }

    pub fn metadata(&self) -> (m: &FileMetaData)
        ensures
            *m == self.metadata_value(),
    {
        &self.metadata
    }

    /// The schema, column chunks and key/value pairs of the metadata, as
    /// plain values.
    pub fn summary(&self) -> (s: &FileSummary)
        ensures
            *s == self.summary_value(),
    {
        &self.summary
    }

    pub fn metadata_arc(&self) -> (m: Arc<FileMetaData>)
        ensures
            *m == self.metadata_value(),
    {
        arc_clone(&self.metadata)
    }

    /// The bytes of the file.
    pub fn file_mut(&mut self) -> (f: &mut Vec<u8>)
        ensures
            f@ == old(self).bytes(),
            final(self).bytes() == final(f)@,
            final(self).path_view() == old(self).path_view(),
            final(self).metadata_value() == old(self).metadata_value(),
            final(self).summary_value() == old(self).summary_value(),
    {
        &mut self.file
    }

    pub fn path(&self) -> (p: &str)
        ensures
            p@ == self.path_view(),
    {
        self.path.as_str()
    }
}

} // verus!
