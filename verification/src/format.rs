//! The Parquet format enums that the reader's logic reads, with the numbers
//! that the Thrift encoding of the file metadata gives them.

use vstd::prelude::*;

verus! {

/// Physical type of a column.
#[derive(Debug, Clone, Copy, PartialEq, Eq, Structural)]
pub enum PhysicalType {
    Boolean,
    Int32,
    Int64,
    Int96,
    Float,
    Double,
    ByteArray,
    FixedLenByteArray,
}

/// Encoding of the values or levels of a page.
#[derive(Debug, Clone, Copy, PartialEq, Eq, Structural)]
pub enum Encoding {
    Plain,
    PlainDictionary,
    Rle,
    BitPacked,
    DeltaBinaryPacked,
    DeltaLengthByteArray,
    DeltaByteArray,
    RleDictionary,
    ByteStreamSplit,
}

/// Compression codec of the pages of a column chunk.
#[derive(Debug, Clone, Copy, PartialEq, Eq, Structural)]
pub enum PageCodec {
    Uncompressed,
    Snappy,
    Gzip,
    Lzo,
    Brotli,
    Lz4,
    Zstd,
}

/// Repetition of a schema field.
#[derive(Debug, Clone, Copy, PartialEq, Eq, Structural)]
pub enum FieldRepetition {
    Required,
    Optional,
    Repeated,
}

/// Kind of a page.
#[derive(Debug, Clone, Copy, PartialEq, Eq, Structural)]
pub enum PageType {
    DataPage,
    IndexPage,
    DictionaryPage,
    DataPageV2,
}

impl PhysicalType {
    pub open spec fn spec_from_thrift(v: i32) -> Option<PhysicalType> {
        if v == 0 {
            Some(PhysicalType::Boolean)
        } else if v == 1 {
            Some(PhysicalType::Int32)
        } else if v == 2 {
            Some(PhysicalType::Int64)
        } else if v == 3 {
            Some(PhysicalType::Int96)
        } else if v == 4 {
            Some(PhysicalType::Float)
        } else if v == 5 {
            Some(PhysicalType::Double)
        } else if v == 6 {
            Some(PhysicalType::ByteArray)
        } else if v == 7 {
            Some(PhysicalType::FixedLenByteArray)
        } else {
            None
        }
    }

    /// The type with Thrift number `v`, if any.
    pub fn from_thrift(v: i32) -> (r: Option<PhysicalType>)
        ensures
            r == Self::spec_from_thrift(v),
    {
        match v {
            0 => Some(PhysicalType::Boolean),
            1 => Some(PhysicalType::Int32),
            2 => Some(PhysicalType::Int64),
            3 => Some(PhysicalType::Int96),
            4 => Some(PhysicalType::Float),
            5 => Some(PhysicalType::Double),
            6 => Some(PhysicalType::ByteArray),
            7 => Some(PhysicalType::FixedLenByteArray),
            _ => None,
        }
    }

    /// The variant's name.
    pub open spec fn spec_name(&self) -> Seq<char> {
        match self {
            PhysicalType::Boolean => "Boolean"@,
            PhysicalType::Int32 => "Int32"@,
            PhysicalType::Int64 => "Int64"@,
            PhysicalType::Int96 => "Int96"@,
            PhysicalType::Float => "Float"@,
            PhysicalType::Double => "Double"@,
            PhysicalType::ByteArray => "ByteArray"@,
            PhysicalType::FixedLenByteArray => "FixedLenByteArray"@,
        }
    }

    /// The variant's name, as `Debug` prints it.
    pub fn name(&self) -> (s: &'static str)
        ensures
            s@ == self.spec_name(),
    {
        match self {
            PhysicalType::Boolean => "Boolean",
            PhysicalType::Int32 => "Int32",
            PhysicalType::Int64 => "Int64",
            PhysicalType::Int96 => "Int96",
            PhysicalType::Float => "Float",
            PhysicalType::Double => "Double",
            PhysicalType::ByteArray => "ByteArray",
            PhysicalType::FixedLenByteArray => "FixedLenByteArray",
        }
    }
}

impl Encoding {
    pub open spec fn spec_from_thrift(v: i32) -> Option<Encoding> {
        if v == 0 {
            Some(Encoding::Plain)
        } else if v == 2 {
            Some(Encoding::PlainDictionary)
        } else if v == 3 {
            Some(Encoding::Rle)
        } else if v == 4 {
            Some(Encoding::BitPacked)
        } else if v == 5 {
            Some(Encoding::DeltaBinaryPacked)
        } else if v == 6 {
            Some(Encoding::DeltaLengthByteArray)
        } else if v == 7 {
            Some(Encoding::DeltaByteArray)
        } else if v == 8 {
            Some(Encoding::RleDictionary)
        } else if v == 9 {
            Some(Encoding::ByteStreamSplit)
        } else {
            None
        }
    }

    /// The encoding with Thrift number `v`, if any.
    pub fn from_thrift(v: i32) -> (r: Option<Encoding>)
        ensures
            r == Self::spec_from_thrift(v),
    {
        match v {
            0 => Some(Encoding::Plain),
            2 => Some(Encoding::PlainDictionary),
            3 => Some(Encoding::Rle),
            4 => Some(Encoding::BitPacked),
            5 => Some(Encoding::DeltaBinaryPacked),
            6 => Some(Encoding::DeltaLengthByteArray),
            7 => Some(Encoding::DeltaByteArray),
            8 => Some(Encoding::RleDictionary),
            9 => Some(Encoding::ByteStreamSplit),
            _ => None,
        }
    }

    /// The variant's name.
    pub open spec fn spec_name(&self) -> Seq<char> {
        match self {
            Encoding::Plain => "Plain"@,
            Encoding::PlainDictionary => "PlainDictionary"@,
            Encoding::Rle => "Rle"@,
            Encoding::BitPacked => "BitPacked"@,
            Encoding::DeltaBinaryPacked => "DeltaBinaryPacked"@,
            Encoding::DeltaLengthByteArray => "DeltaLengthByteArray"@,
            Encoding::DeltaByteArray => "DeltaByteArray"@,
            Encoding::RleDictionary => "RleDictionary"@,
            Encoding::ByteStreamSplit => "ByteStreamSplit"@,
        }
    }

    /// The variant's name, as `Debug` prints it.
    pub fn name(&self) -> (s: &'static str)
        ensures
            s@ == self.spec_name(),
    {
        match self {
            Encoding::Plain => "Plain",
            Encoding::PlainDictionary => "PlainDictionary",
            Encoding::Rle => "Rle",
            Encoding::BitPacked => "BitPacked",
            Encoding::DeltaBinaryPacked => "DeltaBinaryPacked",
            Encoding::DeltaLengthByteArray => "DeltaLengthByteArray",
            Encoding::DeltaByteArray => "DeltaByteArray",
            Encoding::RleDictionary => "RleDictionary",
            Encoding::ByteStreamSplit => "ByteStreamSplit",
        }
    }
}

impl PageCodec {
    pub open spec fn spec_from_thrift(v: i32) -> Option<PageCodec> {
        if v == 0 {
            Some(PageCodec::Uncompressed)
        } else if v == 1 {
            Some(PageCodec::Snappy)
        } else if v == 2 {
            Some(PageCodec::Gzip)
        } else if v == 3 {
            Some(PageCodec::Lzo)
        } else if v == 4 {
            Some(PageCodec::Brotli)
        } else if v == 5 {
            Some(PageCodec::Lz4)
        } else if v == 6 {
            Some(PageCodec::Zstd)
        } else {
            None
        }
    }

    /// The codec with Thrift number `v`, if any.
    pub fn from_thrift(v: i32) -> (r: Option<PageCodec>)
        ensures
            r == Self::spec_from_thrift(v),
    {
        match v {
            0 => Some(PageCodec::Uncompressed),
            1 => Some(PageCodec::Snappy),
            2 => Some(PageCodec::Gzip),
            3 => Some(PageCodec::Lzo),
            4 => Some(PageCodec::Brotli),
            5 => Some(PageCodec::Lz4),
            6 => Some(PageCodec::Zstd),
            _ => None,
        }
    }

    /// The variant's name.
    pub open spec fn spec_name(&self) -> Seq<char> {
        match self {
            PageCodec::Uncompressed => "Uncompressed"@,
            PageCodec::Snappy => "Snappy"@,
            PageCodec::Gzip => "Gzip"@,
            PageCodec::Lzo => "Lzo"@,
            PageCodec::Brotli => "Brotli"@,
            PageCodec::Lz4 => "Lz4"@,
            PageCodec::Zstd => "Zstd"@,
        }
    }

    /// The variant's name, as `Debug` prints it.
    pub fn name(&self) -> (s: &'static str)
        ensures
            s@ == self.spec_name(),
    {
        match self {
            PageCodec::Uncompressed => "Uncompressed",
            PageCodec::Snappy => "Snappy",
            PageCodec::Gzip => "Gzip",
            PageCodec::Lzo => "Lzo",
            PageCodec::Brotli => "Brotli",
            PageCodec::Lz4 => "Lz4",
            PageCodec::Zstd => "Zstd",
        }
    }
}

impl FieldRepetition {
    pub open spec fn spec_from_thrift(v: i32) -> Option<FieldRepetition> {
        if v == 0 {
            Some(FieldRepetition::Required)
        } else if v == 1 {
            Some(FieldRepetition::Optional)
        } else if v == 2 {
            Some(FieldRepetition::Repeated)
        } else {
            None
        }
    }

    /// The repetition with Thrift number `v`, if any.
    pub fn from_thrift(v: i32) -> (r: Option<FieldRepetition>)
        ensures
            r == Self::spec_from_thrift(v),
    {
        match v {
            0 => Some(FieldRepetition::Required),
            1 => Some(FieldRepetition::Optional),
            2 => Some(FieldRepetition::Repeated),
            _ => None,
        }
    }
}

impl PageType {
    pub open spec fn spec_from_thrift(v: i32) -> Option<PageType> {
        if v == 0 {
            Some(PageType::DataPage)
        } else if v == 1 {
            Some(PageType::IndexPage)
        } else if v == 2 {
            Some(PageType::DictionaryPage)
        } else if v == 3 {
            Some(PageType::DataPageV2)
        } else {
            None
        }
    }

    /// The page type with Thrift number `v`, if any.
    pub fn from_thrift(v: i32) -> (r: Option<PageType>)
        ensures
            r == Self::spec_from_thrift(v),
    {
        match v {
            0 => Some(PageType::DataPage),
            1 => Some(PageType::IndexPage),
            2 => Some(PageType::DictionaryPage),
            3 => Some(PageType::DataPageV2),
            _ => None,
        }
    }
}

} // verus!
