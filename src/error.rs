use vstd::prelude::*;

verus! {

/// What the code page library reports when text cannot be converted.
#[verifier::external_type_specification]
#[verifier::external_body]
pub struct ExConvertError(codepage_strings::ConvertError);

/// A field whose bytes can fail to read: the numeric fields of the General
/// Subtitle Information block, and the text field of a subtitle record.
#[derive(Debug, Clone, Copy, PartialEq, Eq, Structural)]
pub enum Field {
    CodePage,
    TotalTtiBlocks,
    TotalSubtitles,
    TotalSubtitleGroups,
    MaxCharacters,
    MaxRows,
    TotalDisks,
    DiskSequenceNumber,
    SubtitleText,
}

impl Field {
    /// The short label under which the field is known.
    pub fn label(&self) -> &'static str {
        match self {
            Field::CodePage => "codepage",
            Field::TotalTtiBlocks => "tnb",
            Field::TotalSubtitles => "tns",
            Field::TotalSubtitleGroups => "tng",
            Field::MaxCharacters => "mnc",
            Field::MaxRows => "mnr",
            Field::TotalDisks => "tnd",
            Field::DiskSequenceNumber => "dsn",
            Field::SubtitleText => "tf",
        }
    }
}

/// Why a file could not be read or written.
#[derive(Debug, PartialEq, Eq)]
pub enum ParseError {
    /// Fewer bytes are left than the next block needs.
    Incomplete,
    /// The code page number is not one this library knows.
    CodePageNumber(u16),
    DisplayStandardCode,
    TimeCodeStatus,
    /// The disk format code, as text, is not a known one.
    DiskFormatCode(String),
    CharacterCodeTable,
    CumulativeStatus,
    /// A field does not hold what it should: a numeric field holds no
    /// digits, or a text field holds a byte its code page leaves undefined.
    InvalidField(Field),
    /// A text field holds a byte that its code page leaves undefined.
    CodePageDecoding(u16),
    /// A text holds a character that the code page cannot represent.
    CodePageEncoding { codepage: u16, value: String, source: codepage_strings::ConvertError },
}

/// `e` is an encoding failure for `text` under code page `cp`.
pub open spec fn is_encoding_error(e: ParseError, cp: u16, text: Seq<char>) -> bool {
    match e {
        ParseError::CodePageEncoding { codepage, value, .. } => codepage == cp && value@ == text,
        _ => false,
    }
}

} // verus!
