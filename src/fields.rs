use vstd::prelude::*;

use crate::error::ParseError;

verus! {

/// The frame rate a file is made for, written as eight ASCII characters.
#[allow(non_camel_case_types)]
#[derive(Debug, Clone, Copy, PartialEq, Eq, Structural)]
pub enum DiskFormatCode {
    STL25_01,
    STL30_01,
}

impl DiskFormatCode {
    /// `STL25.01` or `STL30.01`.
    pub open spec fn spec_bytes(self) -> Seq<u8> {
        match self {
            DiskFormatCode::STL25_01 => seq![0x53u8, 0x54, 0x4c, 0x32, 0x35, 0x2e, 0x30, 0x31],
            DiskFormatCode::STL30_01 => seq![0x53u8, 0x54, 0x4c, 0x33, 0x30, 0x2e, 0x30, 0x31],
        }
    }

    pub fn to_bytes(&self) -> (r: Vec<u8>)
        ensures
            r@ == self.spec_bytes(),
    {
        let r = match self {
            DiskFormatCode::STL25_01 => vec![0x53u8, 0x54, 0x4c, 0x32, 0x35, 0x2e, 0x30, 0x31],
            DiskFormatCode::STL30_01 => vec![0x53u8, 0x54, 0x4c, 0x33, 0x30, 0x2e, 0x30, 0x31],
        };
        assert(r@ =~= self.spec_bytes());
        r
    }

    /// The code that eight bytes write, if they write one.
    pub fn parse(s: &[u8]) -> (r: Option<DiskFormatCode>)
        ensures
            r == dfc_of(s@),
    {
        if s.len() != 8 || s[0] != 0x53 || s[1] != 0x54 || s[2] != 0x4c || s[5] != 0x2e || s[6]
            != 0x30 || s[7] != 0x31 {
            proof {
                if s@.len() == 8 {
                    assert(s@ != DiskFormatCode::STL25_01.spec_bytes() && s@
                        != DiskFormatCode::STL30_01.spec_bytes()) by {
                        assert(DiskFormatCode::STL25_01.spec_bytes()[0] == 0x53);
                    }
                }
            }
            None
        } else if s[3] == 0x32 && s[4] == 0x35 {
            assert(s@ =~= DiskFormatCode::STL25_01.spec_bytes());
            Some(DiskFormatCode::STL25_01)
        } else if s[3] == 0x33 && s[4] == 0x30 {
            assert(s@ =~= DiskFormatCode::STL30_01.spec_bytes());
            Some(DiskFormatCode::STL30_01)
        } else {
            assert(s@ != DiskFormatCode::STL25_01.spec_bytes() && s@
                != DiskFormatCode::STL30_01.spec_bytes()) by {
                if s@ == DiskFormatCode::STL25_01.spec_bytes() {
                    assert(s@[3] == 0x32 && s@[4] == 0x35);
                }
                if s@ == DiskFormatCode::STL30_01.spec_bytes() {
                    assert(s@[3] == 0x33 && s@[4] == 0x30);
                }
            }
            None
        }
    }
}

pub open spec fn dfc_of(s: Seq<u8>) -> Option<DiskFormatCode> {
    if s == DiskFormatCode::STL25_01.spec_bytes() {
        Some(DiskFormatCode::STL25_01)
    } else if s == DiskFormatCode::STL30_01.spec_bytes() {
        Some(DiskFormatCode::STL30_01)
    } else {
        None
    }
}

/// How the subtitles are meant to be shown.
#[derive(Debug, Clone, Copy, PartialEq, Eq, Structural)]
pub enum DisplayStandardCode {
    Blank,
    OpenSubtitling,
    Level1Teletext,
    Level2Teletext,
}

pub open spec fn dsc_of(b: u8) -> Option<DisplayStandardCode> {
    if b == 0x20 {
        Some(DisplayStandardCode::Blank)
    } else if b == 0x30 {
        Some(DisplayStandardCode::OpenSubtitling)
    } else if b == 0x31 {
        Some(DisplayStandardCode::Level1Teletext)
    } else if b == 0x32 {
        Some(DisplayStandardCode::Level2Teletext)
    } else {
        None
    }
}

impl DisplayStandardCode {
    pub open spec fn spec_byte(self) -> u8 {
        match self {
            DisplayStandardCode::Blank => 0x20,
            DisplayStandardCode::OpenSubtitling => 0x30,
            DisplayStandardCode::Level1Teletext => 0x31,
            DisplayStandardCode::Level2Teletext => 0x32,
        }
    }

    pub fn to_byte(&self) -> (r: u8)
        ensures
            r == self.spec_byte(),
            dsc_of(r) == Some(*self),
    {
        match self {
            DisplayStandardCode::Blank => 0x20,
            DisplayStandardCode::OpenSubtitling => 0x30,
            DisplayStandardCode::Level1Teletext => 0x31,
            DisplayStandardCode::Level2Teletext => 0x32,
        }
    }

    pub fn parse(b: u8) -> (r: Result<DisplayStandardCode, ParseError>)
        ensures
            match dsc_of(b) {
                Some(c) => r == Ok::<DisplayStandardCode, ParseError>(c),
                None => r == Err::<DisplayStandardCode, ParseError>(ParseError::DisplayStandardCode),
            },
    {
        if b == 0x20 {
            Ok(DisplayStandardCode::Blank)
        } else if b == 0x30 {
            Ok(DisplayStandardCode::OpenSubtitling)
        } else if b == 0x31 {
            Ok(DisplayStandardCode::Level1Teletext)
        } else if b == 0x32 {
            Ok(DisplayStandardCode::Level2Teletext)
        } else {
            Err(ParseError::DisplayStandardCode)
        }
    }
}

/// Whether the time codes of the file are meant to be used.
#[derive(Debug, Clone, Copy, PartialEq, Eq, Structural)]
pub enum TimeCodeStatus {
    NotIntendedForUse,
    IntendedForUse,
}

pub open spec fn tcs_of(b: u8) -> Option<TimeCodeStatus> {
    if b == 0x30 {
        Some(TimeCodeStatus::NotIntendedForUse)
    } else if b == 0x31 {
        Some(TimeCodeStatus::IntendedForUse)
    } else {
        None
    }
}

impl TimeCodeStatus {
    pub open spec fn spec_byte(self) -> u8 {
        match self {
            TimeCodeStatus::NotIntendedForUse => 0x30,
            TimeCodeStatus::IntendedForUse => 0x31,
        }
    }

    pub fn to_byte(&self) -> (r: u8)
        ensures
            r == self.spec_byte(),
            tcs_of(r) == Some(*self),
    {
        match self {
            TimeCodeStatus::NotIntendedForUse => 0x30,
            TimeCodeStatus::IntendedForUse => 0x31,
        }
    }

    pub fn parse(b: u8) -> (r: Result<TimeCodeStatus, ParseError>)
        ensures
            match tcs_of(b) {
                Some(c) => r == Ok::<TimeCodeStatus, ParseError>(c),
                None => r == Err::<TimeCodeStatus, ParseError>(ParseError::TimeCodeStatus),
            },
    {
        if b == 0x30 {
            Ok(TimeCodeStatus::NotIntendedForUse)
        } else if b == 0x31 {
            Ok(TimeCodeStatus::IntendedForUse)
        } else {
            Err(ParseError::TimeCodeStatus)
        }
    }
}

/// The family of characters that the subtitle texts are written in.
#[derive(Debug, Clone, Copy, PartialEq, Eq, Structural)]
pub enum CharacterCodeTable {
    Latin,
    LatinCyrillic,
    LatinArabic,
    LatinGreek,
    LatinHebrew,
}

/// The table that two bytes name: `0` then a digit from `0` to `4`.
pub open spec fn cct_of(b0: u8, b1: u8) -> Option<CharacterCodeTable> {
    if b0 != 0x30 {
        None
    } else if b1 == 0x30 {
        Some(CharacterCodeTable::Latin)
    } else if b1 == 0x31 {
        Some(CharacterCodeTable::LatinCyrillic)
    } else if b1 == 0x32 {
        Some(CharacterCodeTable::LatinArabic)
    } else if b1 == 0x33 {
        Some(CharacterCodeTable::LatinGreek)
    } else if b1 == 0x34 {
        Some(CharacterCodeTable::LatinHebrew)
    } else {
        None
    }
}

impl CharacterCodeTable {
    /// The second of the two bytes; the first is always `0`.
    pub open spec fn spec_byte(self) -> u8 {
        match self {
            CharacterCodeTable::Latin => 0x30,
            CharacterCodeTable::LatinCyrillic => 0x31,
            CharacterCodeTable::LatinArabic => 0x32,
            CharacterCodeTable::LatinGreek => 0x33,
            CharacterCodeTable::LatinHebrew => 0x34,
        }
    }

    pub fn to_byte(&self) -> (r: u8)
        ensures
            r == self.spec_byte(),
            cct_of(0x30, r) == Some(*self),
    {
        match self {
            CharacterCodeTable::Latin => 0x30,
            CharacterCodeTable::LatinCyrillic => 0x31,
            CharacterCodeTable::LatinArabic => 0x32,
            CharacterCodeTable::LatinGreek => 0x33,
            CharacterCodeTable::LatinHebrew => 0x34,
        }
    }

    pub fn parse(b0: u8, b1: u8) -> (r: Result<CharacterCodeTable, ParseError>)
        ensures
            match cct_of(b0, b1) {
                Some(c) => r == Ok::<CharacterCodeTable, ParseError>(c),
                None => r == Err::<CharacterCodeTable, ParseError>(ParseError::CharacterCodeTable),
            },
    {
        if b0 != 0x30 {
            Err(ParseError::CharacterCodeTable)
        } else if b1 == 0x30 {
            Ok(CharacterCodeTable::Latin)
        } else if b1 == 0x31 {
            Ok(CharacterCodeTable::LatinCyrillic)
        } else if b1 == 0x32 {
            Ok(CharacterCodeTable::LatinArabic)
        } else if b1 == 0x33 {
            Ok(CharacterCodeTable::LatinGreek)
        } else if b1 == 0x34 {
            Ok(CharacterCodeTable::LatinHebrew)
        } else {
            Err(ParseError::CharacterCodeTable)
        }
    }

    pub open spec fn spec_code_page(self) -> u16 {
        match self {
            CharacterCodeTable::Latin => 850,
            CharacterCodeTable::LatinCyrillic => 855,
            CharacterCodeTable::LatinArabic => 864,
            CharacterCodeTable::LatinGreek => 737,
            CharacterCodeTable::LatinHebrew => 862,
        }
    }

    /// The code page through which texts of this table are read.
    pub fn code_page(&self) -> (r: u16)
        ensures
            r == self.spec_code_page(),
    {
        match self {
            CharacterCodeTable::Latin => 850,
            CharacterCodeTable::LatinCyrillic => 855,
            CharacterCodeTable::LatinArabic => 864,
            CharacterCodeTable::LatinGreek => 737,
            CharacterCodeTable::LatinHebrew => 862,
        }
    }
}

/// How a subtitle relates to the ones next to it.
#[derive(Debug, Clone, Copy, PartialEq, Eq, Structural)]
pub enum CumulativeStatus {
    NotPartOfASet,
    First,
    Intermediate,
    Last,
}

pub open spec fn cs_of(b: u8) -> Option<CumulativeStatus> {
    if b == 0 {
        Some(CumulativeStatus::NotPartOfASet)
    } else if b == 1 {
        Some(CumulativeStatus::First)
    } else if b == 2 {
        Some(CumulativeStatus::Intermediate)
    } else if b == 3 {
        Some(CumulativeStatus::Last)
    } else {
        None
    }
}

impl CumulativeStatus {
    pub open spec fn spec_byte(self) -> u8 {
        match self {
            CumulativeStatus::NotPartOfASet => 0,
            CumulativeStatus::First => 1,
            CumulativeStatus::Intermediate => 2,
            CumulativeStatus::Last => 3,
        }
    }

    pub fn to_byte(&self) -> (r: u8)
        ensures
            r == self.spec_byte(),
            cs_of(r) == Some(*self),
    {
        match self {
            CumulativeStatus::NotPartOfASet => 0,
            CumulativeStatus::First => 1,
            CumulativeStatus::Intermediate => 2,
            CumulativeStatus::Last => 3,
        }
    }

    pub fn parse(b: u8) -> (r: Result<CumulativeStatus, ParseError>)
        ensures
            match cs_of(b) {
                Some(c) => r == Ok::<CumulativeStatus, ParseError>(c),
                None => r == Err::<CumulativeStatus, ParseError>(ParseError::CumulativeStatus),
            },
    {
        if b == 0 {
            Ok(CumulativeStatus::NotPartOfASet)
        } else if b == 1 {
            Ok(CumulativeStatus::First)
        } else if b == 2 {
            Ok(CumulativeStatus::Intermediate)
        } else if b == 3 {
            Ok(CumulativeStatus::Last)
        } else {
            Err(ParseError::CumulativeStatus)
        }
    }
}

} // verus!
