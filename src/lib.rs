//! Reading and writing EBU subtitle interchange files: one General Subtitle
//! Information block of 1024 bytes, then Text and Timing Information blocks of
//! 128 bytes each.

pub mod codepage;
pub mod digits;
pub mod error;
pub mod fields;
pub mod gsi;
pub mod parser;
pub mod tti;

pub use codepage::{CodePageCodec, CodePageNumber};
pub use digits::u8_from_str_with_default_if_blank;
pub use error::{Field, ParseError};
pub use fields::{
    CharacterCodeTable, CumulativeStatus, DiskFormatCode, DisplayStandardCode, TimeCodeStatus,
};
pub use tti::{parse_time, parse_tti_block, Time, TtiBlock};
pub use gsi::{parse_gsi_block, GsiBlock};
pub use parser::{parse_stl_from_slice, Stl};
