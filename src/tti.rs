use vstd::prelude::*;

use crate::codepage::{decoded, page_defines_all, trimmed_len, CodePageCodec};
use crate::error::{Field, ParseError};
use crate::fields::{cs_of, CharacterCodeTable, CumulativeStatus};

verus! {

/// A time code, carried as it is written, without range checks.
#[derive(Debug, Clone, Copy, PartialEq, Eq, Structural)]
pub struct Time {
    pub hours: u8,
    pub minutes: u8,
    pub seconds: u8,
    pub frames: u8,
}

/// The time code written in the four bytes of `b` from `off` on.
pub open spec fn time_at(b: Seq<u8>, off: int) -> Time {
    Time { hours: b[off], minutes: b[off + 1], seconds: b[off + 2], frames: b[off + 3] }
}

/// Reads a time code from the first four bytes of `input`.
pub fn parse_time(input: &[u8]) -> (r: Result<Time, ParseError>)
    ensures
        input@.len() < 4 ==> r == Err::<Time, ParseError>(ParseError::Incomplete),
        input@.len() >= 4 ==> r == Ok::<Time, ParseError>(time_at(input@, 0)),
{
    if input.len() < 4 {
        return Err(ParseError::Incomplete);
    }
    Ok(Time { hours: input[0], minutes: input[1], seconds: input[2], frames: input[3] })
}

/// Number of bytes of a Text and Timing Information block.
pub const TTI_BLOCK_LEN: usize = 128;

/// Number of bytes of the text field of a Text and Timing Information block.
pub const TEXT_FIELD_LEN: usize = 112;

/// The byte that fills the unused end of a text field.
pub const UNUSED_SPACE: u8 = 0x8f;

/// One subtitle record.
#[derive(Debug, Clone, PartialEq, Eq)]
pub struct TtiBlock {
    /// Subtitle group number.
    pub sgn: u8,
    /// Subtitle number.
    pub sn: u16,
    /// Extension block number.
    pub ebn: u8,
    /// Cumulative status.
    pub cs: CumulativeStatus,
    /// Time code in.
    pub tci: Time,
    /// Time code out.
    pub tco: Time,
    /// Vertical position.
    pub vp: u8,
    /// Justification code.
    pub jc: u8,
    /// Comment flag.
    pub cf: u8,
    /// The text field, as it was read.
    pub tf: Vec<u8>,
    /// The character code table of the file the block belongs to.
    pub cct: CharacterCodeTable,
}

/// `t` is the block that the 128 bytes of `b` write, in a file of table `cct`.
pub open spec fn tti_read_from(t: TtiBlock, b: Seq<u8>, cct: CharacterCodeTable) -> bool {
    &&& b.len() == TTI_BLOCK_LEN
    &&& t.sgn == b[0]
    &&& t.sn as int == b[1] as int + 256 * b[2] as int
    &&& t.ebn == b[3]
    &&& cs_of(b[4]) == Some(t.cs)
    &&& t.tci == time_at(b, 5)
    &&& t.tco == time_at(b, 9)
    &&& t.vp == b[13]
    &&& t.jc == b[14]
    &&& t.cf == b[15]
    &&& t.tf@ == b.subrange(16, 128)
    &&& t.cct == cct
}

/// `b` is the 128 bytes that write `t`: its fields in order, the subtitle
/// number low byte first, then its text field cut or filled with unused
/// space to 112 bytes.
pub open spec fn tti_written_as(t: TtiBlock, b: Seq<u8>) -> bool {
    &&& b.len() == TTI_BLOCK_LEN
    &&& b[0] == t.sgn
    &&& b[1] as int == t.sn as int % 256
    &&& b[2] as int == t.sn as int / 256
    &&& b[3] == t.ebn
    &&& b[4] == t.cs.spec_byte()
    &&& time_at(b, 5) == t.tci
    &&& time_at(b, 9) == t.tco
    &&& b[13] == t.vp
    &&& b[14] == t.jc
    &&& b[15] == t.cf
    &&& forall|i: int|
        #![trigger b[16 + i]]
        0 <= i < TEXT_FIELD_LEN ==> b[16 + i] == if i < t.tf@.len() {
            t.tf@[i]
        } else {
            UNUSED_SPACE
        }
}

/// The bytes of a block's text: its text field without the spaces and
/// unused space at its end.
pub open spec fn tti_text_bytes(t: TtiBlock) -> Seq<u8> {
    t.tf@.subrange(0, trimmed_len(t.tf@, set![0x20u8, UNUSED_SPACE]) as int)
}

/// What a block's text reads as, through the code page of its table.
pub open spec fn tti_text(t: TtiBlock) -> Seq<char> {
    decoded(t.cct.spec_code_page(), tti_text_bytes(t))
}

/// Reads the block at the start of `input`; `None` where no byte is left,
/// which ends the list of blocks.
pub fn parse_tti_block(input: &[u8], cct: CharacterCodeTable) -> (r: Result<
    Option<TtiBlock>,
    ParseError,
>)
    ensures
        input@.len() == 0 ==> r == Ok::<Option<TtiBlock>, ParseError>(None),
        0 < input@.len() < TTI_BLOCK_LEN ==> r == Err::<Option<TtiBlock>, ParseError>(
            ParseError::Incomplete,
        ),
        input@.len() >= TTI_BLOCK_LEN && cs_of(input@[4]) is None ==> r == Err::<
            Option<TtiBlock>,
            ParseError,
        >(ParseError::CumulativeStatus),
        input@.len() >= TTI_BLOCK_LEN && cs_of(input@[4]) is Some ==> r is Ok && r->Ok_0 is Some
            && tti_read_from(r->Ok_0->Some_0, input@.subrange(0, TTI_BLOCK_LEN as int), cct),
{
    if input.len() == 0 {
        return Ok(None);
    }
    if input.len() < TTI_BLOCK_LEN {
        return Err(ParseError::Incomplete);
    }
    let cs = match CumulativeStatus::parse(input[4]) {
        Ok(c) => c,
        Err(e) => {
            return Err(e);
        },
    };
    let tci = match parse_time(vstd::slice::slice_subrange(input, 5, 9)) {
        Ok(t) => t,
        Err(e) => {
            return Err(e);
        },
    };
    let tco = match parse_time(vstd::slice::slice_subrange(input, 9, 13)) {
        Ok(t) => t,
        Err(e) => {
            return Err(e);
        },
    };
    let tf = vstd::slice::slice_to_vec(vstd::slice::slice_subrange(input, 16, TTI_BLOCK_LEN));
    let sn: u16 = input[1] as u16 + 256 * (input[2] as u16);
    let t = TtiBlock {
        sgn: input[0],
        sn,
        ebn: input[3],
        cs,
        tci,
        tco,
        vp: input[13],
        jc: input[14],
        cf: input[15],
        tf,
        cct,
    };
    assert(t.tf@ =~= input@.subrange(0, TTI_BLOCK_LEN as int).subrange(16, 128));
    Ok(Some(t))
}

impl TtiBlock {
    /// The 128 bytes that write this block.
    pub fn serialize(&self) -> (r: Vec<u8>)
        ensures
            tti_written_as(*self, r@),
    {
        let mut out: Vec<u8> = Vec::new();
        out.push(self.sgn);
        out.push((self.sn % 256) as u8);
        out.push((self.sn / 256) as u8);
        out.push(self.ebn);
        out.push(self.cs.to_byte());
        out.push(self.tci.hours);
        out.push(self.tci.minutes);
        out.push(self.tci.seconds);
        out.push(self.tci.frames);
        out.push(self.tco.hours);
        out.push(self.tco.minutes);
        out.push(self.tco.seconds);
        out.push(self.tco.frames);
        out.push(self.vp);
        out.push(self.jc);
        out.push(self.cf);
        let ghost head = out@;
        let mut i: usize = 0;
        while i < TEXT_FIELD_LEN
            invariant
                i <= TEXT_FIELD_LEN,
                out@.len() == 16 + i,
                out@.subrange(0, 16) == head,
                forall|j: int|
                    #![trigger out@[16 + j]]
                    0 <= j < i ==> out@[16 + j] == if j < self.tf@.len() {
                        self.tf@[j]
                    } else {
                        UNUSED_SPACE
                    },
            decreases TEXT_FIELD_LEN - i,
        {
            let ghost before = out@;
            if i < self.tf.len() {
                out.push(self.tf[i]);
            } else {
                out.push(UNUSED_SPACE);
            }
            assert(out@.subrange(0, 16) =~= before.subrange(0, 16));
            assert(forall|j: int| 0 <= j < i ==> #[trigger] out@[16 + j] == before[16 + j]);
            i = i + 1;
        }
        assert(out@[0] == head[0] && out@[1] == head[1] && out@[2] == head[2] && out@[3] == head[3]
            && out@[4] == head[4]);
        assert(out@[5] == head[5] && out@[6] == head[6] && out@[7] == head[7] && out@[8] == head[8]);
        assert(out@[9] == head[9] && out@[10] == head[10] && out@[11] == head[11] && out@[12]
            == head[12]);
        assert(out@[13] == head[13] && out@[14] == head[14] && out@[15] == head[15]);
        out
    }

    /// The text of the block, read through the code page of its character
    /// code table; fails where that code page leaves one of its bytes
    /// undefined.
    pub fn get_text(&self) -> (r: Result<String, ParseError>)
        ensures
            r is Ok <==> page_defines_all(self.cct.spec_code_page(), tti_text_bytes(*self)),
            r is Ok ==> r->Ok_0@ == tti_text(*self),
            r is Ok ==> forall|i: int|
                0 <= i < r->Ok_0@.len() && self.tf@[i] < 0x80 ==> r->Ok_0@[i] as u32
                    == self.tf@[i] as u32,
            r is Err ==> r == Err::<String, ParseError>(
                ParseError::InvalidField(Field::SubtitleText),
            ),
    {
        let codec = match CodePageCodec::new(self.cct.code_page()) {
            Ok(c) => c,
            Err(e) => {
                return Err(e);
            },
        };
        let pads: [u8; 2] = [0x20, UNUSED_SPACE];
        assert(pads@.to_set() =~= set![0x20u8, UNUSED_SPACE]) by {
            assert(pads@ =~= seq![0x20u8, UNUSED_SPACE]);
            assert(pads@.to_set().contains(pads@[0]));
            assert(pads@.to_set().contains(pads@[1]));
        }
        match codec.decode_trimmed(self.tf.as_slice(), pads.as_slice()) {
            Ok(text) => Ok(text),
            Err(_) => Err(ParseError::InvalidField(Field::SubtitleText)),
        }
    }
}

} // verus!
