use vstd::prelude::*;

use crate::codepage::{
    ascii_kept, cpn_of, field_text, is_table_page, lemma_trimmed_len, page_char, representable, trimmed_len, CodePageCodec,
    CodePageNumber,
};
use crate::digits::{
    count_of, digits_of, lemma_digits_round_trip, number_of, parse_number, put_number, all_digits,
    digits_value, is_digit,
};
use crate::error::{is_encoding_error, Field, ParseError};
use crate::fields::{
    cct_of, dfc_of, dsc_of, tcs_of, CharacterCodeTable, DiskFormatCode, DisplayStandardCode,
    TimeCodeStatus,
};

verus! {

/// Number of bytes of the General Subtitle Information block.
pub const GSI_BLOCK_LEN: usize = 1024;

/// The header of a file.
#[derive(Debug, Clone, PartialEq, Eq)]
pub struct GsiBlock {
    /// Code page number.
    pub cpn: CodePageNumber,
    /// Disk format code.
    pub dfc: DiskFormatCode,
    /// Display standard code.
    pub dsc: DisplayStandardCode,
    /// Character code table.
    pub cct: CharacterCodeTable,
    /// Language code.
    pub lc: String,
    /// Original programme title.
    pub opt: String,
    /// Original episode title.
    pub oet: String,
    /// Translated programme title.
    pub tpt: String,
    /// Translated episode title.
    pub tet: String,
    /// Translator's name.
    pub tn: String,
    /// Translator's contact details.
    pub tcd: String,
    /// Subtitle list reference code.
    pub slr: String,
    /// Creation date.
    pub cd: String,
    /// Revision date.
    pub rd: String,
    /// Revision number.
    pub rn: String,
    /// Total number of Text and Timing Information blocks.
    pub tnb: u16,
    /// Total number of subtitles.
    pub tns: u16,
    /// Total number of subtitle groups.
    pub tng: u16,
    /// Maximum number of displayable characters in a row.
    pub mnc: u16,
    /// Maximum number of displayable rows.
    pub mnr: u16,
    /// Time code status.
    pub tcs: TimeCodeStatus,
    /// Time code: start of programme.
    pub tcp: String,
    /// Time code: first in-cue.
    pub tcf: String,
    /// Total number of disks; a blank reads as 1.
    pub tnd: u8,
    /// The count above was left blank, and is written back blank.
    pub tnd_blank: bool,
    /// Disk sequence number; a blank reads as 1.
    pub dsn: u8,
    /// The count above was left blank, and is written back blank.
    pub dsn_blank: bool,
    /// Country of origin.
    pub co: String,
    /// Publisher.
    pub pub_: String,
    /// Editor's name.
    pub en: String,
    /// Editor's contact details.
    pub ecd: String,
    /// Spare bytes, kept as text.
    pub spare: String,
    /// User-defined area.
    pub uda: String,
}

/// The bytes of `s` from `off` on are those of `p`.
pub open spec fn bytes_at(s: Seq<u8>, off: int, p: Seq<u8>) -> bool {
    forall|j: int| #![trigger s[j]] off <= j < off + p.len() ==> s[j] == p[j - off]
}

/// The `w` bytes of `s` from `off` on write `text` in code page `cp`, as
/// `is_text_encoding` says.
pub open spec fn text_at(cp: u16, text: Seq<char>, s: Seq<u8>, off: int, w: int) -> bool {
    forall|j: int|
        #![trigger s[j]]
        off <= j < off + w ==> if j - off < text.len() {
            forall|x: u8| #[trigger] page_char(cp, x) == text[j - off] <==> x == s[j]
        } else {
            s[j] == 0x20
        }
}

/// The text fields of `g`, in the order they are written.
pub open spec fn gsi_texts(g: GsiBlock) -> Seq<Seq<char>> {
    seq![g.lc@, g.opt@, g.oet@, g.tpt@, g.tet@, g.tn@, g.tcd@, g.slr@, g.cd@, g.rd@, g.rn@, g.tcp@, g.tcf@, g.co@, g.pub_@, g.en@, g.ecd@, g.spare@, g.uda@]
}

/// The code page of `b`, as its first three bytes write it.
pub open spec fn gsi_page(b: Seq<u8>) -> u16 {
    digits_value(b.subrange(0, 3)) as u16
}

/// `b` holds a General Subtitle Information block that can be read.
pub open spec fn gsi_valid(b: Seq<u8>) -> bool {
    &&& b.len() >= GSI_BLOCK_LEN
    &&& number_of(b.subrange(0, 3)) is Some
    &&& cpn_of(gsi_page(b)) is Some
    &&& dfc_of(b.subrange(3, 11)) is Some
    &&& dsc_of(b[11]) is Some
    &&& cct_of(b[12], b[13]) is Some
    &&& number_of(b.subrange(238, 243)) is Some
    &&& number_of(b.subrange(243, 248)) is Some
    &&& number_of(b.subrange(248, 251)) is Some
    &&& number_of(b.subrange(251, 253)) is Some
    &&& number_of(b.subrange(253, 255)) is Some
    &&& tcs_of(b[255]) is Some
    &&& count_of(b[272], 1) is Some
    &&& count_of(b[273], 1) is Some
}

/// `e` is the error for the first field of `b` that cannot be read.
pub open spec fn gsi_error(b: Seq<u8>, e: ParseError) -> bool {
    if b.len() < GSI_BLOCK_LEN {
        e == ParseError::Incomplete
    } else if number_of(b.subrange(0, 3)) is None {
        e == ParseError::InvalidField(Field::CodePage)
    } else if cpn_of(gsi_page(b)) is None {
        e == ParseError::CodePageNumber(gsi_page(b))
    } else if dfc_of(b.subrange(3, 11)) is None {
        e is DiskFormatCode && e->DiskFormatCode_0@ == field_text(gsi_page(b), b.subrange(3, 11))
    } else if dsc_of(b[11]) is None {
        e == ParseError::DisplayStandardCode
    } else if cct_of(b[12], b[13]) is None {
        e == ParseError::CharacterCodeTable
    } else if number_of(b.subrange(238, 243)) is None {
        e == ParseError::InvalidField(Field::TotalTtiBlocks)
    } else if number_of(b.subrange(243, 248)) is None {
        e == ParseError::InvalidField(Field::TotalSubtitles)
    } else if number_of(b.subrange(248, 251)) is None {
        e == ParseError::InvalidField(Field::TotalSubtitleGroups)
    } else if number_of(b.subrange(251, 253)) is None {
        e == ParseError::InvalidField(Field::MaxCharacters)
    } else if number_of(b.subrange(253, 255)) is None {
        e == ParseError::InvalidField(Field::MaxRows)
    } else if tcs_of(b[255]) is None {
        e == ParseError::TimeCodeStatus
    } else if count_of(b[272], 1) is None {
        e == ParseError::InvalidField(Field::TotalDisks)
    } else {
        e == ParseError::InvalidField(Field::DiskSequenceNumber)
    }
}

/// `g` is the block that the first 1024 bytes of `b` write.
pub open spec fn gsi_read_from(g: GsiBlock, b: Seq<u8>) -> bool {
    let cp = g.cpn.spec_value();
    &&& number_of(b.subrange(0, 3)) == Some(cp)
    &&& dfc_of(b.subrange(3, 11)) == Some(g.dfc)
    &&& dsc_of(b[11]) == Some(g.dsc)
    &&& cct_of(b[12], b[13]) == Some(g.cct)
    &&& g.lc@ == field_text(cp, b.subrange(14, 16))
    &&& ascii_kept(g.lc@, b.subrange(14, 16))
    &&& g.opt@ == field_text(cp, b.subrange(16, 48))
    &&& ascii_kept(g.opt@, b.subrange(16, 48))
    &&& g.oet@ == field_text(cp, b.subrange(48, 80))
    &&& ascii_kept(g.oet@, b.subrange(48, 80))
    &&& g.tpt@ == field_text(cp, b.subrange(80, 112))
    &&& ascii_kept(g.tpt@, b.subrange(80, 112))
    &&& g.tet@ == field_text(cp, b.subrange(112, 144))
    &&& ascii_kept(g.tet@, b.subrange(112, 144))
    &&& g.tn@ == field_text(cp, b.subrange(144, 176))
    &&& ascii_kept(g.tn@, b.subrange(144, 176))
    &&& g.tcd@ == field_text(cp, b.subrange(176, 208))
    &&& ascii_kept(g.tcd@, b.subrange(176, 208))
    &&& g.slr@ == field_text(cp, b.subrange(208, 224))
    &&& ascii_kept(g.slr@, b.subrange(208, 224))
    &&& g.cd@ == field_text(cp, b.subrange(224, 230))
    &&& ascii_kept(g.cd@, b.subrange(224, 230))
    &&& g.rd@ == field_text(cp, b.subrange(230, 236))
    &&& ascii_kept(g.rd@, b.subrange(230, 236))
    &&& g.rn@ == field_text(cp, b.subrange(236, 238))
    &&& ascii_kept(g.rn@, b.subrange(236, 238))
    &&& number_of(b.subrange(238, 243)) == Some(g.tnb)
    &&& number_of(b.subrange(243, 248)) == Some(g.tns)
    &&& number_of(b.subrange(248, 251)) == Some(g.tng)
    &&& number_of(b.subrange(251, 253)) == Some(g.mnc)
    &&& number_of(b.subrange(253, 255)) == Some(g.mnr)
    &&& tcs_of(b[255]) == Some(g.tcs)
    &&& g.tcp@ == field_text(cp, b.subrange(256, 264))
    &&& ascii_kept(g.tcp@, b.subrange(256, 264))
    &&& g.tcf@ == field_text(cp, b.subrange(264, 272))
    &&& ascii_kept(g.tcf@, b.subrange(264, 272))
    &&& count_of(b[272], 1) == Some(g.tnd)
    &&& g.tnd_blank == (b[272] == 0x20)
    &&& count_of(b[273], 1) == Some(g.dsn)
    &&& g.dsn_blank == (b[273] == 0x20)
    &&& g.co@ == field_text(cp, b.subrange(274, 277))
    &&& ascii_kept(g.co@, b.subrange(274, 277))
    &&& g.pub_@ == field_text(cp, b.subrange(277, 309))
    &&& ascii_kept(g.pub_@, b.subrange(277, 309))
    &&& g.en@ == field_text(cp, b.subrange(309, 341))
    &&& ascii_kept(g.en@, b.subrange(309, 341))
    &&& g.ecd@ == field_text(cp, b.subrange(341, 373))
    &&& ascii_kept(g.ecd@, b.subrange(341, 373))
    &&& g.spare@ == field_text(cp, b.subrange(373, 448))
    &&& ascii_kept(g.spare@, b.subrange(373, 448))
    &&& g.uda@ == field_text(cp, b.subrange(448, 1024))
    &&& ascii_kept(g.uda@, b.subrange(448, 1024))
}

/// `p` writes the code page, disk format, display standard and character code table of `g`, from byte 0 of the block on.
pub open spec fn head_written(g: GsiBlock, p: Seq<u8>) -> bool {
    let cp = g.cpn.spec_value();
    &&& p.len() == 14
    &&& bytes_at(p, 0, digits_of(cp as nat, 3))
    &&& bytes_at(p, 3, g.dfc.spec_bytes())
    &&& p[11] == g.dsc.spec_byte()
    &&& p[12] == 0x30
    &&& p[13] == g.cct.spec_byte()
}

/// `p` writes the language code, the titles and the translator of `g`, from byte 14 of the block on.
pub open spec fn titles_written(g: GsiBlock, p: Seq<u8>) -> bool {
    let cp = g.cpn.spec_value();
    &&& p.len() == 194
    &&& text_at(cp, g.lc@, p, 0, 2)
    &&& text_at(cp, g.opt@, p, 2, 32)
    &&& text_at(cp, g.oet@, p, 34, 32)
    &&& text_at(cp, g.tpt@, p, 66, 32)
    &&& text_at(cp, g.tet@, p, 98, 32)
    &&& text_at(cp, g.tn@, p, 130, 32)
    &&& text_at(cp, g.tcd@, p, 162, 32)
}

/// `p` writes the list reference, the dates and the revision number of `g`, from byte 208 of the block on.
pub open spec fn references_written(g: GsiBlock, p: Seq<u8>) -> bool {
    let cp = g.cpn.spec_value();
    &&& p.len() == 30
    &&& text_at(cp, g.slr@, p, 0, 16)
    &&& text_at(cp, g.cd@, p, 16, 6)
    &&& text_at(cp, g.rd@, p, 22, 6)
    &&& text_at(cp, g.rn@, p, 28, 2)
}

/// `p` writes the totals, the maxima and the time code status of `g`, from byte 238 of the block on.
pub open spec fn counts_written(g: GsiBlock, p: Seq<u8>) -> bool {
    let cp = g.cpn.spec_value();
    &&& p.len() == 18
    &&& bytes_at(p, 0, digits_of(g.tnb as nat, 5))
    &&& bytes_at(p, 5, digits_of(g.tns as nat, 5))
    &&& bytes_at(p, 10, digits_of(g.tng as nat, 3))
    &&& bytes_at(p, 13, digits_of(g.mnc as nat, 2))
    &&& bytes_at(p, 15, digits_of(g.mnr as nat, 2))
    &&& p[17] == g.tcs.spec_byte()
}

/// `p` writes the time codes and the disk counts of `g`, from byte 256 of the block on.
pub open spec fn cues_written(g: GsiBlock, p: Seq<u8>) -> bool {
    let cp = g.cpn.spec_value();
    &&& p.len() == 18
    &&& text_at(cp, g.tcp@, p, 0, 8)
    &&& text_at(cp, g.tcf@, p, 8, 8)
    &&& if g.tnd_blank { p[16] == 0x20 } else { bytes_at(p, 16, digits_of(g.tnd as nat, 1)) }
    &&& if g.dsn_blank { p[17] == 0x20 } else { bytes_at(p, 17, digits_of(g.dsn as nat, 1)) }
}

/// `p` writes the country, the publisher, the editor, the spare bytes and the user area of `g`, from byte 274 of the block on.
pub open spec fn tail_written(g: GsiBlock, p: Seq<u8>) -> bool {
    let cp = g.cpn.spec_value();
    &&& p.len() == 750
    &&& text_at(cp, g.co@, p, 0, 3)
    &&& text_at(cp, g.pub_@, p, 3, 32)
    &&& text_at(cp, g.en@, p, 35, 32)
    &&& text_at(cp, g.ecd@, p, 67, 32)
    &&& text_at(cp, g.spare@, p, 99, 75)
    &&& text_at(cp, g.uda@, p, 174, 576)
}

/// `b` is the 1024 bytes that write `g`: numbers as decimal digits, codes
/// as their bytes, texts in the block's code page padded with spaces.
pub open spec fn gsi_written_as(g: GsiBlock, b: Seq<u8>) -> bool {
    &&& b.len() == GSI_BLOCK_LEN
    &&& head_written(g, b.subrange(0, 14))
    &&& titles_written(g, b.subrange(14, 208))
    &&& references_written(g, b.subrange(208, 238))
    &&& counts_written(g, b.subrange(238, 256))
    &&& cues_written(g, b.subrange(256, 274))
    &&& tail_written(g, b.subrange(274, 1024))
}

/// Appends `text` as a field of `w` bytes in the codec's code page.
fn put_text(out: &mut Vec<u8>, codec: &CodePageCodec, text: &String, w: usize) -> (r: Result<
    (),
    ParseError,
>)
    requires
        is_table_page(codec.page()),
    ensures
        r is Ok <==> representable(codec.page(), text@),
        r is Ok ==> final(out)@.len() == old(out)@.len() + w,
        r is Ok ==> forall|j: int| 0 <= j < old(out)@.len() ==> #[trigger] final(out)@[j] == old(out)@[j],
        r is Ok ==> text_at(codec.page(), text@, final(out)@, old(out)@.len() as int, w as int),
        r is Err ==> is_encoding_error(r->Err_0, codec.page(), text@),
{
    match codec.encode(text.as_str(), w) {
        Ok(v) => {
            let ghost o = out@;
            let mut v = v;
            let ghost vv = v@;
            out.append(&mut v);
            assert(forall|j: int| 0 <= j < vv.len() ==> #[trigger] out@[o.len() + j] == vv[j]);
            Ok(())
        },
        Err(e) => Err(e),
    }
}

/// Appends the bytes of `p`.
fn put_bytes(out: &mut Vec<u8>, p: Vec<u8>)
    ensures
        final(out)@ == old(out)@ + p@,
{
    let mut p = p;
    out.append(&mut p);
}

/// Reads the General Subtitle Information block at the start of `input`.
pub fn parse_gsi_block(input: &[u8]) -> (r: Result<GsiBlock, ParseError>)
    ensures
        r is Ok <==> gsi_valid(input@),
        r is Ok ==> gsi_read_from(r->Ok_0, input@),
        r is Err ==> gsi_error(input@, r->Err_0),
{
    if input.len() < GSI_BLOCK_LEN {
        return Err(ParseError::Incomplete);
    }
    let cp = match parse_number(vstd::slice::slice_subrange(input, 0, 3)) {
        Some(v) => v,
        None => {
            return Err(ParseError::InvalidField(Field::CodePage));
        },
    };
    proof {
        lemma_number_value(input@.subrange(0, 3));
    }
    let cpn = match CodePageNumber::from_u16(cp) {
        Ok(c) => c,
        Err(e) => {
            return Err(e);
        },
    };
    let codec = match CodePageCodec::new(cp) {
        Ok(c) => c,
        Err(e) => {
            return Err(e);
        },
    };
    let dfc = match DiskFormatCode::parse(vstd::slice::slice_subrange(input, 3, 11)) {
        Some(d) => d,
        None => {
            return match codec.decode(vstd::slice::slice_subrange(input, 3, 11)) {
                Ok(t) => Err(ParseError::DiskFormatCode(t)),
                Err(e) => Err(e),
            };
        },
    };
    let dsc = match DisplayStandardCode::parse(input[11]) {
        Ok(d) => d,
        Err(e) => {
            return Err(e);
        },
    };
    let cct = match CharacterCodeTable::parse(input[12], input[13]) {
        Ok(c) => c,
        Err(e) => {
            return Err(e);
        },
    };
    let lc = match codec.decode(vstd::slice::slice_subrange(input, 14, 16)) {
        Ok(t) => t,
        Err(e) => {
            return Err(e);
        },
    };
    let opt = match codec.decode(vstd::slice::slice_subrange(input, 16, 48)) {
        Ok(t) => t,
        Err(e) => {
            return Err(e);
        },
    };
    let oet = match codec.decode(vstd::slice::slice_subrange(input, 48, 80)) {
        Ok(t) => t,
        Err(e) => {
            return Err(e);
        },
    };
    let tpt = match codec.decode(vstd::slice::slice_subrange(input, 80, 112)) {
        Ok(t) => t,
        Err(e) => {
            return Err(e);
        },
    };
    let tet = match codec.decode(vstd::slice::slice_subrange(input, 112, 144)) {
        Ok(t) => t,
        Err(e) => {
            return Err(e);
        },
    };
    let tn = match codec.decode(vstd::slice::slice_subrange(input, 144, 176)) {
        Ok(t) => t,
        Err(e) => {
            return Err(e);
        },
    };
    let tcd = match codec.decode(vstd::slice::slice_subrange(input, 176, 208)) {
        Ok(t) => t,
        Err(e) => {
            return Err(e);
        },
    };
    let slr = match codec.decode(vstd::slice::slice_subrange(input, 208, 224)) {
        Ok(t) => t,
        Err(e) => {
            return Err(e);
        },
    };
    let cd = match codec.decode(vstd::slice::slice_subrange(input, 224, 230)) {
        Ok(t) => t,
        Err(e) => {
            return Err(e);
        },
    };
    let rd = match codec.decode(vstd::slice::slice_subrange(input, 230, 236)) {
        Ok(t) => t,
        Err(e) => {
            return Err(e);
        },
    };
    let rn = match codec.decode(vstd::slice::slice_subrange(input, 236, 238)) {
        Ok(t) => t,
        Err(e) => {
            return Err(e);
        },
    };
    let tnb = match parse_number(vstd::slice::slice_subrange(input, 238, 243)) {
        Some(v) => v,
        None => {
            return Err(ParseError::InvalidField(Field::TotalTtiBlocks));
        },
    };
    let tns = match parse_number(vstd::slice::slice_subrange(input, 243, 248)) {
        Some(v) => v,
        None => {
            return Err(ParseError::InvalidField(Field::TotalSubtitles));
        },
    };
    let tng = match parse_number(vstd::slice::slice_subrange(input, 248, 251)) {
        Some(v) => v,
        None => {
            return Err(ParseError::InvalidField(Field::TotalSubtitleGroups));
        },
    };
    let mnc = match parse_number(vstd::slice::slice_subrange(input, 251, 253)) {
        Some(v) => v,
        None => {
            return Err(ParseError::InvalidField(Field::MaxCharacters));
        },
    };
    let mnr = match parse_number(vstd::slice::slice_subrange(input, 253, 255)) {
        Some(v) => v,
        None => {
            return Err(ParseError::InvalidField(Field::MaxRows));
        },
    };
    let tcs = match TimeCodeStatus::parse(input[255]) {
        Ok(t) => t,
        Err(e) => {
            return Err(e);
        },
    };
    let tcp = match codec.decode(vstd::slice::slice_subrange(input, 256, 264)) {
        Ok(t) => t,
        Err(e) => {
            return Err(e);
        },
    };
    let tcf = match codec.decode(vstd::slice::slice_subrange(input, 264, 272)) {
        Ok(t) => t,
        Err(e) => {
            return Err(e);
        },
    };
    let tnd = match count_from_byte(input[272], 1) {
        Some(v) => v,
        None => {
            return Err(ParseError::InvalidField(Field::TotalDisks));
        },
    };
    let dsn = match count_from_byte(input[273], 1) {
        Some(v) => v,
        None => {
            return Err(ParseError::InvalidField(Field::DiskSequenceNumber));
        },
    };
    let co = match codec.decode(vstd::slice::slice_subrange(input, 274, 277)) {
        Ok(t) => t,
        Err(e) => {
            return Err(e);
        },
    };
    let pub_ = match codec.decode(vstd::slice::slice_subrange(input, 277, 309)) {
        Ok(t) => t,
        Err(e) => {
            return Err(e);
        },
    };
    let en = match codec.decode(vstd::slice::slice_subrange(input, 309, 341)) {
        Ok(t) => t,
        Err(e) => {
            return Err(e);
        },
    };
    let ecd = match codec.decode(vstd::slice::slice_subrange(input, 341, 373)) {
        Ok(t) => t,
        Err(e) => {
            return Err(e);
        },
    };
    let spare = match codec.decode(vstd::slice::slice_subrange(input, 373, 448)) {
        Ok(t) => t,
        Err(e) => {
            return Err(e);
        },
    };
    let uda = match codec.decode(vstd::slice::slice_subrange(input, 448, 1024)) {
        Ok(t) => t,
        Err(e) => {
            return Err(e);
        },
    };
    Ok(GsiBlock {
        cpn,
        dfc,
        dsc,
        cct,
        lc,
        opt,
        oet,
        tpt,
        tet,
        tn,
        tcd,
        slr,
        cd,
        rd,
        rn,
        tnb,
        tns,
        tng,
        mnc,
        mnr,
        tcs,
        tcp,
        tcf,
        tnd,
        tnd_blank: input[272] == 0x20,
        dsn,
        dsn_blank: input[273] == 0x20,
        co,
        pub_,
        en,
        ecd,
        spare,
        uda,
    })
}

/// Reads a one-byte count, `default` where the byte is a space.
fn count_from_byte(b: u8, default: u8) -> (r: Option<u8>)
    ensures
        r == count_of(b, default),
{
    if b == 0x20 {
        Some(default)
    } else if 0x30 <= b && b <= 0x39 {
        Some(b - 0x30)
    } else {
        None
    }
}

proof fn lemma_number_value(s: Seq<u8>)
    requires
        number_of(s) is Some,
    ensures
        digits_value(s) == number_of(s)->Some_0 as nat,
{
}

impl GsiBlock {
    /// Every text of the block can be written in its code page.
    pub open spec fn serialize_succeeds(self) -> bool {
        forall|k: int|
            0 <= k < gsi_texts(self).len() ==> representable(
                self.cpn.spec_value(),
                #[trigger] gsi_texts(self)[k],
            )
    }

    /// `e` reports the first text of the block that its code page cannot
    /// represent.
    pub open spec fn serialize_error(self, e: ParseError) -> bool {
        exists|k: int|
            0 <= k < gsi_texts(self).len() && !representable(
                self.cpn.spec_value(),
                #[trigger] gsi_texts(self)[k],
            ) && is_encoding_error(e, self.cpn.spec_value(), gsi_texts(self)[k]) && forall|m: int|
                0 <= m < k ==> representable(self.cpn.spec_value(), #[trigger] gsi_texts(self)[m])
    }

    /// The code page that the block's texts are written in.
    pub fn get_code_page_number(&self) -> (r: CodePageNumber)
        ensures
            r == self.cpn,
    {
        self.cpn
    }

    /// The 1024 bytes that write this block; fails on the first text that
    /// the block's code page cannot represent.
    pub fn serialize(&self) -> (r: Result<Vec<u8>, ParseError>)
        ensures
            r is Ok <==> self.serialize_succeeds(),
            r is Ok ==> gsi_written_as(*self, r->Ok_0@),
            r is Ok ==> r->Ok_0@.len() == GSI_BLOCK_LEN,
            r is Err ==> self.serialize_error(r->Err_0),
    {
        let cp = self.cpn.value();
        let codec = match CodePageCodec::new(cp) {
            Ok(c) => c,
            Err(e) => {
                return Err(e);
            },
        };
        let mut out: Vec<u8> = Vec::new();
        let ghost texts = gsi_texts(*self);
        let p = match self.write_head(&codec) {
            Ok(p) => p,
            Err(e) => {
                return Err(e);
            },
        };
        let ghost o = out@;
        let ghost pv = p@;
        put_bytes(&mut out, p);
        assert(out@.subrange(0, 14) =~= pv);
        let p = match self.write_titles(&codec) {
            Ok(p) => p,
            Err(e) => {
                return Err(e);
            },
        };
        let ghost o = out@;
        let ghost pv = p@;
        put_bytes(&mut out, p);
        assert(out@.subrange(14, 208) =~= pv);
        assert(out@.subrange(0, 14) =~= o.subrange(0, 14));
        let p = match self.write_references(&codec) {
            Ok(p) => p,
            Err(e) => {
                return Err(e);
            },
        };
        let ghost o = out@;
        let ghost pv = p@;
        put_bytes(&mut out, p);
        assert(out@.subrange(208, 238) =~= pv);
        assert(out@.subrange(0, 14) =~= o.subrange(0, 14));
        assert(out@.subrange(14, 208) =~= o.subrange(14, 208));
        let p = match self.write_counts(&codec) {
            Ok(p) => p,
            Err(e) => {
                return Err(e);
            },
        };
        let ghost o = out@;
        let ghost pv = p@;
        put_bytes(&mut out, p);
        assert(out@.subrange(238, 256) =~= pv);
        assert(out@.subrange(0, 14) =~= o.subrange(0, 14));
        assert(out@.subrange(14, 208) =~= o.subrange(14, 208));
        assert(out@.subrange(208, 238) =~= o.subrange(208, 238));
        let p = match self.write_cues(&codec) {
            Ok(p) => p,
            Err(e) => {
                return Err(e);
            },
        };
        let ghost o = out@;
        let ghost pv = p@;
        put_bytes(&mut out, p);
        assert(out@.subrange(256, 274) =~= pv);
        assert(out@.subrange(0, 14) =~= o.subrange(0, 14));
        assert(out@.subrange(14, 208) =~= o.subrange(14, 208));
        assert(out@.subrange(208, 238) =~= o.subrange(208, 238));
        assert(out@.subrange(238, 256) =~= o.subrange(238, 256));
        let p = match self.write_tail(&codec) {
            Ok(p) => p,
            Err(e) => {
                return Err(e);
            },
        };
        let ghost o = out@;
        let ghost pv = p@;
        put_bytes(&mut out, p);
        assert(out@.subrange(274, 1024) =~= pv);
        assert(out@.subrange(0, 14) =~= o.subrange(0, 14));
        assert(out@.subrange(14, 208) =~= o.subrange(14, 208));
        assert(out@.subrange(208, 238) =~= o.subrange(208, 238));
        assert(out@.subrange(238, 256) =~= o.subrange(238, 256));
        assert(out@.subrange(256, 274) =~= o.subrange(256, 274));
        assert(forall|k: int| 0 <= k < texts.len() ==> representable(cp, #[trigger] texts[k])) by {
            assert(texts =~= seq![self.lc@, self.opt@, self.oet@, self.tpt@, self.tet@, self.tn@, self.tcd@, self.slr@, self.cd@, self.rd@, self.rn@, self.tcp@, self.tcf@, self.co@, self.pub_@, self.en@, self.ecd@, self.spare@, self.uda@]);
        }
        Ok(out)
    }

    /// Writes the code page, disk format, display standard and character code table.
    #[verifier::rlimit(40)]
    fn write_head(&self, codec: &CodePageCodec) -> (r: Result<Vec<u8>, ParseError>)
        requires
            codec.page() == self.cpn.spec_value(),
        ensures
            r is Ok ==> head_written(*self, r->Ok_0@),
            r is Ok ==> forall|m: int|
                0 <= m < 0 ==> representable(self.cpn.spec_value(), #[trigger] gsi_texts(*self)[m]),
            r is Err ==> exists|k: int|
                0 <= k < 0 && !representable(
                    self.cpn.spec_value(),
                    #[trigger] gsi_texts(*self)[k],
                ) && is_encoding_error(r->Err_0, self.cpn.spec_value(), gsi_texts(*self)[k])
                    && forall|m: int|
                    0 <= m < k ==> representable(self.cpn.spec_value(), #[trigger] gsi_texts(*self)[m]),
    {
        let ghost texts = gsi_texts(*self);
        let mut out: Vec<u8> = Vec::new();
        put_number(&mut out, self.cpn.value(), 3);
        put_bytes(&mut out, self.dfc.to_bytes());
        out.push(self.dsc.to_byte());
        out.push(0x30);
        out.push(self.cct.to_byte());
        assert forall|m: int| 0 <= m < 0 implies representable(codec.page(), #[trigger] texts[m]) by {
            assert(false);
        }
        Ok(out)
    }

    /// Writes the language code, the titles and the translator.
    #[verifier::rlimit(40)]
    fn write_titles(&self, codec: &CodePageCodec) -> (r: Result<Vec<u8>, ParseError>)
        requires
            codec.page() == self.cpn.spec_value(),
        ensures
            r is Ok ==> titles_written(*self, r->Ok_0@),
            r is Ok ==> forall|m: int|
                0 <= m < 7 ==> representable(self.cpn.spec_value(), #[trigger] gsi_texts(*self)[m]),
            r is Err ==> exists|k: int|
                0 <= k < 7 && !representable(
                    self.cpn.spec_value(),
                    #[trigger] gsi_texts(*self)[k],
                ) && is_encoding_error(r->Err_0, self.cpn.spec_value(), gsi_texts(*self)[k])
                    && forall|m: int|
                    0 <= m < k ==> representable(self.cpn.spec_value(), #[trigger] gsi_texts(*self)[m]),
    {
        let ghost texts = gsi_texts(*self);
        let mut out: Vec<u8> = Vec::new();
        match put_text(&mut out, codec, &self.lc, 2) {
            Ok(()) => {},
            Err(e) => {
                assert(texts[0] == self.lc@);
                assert forall|m: int| 0 <= m < 0 implies representable(codec.page(), #[trigger] texts[m]) by {
                    assert(false);
                }
                return Err(e);
            },
        }
        assert(texts[0] == self.lc@);
        match put_text(&mut out, codec, &self.opt, 32) {
            Ok(()) => {},
            Err(e) => {
                assert(texts[1] == self.opt@);
                assert forall|m: int| 0 <= m < 1 implies representable(codec.page(), #[trigger] texts[m]) by {
                    assert(m == 0);
                }
                return Err(e);
            },
        }
        assert(texts[1] == self.opt@);
        match put_text(&mut out, codec, &self.oet, 32) {
            Ok(()) => {},
            Err(e) => {
                assert(texts[2] == self.oet@);
                assert forall|m: int| 0 <= m < 2 implies representable(codec.page(), #[trigger] texts[m]) by {
                    assert(m == 0 || m == 1);
                }
                return Err(e);
            },
        }
        assert(texts[2] == self.oet@);
        match put_text(&mut out, codec, &self.tpt, 32) {
            Ok(()) => {},
            Err(e) => {
                assert(texts[3] == self.tpt@);
                assert forall|m: int| 0 <= m < 3 implies representable(codec.page(), #[trigger] texts[m]) by {
                    assert(m == 0 || m == 1 || m == 2);
                }
                return Err(e);
            },
        }
        assert(texts[3] == self.tpt@);
        match put_text(&mut out, codec, &self.tet, 32) {
            Ok(()) => {},
            Err(e) => {
                assert(texts[4] == self.tet@);
                assert forall|m: int| 0 <= m < 4 implies representable(codec.page(), #[trigger] texts[m]) by {
                    assert(m == 0 || m == 1 || m == 2 || m == 3);
                }
                return Err(e);
            },
        }
        assert(texts[4] == self.tet@);
        match put_text(&mut out, codec, &self.tn, 32) {
            Ok(()) => {},
            Err(e) => {
                assert(texts[5] == self.tn@);
                assert forall|m: int| 0 <= m < 5 implies representable(codec.page(), #[trigger] texts[m]) by {
                    assert(m == 0 || m == 1 || m == 2 || m == 3 || m == 4);
                }
                return Err(e);
            },
        }
        assert(texts[5] == self.tn@);
        match put_text(&mut out, codec, &self.tcd, 32) {
            Ok(()) => {},
            Err(e) => {
                assert(texts[6] == self.tcd@);
                assert forall|m: int| 0 <= m < 6 implies representable(codec.page(), #[trigger] texts[m]) by {
                    assert(m == 0 || m == 1 || m == 2 || m == 3 || m == 4 || m == 5);
                }
                return Err(e);
            },
        }
        assert(texts[6] == self.tcd@);
        assert forall|m: int| 0 <= m < 7 implies representable(codec.page(), #[trigger] texts[m]) by {
            assert(m == 0 || m == 1 || m == 2 || m == 3 || m == 4 || m == 5 || m == 6);
        }
        Ok(out)
    }

    /// Writes the list reference, the dates and the revision number.
    #[verifier::rlimit(40)]
    fn write_references(&self, codec: &CodePageCodec) -> (r: Result<Vec<u8>, ParseError>)
        requires
            codec.page() == self.cpn.spec_value(),
        ensures
            r is Ok ==> references_written(*self, r->Ok_0@),
            r is Ok ==> forall|m: int|
                7 <= m < 11 ==> representable(self.cpn.spec_value(), #[trigger] gsi_texts(*self)[m]),
            r is Err ==> exists|k: int|
                7 <= k < 11 && !representable(
                    self.cpn.spec_value(),
                    #[trigger] gsi_texts(*self)[k],
                ) && is_encoding_error(r->Err_0, self.cpn.spec_value(), gsi_texts(*self)[k])
                    && forall|m: int|
                    7 <= m < k ==> representable(self.cpn.spec_value(), #[trigger] gsi_texts(*self)[m]),
    {
        let ghost texts = gsi_texts(*self);
        let mut out: Vec<u8> = Vec::new();
        match put_text(&mut out, codec, &self.slr, 16) {
            Ok(()) => {},
            Err(e) => {
                assert(texts[7] == self.slr@);
                assert forall|m: int| 7 <= m < 7 implies representable(codec.page(), #[trigger] texts[m]) by {
                    assert(false);
                }
                return Err(e);
            },
        }
        assert(texts[7] == self.slr@);
        match put_text(&mut out, codec, &self.cd, 6) {
            Ok(()) => {},
            Err(e) => {
                assert(texts[8] == self.cd@);
                assert forall|m: int| 7 <= m < 8 implies representable(codec.page(), #[trigger] texts[m]) by {
                    assert(m == 7);
                }
                return Err(e);
            },
        }
        assert(texts[8] == self.cd@);
        match put_text(&mut out, codec, &self.rd, 6) {
            Ok(()) => {},
            Err(e) => {
                assert(texts[9] == self.rd@);
                assert forall|m: int| 7 <= m < 9 implies representable(codec.page(), #[trigger] texts[m]) by {
                    assert(m == 7 || m == 8);
                }
                return Err(e);
            },
        }
        assert(texts[9] == self.rd@);
        match put_text(&mut out, codec, &self.rn, 2) {
            Ok(()) => {},
            Err(e) => {
                assert(texts[10] == self.rn@);
                assert forall|m: int| 7 <= m < 10 implies representable(codec.page(), #[trigger] texts[m]) by {
                    assert(m == 7 || m == 8 || m == 9);
                }
                return Err(e);
            },
        }
        assert(texts[10] == self.rn@);
        assert forall|m: int| 7 <= m < 11 implies representable(codec.page(), #[trigger] texts[m]) by {
            assert(m == 7 || m == 8 || m == 9 || m == 10);
        }
        Ok(out)
    }

    /// Writes the totals, the maxima and the time code status.
    #[verifier::rlimit(40)]
    fn write_counts(&self, codec: &CodePageCodec) -> (r: Result<Vec<u8>, ParseError>)
        requires
            codec.page() == self.cpn.spec_value(),
        ensures
            r is Ok ==> counts_written(*self, r->Ok_0@),
            r is Ok ==> forall|m: int|
                11 <= m < 11 ==> representable(self.cpn.spec_value(), #[trigger] gsi_texts(*self)[m]),
            r is Err ==> exists|k: int|
                11 <= k < 11 && !representable(
                    self.cpn.spec_value(),
                    #[trigger] gsi_texts(*self)[k],
                ) && is_encoding_error(r->Err_0, self.cpn.spec_value(), gsi_texts(*self)[k])
                    && forall|m: int|
                    11 <= m < k ==> representable(self.cpn.spec_value(), #[trigger] gsi_texts(*self)[m]),
    {
        let ghost texts = gsi_texts(*self);
        let mut out: Vec<u8> = Vec::new();
        put_number(&mut out, self.tnb, 5);
        put_number(&mut out, self.tns, 5);
        put_number(&mut out, self.tng, 3);
        put_number(&mut out, self.mnc, 2);
        put_number(&mut out, self.mnr, 2);
        out.push(self.tcs.to_byte());
        assert forall|m: int| 11 <= m < 11 implies representable(codec.page(), #[trigger] texts[m]) by {
            assert(false);
        }
        Ok(out)
    }

    /// Writes the time codes and the disk counts.
    #[verifier::rlimit(40)]
    fn write_cues(&self, codec: &CodePageCodec) -> (r: Result<Vec<u8>, ParseError>)
        requires
            codec.page() == self.cpn.spec_value(),
        ensures
            r is Ok ==> cues_written(*self, r->Ok_0@),
            r is Ok ==> forall|m: int|
                11 <= m < 13 ==> representable(self.cpn.spec_value(), #[trigger] gsi_texts(*self)[m]),
            r is Err ==> exists|k: int|
                11 <= k < 13 && !representable(
                    self.cpn.spec_value(),
                    #[trigger] gsi_texts(*self)[k],
                ) && is_encoding_error(r->Err_0, self.cpn.spec_value(), gsi_texts(*self)[k])
                    && forall|m: int|
                    11 <= m < k ==> representable(self.cpn.spec_value(), #[trigger] gsi_texts(*self)[m]),
    {
        let ghost texts = gsi_texts(*self);
        let mut out: Vec<u8> = Vec::new();
        match put_text(&mut out, codec, &self.tcp, 8) {
            Ok(()) => {},
            Err(e) => {
                assert(texts[11] == self.tcp@);
                assert forall|m: int| 11 <= m < 11 implies representable(codec.page(), #[trigger] texts[m]) by {
                    assert(false);
                }
                return Err(e);
            },
        }
        assert(texts[11] == self.tcp@);
        match put_text(&mut out, codec, &self.tcf, 8) {
            Ok(()) => {},
            Err(e) => {
                assert(texts[12] == self.tcf@);
                assert forall|m: int| 11 <= m < 12 implies representable(codec.page(), #[trigger] texts[m]) by {
                    assert(m == 11);
                }
                return Err(e);
            },
        }
        assert(texts[12] == self.tcf@);
        if self.tnd_blank {
            out.push(0x20);
        } else {
            put_number(&mut out, self.tnd as u16, 1);
        }
        if self.dsn_blank {
            out.push(0x20);
        } else {
            put_number(&mut out, self.dsn as u16, 1);
        }
        assert forall|m: int| 11 <= m < 13 implies representable(codec.page(), #[trigger] texts[m]) by {
            assert(m == 11 || m == 12);
        }
        Ok(out)
    }

    /// Writes the country, the publisher, the editor, the spare bytes and the user area.
    #[verifier::rlimit(40)]
    fn write_tail(&self, codec: &CodePageCodec) -> (r: Result<Vec<u8>, ParseError>)
        requires
            codec.page() == self.cpn.spec_value(),
        ensures
            r is Ok ==> tail_written(*self, r->Ok_0@),
            r is Ok ==> forall|m: int|
                13 <= m < 19 ==> representable(self.cpn.spec_value(), #[trigger] gsi_texts(*self)[m]),
            r is Err ==> exists|k: int|
                13 <= k < 19 && !representable(
                    self.cpn.spec_value(),
                    #[trigger] gsi_texts(*self)[k],
                ) && is_encoding_error(r->Err_0, self.cpn.spec_value(), gsi_texts(*self)[k])
                    && forall|m: int|
                    13 <= m < k ==> representable(self.cpn.spec_value(), #[trigger] gsi_texts(*self)[m]),
    {
        let ghost texts = gsi_texts(*self);
        let mut out: Vec<u8> = Vec::new();
        match put_text(&mut out, codec, &self.co, 3) {
            Ok(()) => {},
            Err(e) => {
                assert(texts[13] == self.co@);
                assert forall|m: int| 13 <= m < 13 implies representable(codec.page(), #[trigger] texts[m]) by {
                    assert(false);
                }
                return Err(e);
            },
        }
        assert(texts[13] == self.co@);
        match put_text(&mut out, codec, &self.pub_, 32) {
            Ok(()) => {},
            Err(e) => {
                assert(texts[14] == self.pub_@);
                assert forall|m: int| 13 <= m < 14 implies representable(codec.page(), #[trigger] texts[m]) by {
                    assert(m == 13);
                }
                return Err(e);
            },
        }
        assert(texts[14] == self.pub_@);
        match put_text(&mut out, codec, &self.en, 32) {
            Ok(()) => {},
            Err(e) => {
                assert(texts[15] == self.en@);
                assert forall|m: int| 13 <= m < 15 implies representable(codec.page(), #[trigger] texts[m]) by {
                    assert(m == 13 || m == 14);
                }
                return Err(e);
            },
        }
        assert(texts[15] == self.en@);
        match put_text(&mut out, codec, &self.ecd, 32) {
            Ok(()) => {},
            Err(e) => {
                assert(texts[16] == self.ecd@);
                assert forall|m: int| 13 <= m < 16 implies representable(codec.page(), #[trigger] texts[m]) by {
                    assert(m == 13 || m == 14 || m == 15);
                }
                return Err(e);
            },
        }
        assert(texts[16] == self.ecd@);
        match put_text(&mut out, codec, &self.spare, 75) {
            Ok(()) => {},
            Err(e) => {
                assert(texts[17] == self.spare@);
                assert forall|m: int| 13 <= m < 17 implies representable(codec.page(), #[trigger] texts[m]) by {
                    assert(m == 13 || m == 14 || m == 15 || m == 16);
                }
                return Err(e);
            },
        }
        assert(texts[17] == self.spare@);
        match put_text(&mut out, codec, &self.uda, 576) {
            Ok(()) => {},
            Err(e) => {
                assert(texts[18] == self.uda@);
                assert forall|m: int| 13 <= m < 18 implies representable(codec.page(), #[trigger] texts[m]) by {
                    assert(m == 13 || m == 14 || m == 15 || m == 16 || m == 17);
                }
                return Err(e);
            },
        }
        assert(texts[18] == self.uda@);
        assert forall|m: int| 13 <= m < 19 implies representable(codec.page(), #[trigger] texts[m]) by {
            assert(m == 13 || m == 14 || m == 15 || m == 16 || m == 17 || m == 18);
        }
        Ok(out)
    }

}

proof fn lemma_text_round_trip(cp: u16, b: Seq<u8>, out: Seq<u8>, off: int, w: int)
    requires
        0 <= off,
        0 <= w,
        off + w <= b.len(),
        text_at(cp, field_text(cp, b.subrange(off, off + w)), out, off, w),
    ensures
        forall|j: int| off <= j < off + w ==> #[trigger] out[j] == b[j],
{
    let f = b.subrange(off, off + w);
    lemma_trimmed_len(f, set![0x20u8]);
    let k = trimmed_len(f, set![0x20u8]) as int;
    let text = field_text(cp, f);
    assert forall|j: int| off <= j < off + w implies #[trigger] out[j] == b[j] by {
        assert(f[j - off] == b[j]);
        if j - off < k {
            assert(text[j - off] == page_char(cp, b[j]));
            assert(page_char(cp, b[j]) == text[j - off]);
        } else {
            assert(set![0x20u8].contains(f[j - off]));
        }
    }
}

proof fn lemma_number_round_trip(b: Seq<u8>, out: Seq<u8>, off: int, w: int, v: nat)
    requires
        0 <= off,
        0 <= w,
        off + w <= b.len(),
        all_digits(b.subrange(off, off + w)),
        digits_value(b.subrange(off, off + w)) == v,
        bytes_at(out, off, digits_of(v, w as nat)),
    ensures
        forall|j: int| off <= j < off + w ==> #[trigger] out[j] == b[j],
{
    let f = b.subrange(off, off + w);
    lemma_digits_round_trip(f);
    assert forall|j: int| off <= j < off + w implies #[trigger] out[j] == b[j] by {
        assert(f[j - off] == b[j]);
    }
}


proof fn lemma_head_round_trip(b: Seq<u8>, g: GsiBlock, out: Seq<u8>)
    requires
        gsi_valid(b),
        gsi_read_from(g, b),
        gsi_written_as(g, out),
    ensures
        forall|j: int| 0 <= j < 14 ==> #[trigger] out[j] == b[j],
{
    let cp = g.cpn.spec_value();
    let bb = b.subrange(0, 14);
    let pp = out.subrange(0, 14);
    assert(head_written(g, pp));
    assert(bb.subrange(0, 3) =~= b.subrange(0, 3));
    lemma_number_value(b.subrange(0, 3));
    lemma_number_round_trip(bb, pp, 0, 3, cp as nat);
    assert(bb.subrange(3, 11) =~= b.subrange(3, 11));
    assert forall|j: int| 3 <= j < 11 implies #[trigger] pp[j] == bb[j] by {
        assert(b.subrange(3, 11)[j - 3] == bb[j]);
    }
    assert(bb.subrange(11, 12) =~= b.subrange(11, 12));
    assert(bb[11] == g.dsc.spec_byte());
    assert(bb.subrange(12, 14) =~= b.subrange(12, 14));
    assert(bb[12] == 0x30 && bb[13] == g.cct.spec_byte());
    assert forall|j: int| 0 <= j < 14 implies #[trigger] out[j] == b[j] by {
        assert(pp[j - 0] == out[j] && bb[j - 0] == b[j]);
    }
}

proof fn lemma_titles_round_trip(b: Seq<u8>, g: GsiBlock, out: Seq<u8>)
    requires
        gsi_valid(b),
        gsi_read_from(g, b),
        gsi_written_as(g, out),
    ensures
        forall|j: int| 14 <= j < 208 ==> #[trigger] out[j] == b[j],
{
    let cp = g.cpn.spec_value();
    let bb = b.subrange(14, 208);
    let pp = out.subrange(14, 208);
    assert(titles_written(g, pp));
    assert(bb.subrange(0, 2) =~= b.subrange(14, 16));
    lemma_text_round_trip(cp, bb, pp, 0, 2);
    assert(bb.subrange(2, 34) =~= b.subrange(16, 48));
    lemma_text_round_trip(cp, bb, pp, 2, 32);
    assert(bb.subrange(34, 66) =~= b.subrange(48, 80));
    lemma_text_round_trip(cp, bb, pp, 34, 32);
    assert(bb.subrange(66, 98) =~= b.subrange(80, 112));
    lemma_text_round_trip(cp, bb, pp, 66, 32);
    assert(bb.subrange(98, 130) =~= b.subrange(112, 144));
    lemma_text_round_trip(cp, bb, pp, 98, 32);
    assert(bb.subrange(130, 162) =~= b.subrange(144, 176));
    lemma_text_round_trip(cp, bb, pp, 130, 32);
    assert(bb.subrange(162, 194) =~= b.subrange(176, 208));
    lemma_text_round_trip(cp, bb, pp, 162, 32);
    assert forall|j: int| 14 <= j < 208 implies #[trigger] out[j] == b[j] by {
        assert(pp[j - 14] == out[j] && bb[j - 14] == b[j]);
    }
}

proof fn lemma_references_round_trip(b: Seq<u8>, g: GsiBlock, out: Seq<u8>)
    requires
        gsi_valid(b),
        gsi_read_from(g, b),
        gsi_written_as(g, out),
    ensures
        forall|j: int| 208 <= j < 238 ==> #[trigger] out[j] == b[j],
{
    let cp = g.cpn.spec_value();
    let bb = b.subrange(208, 238);
    let pp = out.subrange(208, 238);
    assert(references_written(g, pp));
    assert(bb.subrange(0, 16) =~= b.subrange(208, 224));
    lemma_text_round_trip(cp, bb, pp, 0, 16);
    assert(bb.subrange(16, 22) =~= b.subrange(224, 230));
    lemma_text_round_trip(cp, bb, pp, 16, 6);
    assert(bb.subrange(22, 28) =~= b.subrange(230, 236));
    lemma_text_round_trip(cp, bb, pp, 22, 6);
    assert(bb.subrange(28, 30) =~= b.subrange(236, 238));
    lemma_text_round_trip(cp, bb, pp, 28, 2);
    assert forall|j: int| 208 <= j < 238 implies #[trigger] out[j] == b[j] by {
        assert(pp[j - 208] == out[j] && bb[j - 208] == b[j]);
    }
}

proof fn lemma_counts_round_trip(b: Seq<u8>, g: GsiBlock, out: Seq<u8>)
    requires
        gsi_valid(b),
        gsi_read_from(g, b),
        gsi_written_as(g, out),
    ensures
        forall|j: int| 238 <= j < 256 ==> #[trigger] out[j] == b[j],
{
    let cp = g.cpn.spec_value();
    let bb = b.subrange(238, 256);
    let pp = out.subrange(238, 256);
    assert(counts_written(g, pp));
    assert(bb.subrange(0, 5) =~= b.subrange(238, 243));
    lemma_number_value(b.subrange(238, 243));
    lemma_number_round_trip(bb, pp, 0, 5, g.tnb as nat);
    assert(bb.subrange(5, 10) =~= b.subrange(243, 248));
    lemma_number_value(b.subrange(243, 248));
    lemma_number_round_trip(bb, pp, 5, 5, g.tns as nat);
    assert(bb.subrange(10, 13) =~= b.subrange(248, 251));
    lemma_number_value(b.subrange(248, 251));
    lemma_number_round_trip(bb, pp, 10, 3, g.tng as nat);
    assert(bb.subrange(13, 15) =~= b.subrange(251, 253));
    lemma_number_value(b.subrange(251, 253));
    lemma_number_round_trip(bb, pp, 13, 2, g.mnc as nat);
    assert(bb.subrange(15, 17) =~= b.subrange(253, 255));
    lemma_number_value(b.subrange(253, 255));
    lemma_number_round_trip(bb, pp, 15, 2, g.mnr as nat);
    assert(bb.subrange(17, 18) =~= b.subrange(255, 256));
    assert(bb[17] == g.tcs.spec_byte());
    assert forall|j: int| 238 <= j < 256 implies #[trigger] out[j] == b[j] by {
        assert(pp[j - 238] == out[j] && bb[j - 238] == b[j]);
    }
}

proof fn lemma_cues_round_trip(b: Seq<u8>, g: GsiBlock, out: Seq<u8>)
    requires
        gsi_valid(b),
        gsi_read_from(g, b),
        gsi_written_as(g, out),
    ensures
        forall|j: int| 256 <= j < 274 ==> #[trigger] out[j] == b[j],
{
    let cp = g.cpn.spec_value();
    let bb = b.subrange(256, 274);
    let pp = out.subrange(256, 274);
    assert(cues_written(g, pp));
    assert(bb.subrange(0, 8) =~= b.subrange(256, 264));
    lemma_text_round_trip(cp, bb, pp, 0, 8);
    assert(bb.subrange(8, 16) =~= b.subrange(264, 272));
    lemma_text_round_trip(cp, bb, pp, 8, 8);
    assert(bb.subrange(16, 17) =~= b.subrange(272, 273));
    if b[272] != 0x20 {
        assert(is_digit(b[272]) && g.tnd as int == b[272] - 0x30);
        assert(b.subrange(272, 273)[0] == b[272]);
        assert(b.subrange(272, 273).drop_last() =~= Seq::<u8>::empty());
        assert(b.subrange(272, 273).last() == b[272]);
        assert(digits_value(b.subrange(272, 273).drop_last()) == 0);
        assert(digits_value(b.subrange(272, 273)) == (b[272] - 0x30) as nat);
        assert(all_digits(bb.subrange(16, 17)));
        lemma_number_round_trip(bb, pp, 16, 1, g.tnd as nat);
    }
    assert(pp[16] == bb[16]);
    assert(bb.subrange(17, 18) =~= b.subrange(273, 274));
    if b[273] != 0x20 {
        assert(is_digit(b[273]) && g.dsn as int == b[273] - 0x30);
        assert(b.subrange(273, 274)[0] == b[273]);
        assert(b.subrange(273, 274).drop_last() =~= Seq::<u8>::empty());
        assert(b.subrange(273, 274).last() == b[273]);
        assert(digits_value(b.subrange(273, 274).drop_last()) == 0);
        assert(digits_value(b.subrange(273, 274)) == (b[273] - 0x30) as nat);
        assert(all_digits(bb.subrange(17, 18)));
        lemma_number_round_trip(bb, pp, 17, 1, g.dsn as nat);
    }
    assert(pp[17] == bb[17]);
    assert forall|j: int| 256 <= j < 274 implies #[trigger] out[j] == b[j] by {
        assert(pp[j - 256] == out[j] && bb[j - 256] == b[j]);
    }
}

proof fn lemma_tail_round_trip(b: Seq<u8>, g: GsiBlock, out: Seq<u8>)
    requires
        gsi_valid(b),
        gsi_read_from(g, b),
        gsi_written_as(g, out),
    ensures
        forall|j: int| 274 <= j < 1024 ==> #[trigger] out[j] == b[j],
{
    let cp = g.cpn.spec_value();
    let bb = b.subrange(274, 1024);
    let pp = out.subrange(274, 1024);
    assert(tail_written(g, pp));
    assert(bb.subrange(0, 3) =~= b.subrange(274, 277));
    lemma_text_round_trip(cp, bb, pp, 0, 3);
    assert(bb.subrange(3, 35) =~= b.subrange(277, 309));
    lemma_text_round_trip(cp, bb, pp, 3, 32);
    assert(bb.subrange(35, 67) =~= b.subrange(309, 341));
    lemma_text_round_trip(cp, bb, pp, 35, 32);
    assert(bb.subrange(67, 99) =~= b.subrange(341, 373));
    lemma_text_round_trip(cp, bb, pp, 67, 32);
    assert(bb.subrange(99, 174) =~= b.subrange(373, 448));
    lemma_text_round_trip(cp, bb, pp, 99, 75);
    assert(bb.subrange(174, 750) =~= b.subrange(448, 1024));
    lemma_text_round_trip(cp, bb, pp, 174, 576);
    assert forall|j: int| 274 <= j < 1024 implies #[trigger] out[j] == b[j] by {
        assert(pp[j - 274] == out[j] && bb[j - 274] == b[j]);
    }
}

/// Writing a block that was read gives back the bytes it was read from.
pub proof fn lemma_gsi_round_trip(b: Seq<u8>, g: GsiBlock, out: Seq<u8>)
    requires
        gsi_valid(b),
        gsi_read_from(g, b),
        gsi_written_as(g, out),
    ensures
        out == b.subrange(0, GSI_BLOCK_LEN as int),
{
    lemma_head_round_trip(b, g, out);
    lemma_titles_round_trip(b, g, out);
    lemma_references_round_trip(b, g, out);
    lemma_counts_round_trip(b, g, out);
    lemma_cues_round_trip(b, g, out);
    lemma_tail_round_trip(b, g, out);
    assert(out =~= b.subrange(0, GSI_BLOCK_LEN as int));
}

} // verus!
