use vstd::prelude::*;

use crate::error::{is_encoding_error, ParseError};

verus! {

/// The code pages that a General Subtitle Information block may name.
#[allow(non_camel_case_types)]
#[derive(Debug, Clone, Copy, PartialEq, Eq, Structural)]
pub enum CodePageNumber {
    CPN_437,
    CPN_850,
    CPN_860,
    CPN_863,
    CPN_865,
}

/// The code page that a three-digit number names, if it is a known one.
pub open spec fn cpn_of(v: u16) -> Option<CodePageNumber> {
    if v == 437 {
        Some(CodePageNumber::CPN_437)
    } else if v == 850 {
        Some(CodePageNumber::CPN_850)
    } else if v == 860 {
        Some(CodePageNumber::CPN_860)
    } else if v == 863 {
        Some(CodePageNumber::CPN_863)
    } else if v == 865 {
        Some(CodePageNumber::CPN_865)
    } else {
        None
    }
}

impl CodePageNumber {
    pub open spec fn spec_value(self) -> u16 {
        match self {
            CodePageNumber::CPN_437 => 437,
            CodePageNumber::CPN_850 => 850,
            CodePageNumber::CPN_860 => 860,
            CodePageNumber::CPN_863 => 863,
            CodePageNumber::CPN_865 => 865,
        }
    }

    /// The number under which the code page is written.
    pub fn value(&self) -> (r: u16)
        ensures
            r == self.spec_value(),
            cpn_of(r) == Some(*self),
    {
        match self {
            CodePageNumber::CPN_437 => 437,
            CodePageNumber::CPN_850 => 850,
            CodePageNumber::CPN_860 => 860,
            CodePageNumber::CPN_863 => 863,
            CodePageNumber::CPN_865 => 865,
        }
    }

    pub fn from_u16(v: u16) -> (r: Result<CodePageNumber, ParseError>)
        ensures
            match cpn_of(v) {
                Some(c) => r == Ok::<CodePageNumber, ParseError>(c),
                None => r == Err::<CodePageNumber, ParseError>(ParseError::CodePageNumber(v)),
            },
    {
        if v == 437 {
            Ok(CodePageNumber::CPN_437)
        } else if v == 850 {
            Ok(CodePageNumber::CPN_850)
        } else if v == 860 {
            Ok(CodePageNumber::CPN_860)
        } else if v == 863 {
            Ok(CodePageNumber::CPN_863)
        } else if v == 865 {
            Ok(CodePageNumber::CPN_865)
        } else {
            Err(ParseError::CodePageNumber(v))
        }
    }
}

/// The single-byte code pages that map each of the 256 bytes to a character
/// of its own.
pub open spec fn is_table_page(cp: u16) -> bool {
    cp == 437 || cp == 850 || cp == 860 || cp == 863 || cp == 865 || cp == 737 || cp == 855
        || cp == 862
}

/// The code pages that this library reads text in: those above, and code
/// page 864, whose table leaves six bytes undefined.
pub open spec fn is_known_page(cp: u16) -> bool {
    is_table_page(cp) || cp == 864
}

/// Code page `cp` gives byte `b` a character.
pub open spec fn page_defines(cp: u16, b: u8) -> bool {
    b < 0x80 || cp != 864 || !(b == 0x9b || b == 0x9c || b == 0x9f || b == 0xa6 || b == 0xa7 || b
        == 0xff)
}

/// Code page `cp` gives every byte of `b` a character.
pub open spec fn page_defines_all(cp: u16, b: Seq<u8>) -> bool {
    forall|i: int| 0 <= i < b.len() ==> page_defines(cp, #[trigger] b[i])
}

/// The character that byte `b` stands for in code page `cp`.
pub uninterp spec fn page_char(cp: u16, b: u8) -> char;

/// Bytes read one by one through code page `cp`.
pub open spec fn decoded(cp: u16, b: Seq<u8>) -> Seq<char> {
    b.map_values(|x: u8| page_char(cp, x))
}

/// Each byte of `b` below 0x80 reads in `text` as its ASCII character.
pub open spec fn ascii_kept(text: Seq<char>, b: Seq<u8>) -> bool {
    forall|i: int| 0 <= i < text.len() && b[i] < 0x80 ==> #[trigger] text[i] as u32 == b[i] as u32
}

/// Code page `cp` gives character `c` a defined byte of its upper half.
pub open spec fn has_high_byte_for(cp: u16, c: char) -> bool {
    exists|x: u8| 0x80 <= x && page_defines(cp, x) && #[trigger] page_char(cp, x) == c
}

/// Code page 864 can encode character `c`: as ASCII, as the byte of the
/// upper half that reads as it, or, for the Arabic percent sign, as `%`.
pub open spec fn encodable_in_864(c: char) -> bool {
    (c as u32) < 0x80 || c == '\u{66A}' || has_high_byte_for(864, c)
}

/// Code page `cp` has a byte for character `c`.
pub open spec fn has_byte_for(cp: u16, c: char) -> bool {
    exists|x: u8| #[trigger] page_char(cp, x) == c
}

/// Every character of `s` is one that code page `cp` has a byte for.
pub open spec fn representable(cp: u16, s: Seq<char>) -> bool {
    forall|i: int| 0 <= i < s.len() ==> has_byte_for(cp, #[trigger] s[i])
}

/// The length of `b` once the bytes of `pads` at its end are dropped.
pub open spec fn trimmed_len(b: Seq<u8>, pads: Set<u8>) -> nat
    decreases b.len(),
{
    if b.len() > 0 && pads.contains(b.last()) {
        trimmed_len(b.drop_last(), pads)
    } else {
        b.len()
    }
}

/// The text of a padded field: its bytes without the trailing spaces, read
/// through code page `cp`.
pub open spec fn field_text(cp: u16, b: Seq<u8>) -> Seq<char> {
    decoded(cp, b.subrange(0, trimmed_len(b, set![0x20u8]) as int))
}

/// `bytes` writes `text` in code page `cp`, each character as the one byte
/// that stands for it, and then spaces; a text longer than `bytes` is cut.
pub open spec fn is_text_encoding(cp: u16, text: Seq<char>, bytes: Seq<u8>) -> bool {
    forall|i: int|
        #![trigger bytes[i]]
        0 <= i < bytes.len() ==> if i < text.len() {
            forall|x: u8| #[trigger] page_char(cp, x) == text[i] <==> x == bytes[i]
        } else {
            bytes[i] == 0x20
        }
}

pub proof fn lemma_trimmed_len(b: Seq<u8>, pads: Set<u8>)
    ensures
        trimmed_len(b, pads) <= b.len(),
        forall|i: int| trimmed_len(b, pads) <= i < b.len() ==> pads.contains(#[trigger] b[i]),
        trimmed_len(b, pads) > 0 ==> !pads.contains(b[trimmed_len(b, pads) - 1]),
    decreases b.len(),
{
    if b.len() > 0 && pads.contains(b.last()) {
        let p = b.drop_last();
        lemma_trimmed_len(p, pads);
        assert forall|i: int| trimmed_len(b, pads) <= i < b.len() implies pads.contains(
            #[trigger] b[i],
        ) by {
            if i < b.len() - 1 {
                assert(b[i] == p[i]);
            }
        }
    }
}

/// Relies on `codepage_strings::Coding::new` and `Coding::decode`: for these
/// code pages the crate decodes through an `oem_cp` table, one character per
/// byte, bytes below 0x80 as ASCII, and fails where the table leaves a byte
/// undefined.
#[verifier::external_body]
fn decode_in_page(cp: u16, bytes: &[u8]) -> (r: Result<String, codepage_strings::ConvertError>)
    requires
        is_known_page(cp),
    ensures
        r is Ok <==> page_defines_all(cp, bytes@),
        r is Ok ==> r->Ok_0@ == decoded(cp, bytes@),
        r is Ok ==> forall|i: int|
            0 <= i < bytes@.len() && bytes@[i] < 0x80 ==> r->Ok_0@[i] as u32 == bytes@[i] as u32,
{
    let coding = codepage_strings::Coding::new(cp)?;
    coding.decode(bytes).map(|s| s.into_owned())
}

/// Relies on `codepage_strings::Coding::new` and `Coding::encode`: the crate
/// encodes one byte per character, ASCII as itself and the others through an
/// `oem_cp` table, and fails on a character that the table lacks. For the code
/// pages whose table covers every byte, that table inverts the decoding one;
/// for code page 864 it inverts it on the defined bytes and also sends the
/// Arabic percent sign to `%`.
#[verifier::external_body]
fn encode_in_page(cp: u16, text: &str) -> (r: Result<Vec<u8>, codepage_strings::ConvertError>)
    requires
        is_known_page(cp),
    ensures
        r is Ok ==> r->Ok_0@.len() == text@.len(),
        r is Ok ==> forall|i: int|
            0 <= i < text@.len() && (text@[i] as u32) < 0x80 ==> r->Ok_0@[i] as u32
                == text@[i] as u32,
        cp == 864 ==> (r is Ok <==> forall|i: int|
            0 <= i < text@.len() ==> encodable_in_864(#[trigger] text@[i])),
        cp == 864 && r is Ok ==> forall|i: int|
            0 <= i < text@.len() && text@[i] == '\u{66A}' ==> r->Ok_0@[i] == 0x25,
        cp == 864 && r is Ok ==> forall|i: int, x: u8|
            #![trigger page_char(cp, x), text@[i]]
            0 <= i < text@.len() && 0x80 <= x && page_defines(cp, x) && page_char(cp, x) == text@[i]
                ==> r->Ok_0@[i] == x,
        is_table_page(cp) ==> (r is Ok <==> representable(cp, text@)),
        is_table_page(cp) && r is Ok ==> forall|i: int, x: u8|
            #![trigger page_char(cp, x), text@[i]]
            0 <= i < text@.len() ==> (page_char(cp, x) == text@[i] <==> x == r->Ok_0@[i]),
{
    codepage_strings::Coding::new(cp)?.encode(text)
}

/// Turns the fixed-width text fields of one code page into text and back.
pub struct CodePageCodec {
    code_page: u16,
}

impl CodePageCodec {
    #[verifier::type_invariant]
    spec fn inv(&self) -> bool {
        is_known_page(self.code_page)
    }

    pub closed spec fn page(&self) -> u16 {
        self.code_page
    }

    pub fn new(code_page_number: u16) -> (r: Result<CodePageCodec, ParseError>)
        ensures
            is_known_page(code_page_number) ==> r is Ok && r->Ok_0.page() == code_page_number,
            !is_known_page(code_page_number) ==> r == Err::<CodePageCodec, ParseError>(
                ParseError::CodePageNumber(code_page_number),
            ),
    {
        let cp = code_page_number;
        if cp == 437 || cp == 850 || cp == 860 || cp == 863 || cp == 865 || cp == 737 || cp == 855
            || cp == 862 || cp == 864 {
            Ok(CodePageCodec { code_page: cp })
        } else {
            Err(ParseError::CodePageNumber(cp))
        }
    }

    pub fn code_page(&self) -> (r: u16)
        ensures
            r == self.page(),
            is_known_page(r),
    {
        proof {
            use_type_invariant(self);
        }
        self.code_page
    }

    /// Reads a field, without the bytes of `pads` at its end; fails where the
    /// code page leaves one of the other bytes undefined.
    pub fn decode_trimmed(&self, bytes: &[u8], pads: &[u8]) -> (r: Result<String, ParseError>)
        ensures
            r is Ok <==> page_defines_all(
                self.page(),
                bytes@.subrange(0, trimmed_len(bytes@, pads@.to_set()) as int),
            ),
            r is Ok ==> r->Ok_0@ == decoded(
                self.page(),
                bytes@.subrange(0, trimmed_len(bytes@, pads@.to_set()) as int),
            ),
            r is Ok ==> forall|i: int|
                0 <= i < r->Ok_0@.len() && bytes@[i] < 0x80 ==> r->Ok_0@[i] as u32 == bytes@[i] as u32,
            r is Err ==> r == Err::<String, ParseError>(ParseError::CodePageDecoding(self.page())),
    {
        let cp = self.code_page();
        let mut k: usize = bytes.len();
        assert(bytes@.subrange(0, bytes@.len() as int) =~= bytes@);
        while k > 0 && contains_byte(pads, bytes[k - 1])
            invariant
                k <= bytes@.len(),
                trimmed_len(bytes@, pads@.to_set()) == trimmed_len(bytes@.subrange(0, k as int), pads@.to_set()),
            decreases k,
        {
            let ghost s = bytes@.subrange(0, k as int);
            assert(s.drop_last() =~= bytes@.subrange(0, k - 1));
            k = k - 1;
        }
        let part = vstd::slice::slice_subrange(bytes, 0, k);
        proof {
            let s = bytes@.subrange(0, k as int);
            if k > 0 {
                assert(s.last() == bytes@[k - 1]);
            }
            assert(trimmed_len(s, pads@.to_set()) == k);
        }
        match decode_in_page(cp, part) {
            Ok(s) => Ok(s),
            Err(_) => Err(ParseError::CodePageDecoding(cp)),
        }
    }

    /// Reads a space-padded field: the text without its trailing spaces. It
    /// fails only where the code page leaves one of the other bytes undefined,
    /// never for a code page whose table covers every byte.
    pub fn decode(&self, bytes: &[u8]) -> (r: Result<String, ParseError>)
        ensures
            r is Ok <==> page_defines_all(
                self.page(),
                bytes@.subrange(0, trimmed_len(bytes@, set![0x20u8]) as int),
            ),
            is_table_page(self.page()) ==> r is Ok,
            r is Ok ==> r->Ok_0@ == field_text(self.page(), bytes@),
            r is Ok ==> forall|i: int|
                0 <= i < r->Ok_0@.len() && bytes@[i] < 0x80 ==> r->Ok_0@[i] as u32 == bytes@[i] as u32,
            r is Err ==> r == Err::<String, ParseError>(ParseError::CodePageDecoding(self.page())),
    {
        let pads: [u8; 1] = [0x20];
        assert(pads@.to_set() =~= set![0x20u8]) by {
            assert(pads@ =~= seq![0x20u8]);
        }
        self.decode_trimmed(bytes, pads.as_slice())
    }

    /// Writes `text` into a field of `width` bytes, padded with spaces, a
    /// longer text cut to `width`. For a code page whose table covers every
    /// byte, each character becomes the one byte that reads as it; code page
    /// 864 writes as its encoder does.
    pub fn encode(&self, text: &str, width: usize) -> (r: Result<Vec<u8>, ParseError>)
        ensures
            is_table_page(self.page()) ==> (r is Ok <==> representable(self.page(), text@)),
            r is Ok ==> r->Ok_0@.len() == width,
            r is Ok ==> forall|i: int|
                0 <= i < width && i < text@.len() && (text@[i] as u32) < 0x80 ==> r->Ok_0@[i] as u32
                    == text@[i] as u32,
            r is Ok ==> forall|i: int| text@.len() <= i < width ==> r->Ok_0@[i] == 0x20,
            self.page() == 864 ==> (r is Ok <==> forall|i: int|
                0 <= i < text@.len() ==> encodable_in_864(#[trigger] text@[i])),
            self.page() == 864 && r is Ok ==> forall|i: int|
                0 <= i < width && i < text@.len() && text@[i] == '\u{66A}' ==> r->Ok_0@[i] == 0x25,
            self.page() == 864 && r is Ok ==> forall|i: int, x: u8|
                #![trigger page_char(864, x), text@[i]]
                0 <= i < width && i < text@.len() && 0x80 <= x && page_defines(864, x) && page_char(
                    864,
                    x,
                ) == text@[i] ==> r->Ok_0@[i] == x,
            is_table_page(self.page()) && r is Ok ==> is_text_encoding(
                self.page(),
                text@,
                r->Ok_0@,
            ),
            r is Err ==> is_encoding_error(r->Err_0, self.page(), text@),
    {
        let cp = self.code_page();
        match encode_in_page(cp, text) {
            Ok(v) => {
                let mut v = v;
                let ghost full = v@;
                v.truncate(width);
                while v.len() < width
                    invariant
                        v@.len() <= width,
                        v@.len() >= full.len() || v@.len() == width,
                        forall|i: int| 0 <= i < v@.len() && i < full.len() ==> v@[i] == full[i],
                        forall|i: int| full.len() <= i < v@.len() ==> v@[i] == 0x20,
                    decreases width - v@.len(),
                {
                    v.push(0x20);
                }
                Ok(v)
            },
            Err(e) => Err(ParseError::CodePageEncoding { codepage: cp, value: text.to_owned(), source: e }),
        }
    }
}

fn contains_byte(set: &[u8], b: u8) -> (r: bool)
    ensures
        r == set@.to_set().contains(b),
{
    let mut i: usize = 0;
    while i < set.len()
        invariant
            i <= set@.len(),
            forall|j: int| 0 <= j < i ==> set@[j] != b,
        decreases set@.len() - i,
    {
        if set[i] == b {
            assert(set@.to_set().contains(set@[i as int]));
            return true;
        }
        i = i + 1;
    }
    assert(!set@.to_set().contains(b)) by {
        if set@.to_set().contains(b) {
            let j = choose|j: int| 0 <= j < set@.len() && set@[j] == b;
        }
    }
    false
}

} // verus!
