use vstd::prelude::*;

use crate::error::ParseError;
use crate::fields::{cct_of, cs_of, dfc_of, dsc_of, tcs_of};
use crate::gsi::{
    gsi_error, gsi_read_from, gsi_valid, gsi_written_as, lemma_gsi_round_trip, parse_gsi_block,
    GsiBlock, GSI_BLOCK_LEN,
};
use crate::tti::{
    parse_tti_block, tti_read_from, tti_written_as, TtiBlock, TTI_BLOCK_LEN,
};

verus! {

/// A whole file: its header and its subtitle records, in order.
#[derive(Debug, Clone, PartialEq, Eq)]
pub struct Stl {
    pub gsi: GsiBlock,
    pub ttis: Vec<TtiBlock>,
}

/// Where the `k`-th subtitle record of a file starts.
pub open spec fn tti_start(k: int) -> int {
    GSI_BLOCK_LEN + TTI_BLOCK_LEN * k
}

/// The bytes of the `k`-th subtitle record of `b`.
pub open spec fn tti_bytes(b: Seq<u8>, k: int) -> Seq<u8> {
    b.subrange(tti_start(k), tti_start(k + 1))
}

/// How many whole subtitle records follow the header in `b`.
pub open spec fn tti_count(b: Seq<u8>) -> int {
    (b.len() - GSI_BLOCK_LEN) / TTI_BLOCK_LEN as int
}

/// `b` holds a file that can be read: a readable header, then one or more
/// whole records, each with a known cumulative status.
pub open spec fn stl_valid(b: Seq<u8>) -> bool {
    &&& gsi_valid(b)
    &&& b.len() > GSI_BLOCK_LEN
    &&& (b.len() - GSI_BLOCK_LEN) % TTI_BLOCK_LEN as int == 0
    &&& forall|k: int| 0 <= k < tti_count(b) ==> cs_of(#[trigger] b[tti_start(k) + 4]) is Some
}

/// `d` is the file that `b` writes.
pub open spec fn stl_read_from(d: Stl, b: Seq<u8>) -> bool {
    &&& gsi_read_from(d.gsi, b)
    &&& d.ttis@.len() == tti_count(b)
    &&& forall|k: int|
        0 <= k < d.ttis@.len() ==> tti_read_from(#[trigger] d.ttis@[k], tti_bytes(b, k), d.gsi.cct)
}

/// `e` is the error for the first part of `b` that cannot be read: the
/// header's; else a whole record's cumulative status; else the missing or
/// cut record.
pub open spec fn stl_error(b: Seq<u8>, e: ParseError) -> bool {
    if !gsi_valid(b) {
        gsi_error(b, e)
    } else if exists|k: int|
        0 <= k && tti_start(k + 1) <= b.len() && cs_of(#[trigger] b[tti_start(k) + 4]) is None {
        e == ParseError::CumulativeStatus
    } else {
        e == ParseError::Incomplete
    }
}

/// `b` is the bytes that write `d`: its header, then each record in order.
pub open spec fn stl_written_as(d: Stl, b: Seq<u8>) -> bool {
    &&& b.len() == tti_start(d.ttis@.len() as int)
    &&& gsi_written_as(d.gsi, b.subrange(0, GSI_BLOCK_LEN as int))
    &&& forall|k: int|
        0 <= k < d.ttis@.len() ==> tti_written_as(#[trigger] d.ttis@[k], tti_bytes(b, k))
}

/// Reads a whole file: one header, then records until the bytes run out.
pub fn parse_stl_from_slice(input: &[u8]) -> (r: Result<Stl, ParseError>)
    ensures
        r is Ok <==> stl_valid(input@),
        r is Ok ==> stl_read_from(r->Ok_0, input@),
        r is Err ==> stl_error(input@, r->Err_0),
        input@.len() <= GSI_BLOCK_LEN ==> r is Err,
{
    let gsi = match parse_gsi_block(input) {
        Ok(g) => g,
        Err(e) => {
            return Err(e);
        },
    };
    let mut ttis: Vec<TtiBlock> = Vec::new();
    let mut pos: usize = GSI_BLOCK_LEN;
    while pos < input.len()
        invariant
            gsi_valid(input@),
            gsi_read_from(gsi, input@),
            GSI_BLOCK_LEN <= pos <= input@.len(),
            pos == tti_start(ttis@.len() as int),
            forall|k: int|
                0 <= k < ttis@.len() ==> tti_read_from(
                    #[trigger] ttis@[k],
                    tti_bytes(input@, k),
                    gsi.cct,
                ),
            forall|k: int| 0 <= k < ttis@.len() ==> cs_of(#[trigger] input@[tti_start(k) + 4]) is Some,
        decreases input@.len() - pos,
    {
        let rest = vstd::slice::slice_subrange(input, pos, input.len());
        let ghost k = ttis@.len() as int;
        match parse_tti_block(rest, gsi.cct) {
            Ok(Some(t)) => {
                assert(rest@.subrange(0, TTI_BLOCK_LEN as int) =~= tti_bytes(input@, k));
                assert(rest@[4] == input@[tti_start(k) + 4]);
                ttis.push(t);
                pos = pos + TTI_BLOCK_LEN;
            },
            Ok(None) => {
                assert(false);
                return Err(ParseError::Incomplete);
            },
            Err(e) => {
                proof {
                    if rest@.len() >= TTI_BLOCK_LEN {
                        assert(rest@[4] == input@[tti_start(k) + 4]);
                        assert(tti_start(k + 1) <= input@.len());
                    } else {
                        assert forall|m: int|
                            0 <= m && tti_start(m + 1) <= input@.len() implies cs_of(
                            #[trigger] input@[tti_start(m) + 4],
                        ) is Some by {
                            assert(m < k);
                        }
                    }
                }
                return Err(e);
            },
        }
    }
    proof {
        let n = ttis@.len() as int;
        assert(input@.len() - GSI_BLOCK_LEN == 128 * n);
        assert((128 * n) / 128 == n && (128 * n) % 128 == 0) by (nonlinear_arith)
            requires
                n >= 0,
        ;
    }
    assert(tti_count(input@) == ttis@.len());
    if ttis.len() == 0 {
        return Err(ParseError::Incomplete);
    }
    Ok(Stl { gsi, ttis })
}

impl Stl {
    /// The bytes that write the file: its header, then each record in order;
    /// fails where the header's texts cannot be written in its code page.
    pub fn serialize(&self) -> (r: Result<Vec<u8>, ParseError>)
        ensures
            r is Ok <==> self.gsi.serialize_succeeds(),
            r is Ok ==> stl_written_as(*self, r->Ok_0@),
            r is Ok ==> r->Ok_0@.len() == GSI_BLOCK_LEN + TTI_BLOCK_LEN * self.ttis@.len(),
            r is Err ==> self.gsi.serialize_error(r->Err_0),
    {
        let mut out = match self.gsi.serialize() {
            Ok(v) => v,
            Err(e) => {
                return Err(e);
            },
        };
        let ghost head = out@;
        let mut i: usize = 0;
        while i < self.ttis.len()
            invariant
                i <= self.ttis@.len(),
                out@.len() == tti_start(i as int),
                gsi_written_as(self.gsi, head),
                out@.subrange(0, GSI_BLOCK_LEN as int) == head,
                forall|k: int|
                    0 <= k < i ==> tti_written_as(#[trigger] self.ttis@[k], tti_bytes(out@, k)),
            decreases self.ttis@.len() - i,
        {
            let mut piece = self.ttis[i].serialize();
            let ghost o = out@;
            let ghost pv = piece@;
            out.append(&mut piece);
            assert(out@.subrange(0, GSI_BLOCK_LEN as int) =~= o.subrange(0, GSI_BLOCK_LEN as int));
            assert(tti_bytes(out@, i as int) =~= pv);
            assert forall|k: int| 0 <= k < i implies tti_bytes(out@, k) =~= tti_bytes(o, k) by {}
            i = i + 1;
        }
        Ok(out)
    }
}

pub proof fn lemma_tti_round_trip(b: Seq<u8>, t: TtiBlock, out: Seq<u8>, cct: crate::fields::CharacterCodeTable)
    requires
        tti_read_from(t, b, cct),
        tti_written_as(t, out),
    ensures
        out == b,
{
    assert forall|j: int| 0 <= j < TTI_BLOCK_LEN implies #[trigger] out[j] == b[j] by {
        if j >= 16 {
            assert(out[16 + (j - 16)] == t.tf@[j - 16]);
        }
    }
    assert(out =~= b);
}

/// Writing a file that was read gives back the bytes it was read from.
pub proof fn lemma_stl_round_trip(b: Seq<u8>, d: Stl, out: Seq<u8>)
    requires
        stl_valid(b),
        stl_read_from(d, b),
        stl_written_as(d, out),
    ensures
        out == b,
{
    lemma_gsi_round_trip(b, d.gsi, out.subrange(0, GSI_BLOCK_LEN as int));
    assert forall|k: int| 0 <= k < d.ttis@.len() implies tti_bytes(out, k) == tti_bytes(b, k) by {
        lemma_tti_round_trip(tti_bytes(b, k), d.ttis@[k], tti_bytes(out, k), d.gsi.cct);
    }
    assert forall|j: int| 0 <= j < b.len() implies #[trigger] out[j] == b[j] by {
        if j < GSI_BLOCK_LEN {
            assert(out.subrange(0, GSI_BLOCK_LEN as int)[j] == b.subrange(0, GSI_BLOCK_LEN as int)[j]);
        } else {
            let k = (j - GSI_BLOCK_LEN) / TTI_BLOCK_LEN as int;
            assert(tti_bytes(out, k)[j - tti_start(k)] == tti_bytes(b, k)[j - tti_start(k)]);
        }
    }
    assert(out =~= b);
}

/// A header whose total number of disks and disk sequence number are both
/// blank reads with both counts equal to 1.
pub proof fn lemma_blank_counts_read_as_one(b: Seq<u8>, g: GsiBlock)
    requires
        gsi_read_from(g, b),
        b[272] == 0x20,
        b[273] == 0x20,
    ensures
        g.tnd == 1,
        g.dsn == 1,
{
}

/// A code outside its known set is never read as some other value: a
/// header or a record that holds one makes the whole file unreadable.
pub proof fn lemma_unknown_code_rejected(b: Seq<u8>)
    requires
        b.len() >= GSI_BLOCK_LEN,
        dfc_of(b.subrange(3, 11)) is None || dsc_of(b[11]) is None || cct_of(b[12], b[13]) is None
            || tcs_of(b[255]) is None || exists|k: int|
            0 <= k < tti_count(b) && cs_of(#[trigger] b[tti_start(k) + 4]) is None,
    ensures
        !stl_valid(b),
{
}

} // verus!
