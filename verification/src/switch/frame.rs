//! Ethernet frames.

use vstd::prelude::*;
use vstd::slice::slice_subrange;

use crate::bytes;
use crate::bytes::read_be16;
use crate::model::MacAddr;
use crate::text::decimal_string;

verus! {

/// Why a frame could not be read.
#[derive(Debug, Clone, Copy, PartialEq, Eq, Structural)]
pub enum FrameError {
    /// The frame is shorter than the 14-byte Ethernet header, or than 18
    /// bytes where an 802.1Q tag is present.
    TooShort { len: usize },
}

impl FrameError {
    /// The error in words.
    pub fn message(&self) -> (r: String)
        ensures
            r@ == "ethernet frame too short: "@ + crate::text::decimal(self->len as nat)
                + " bytes"@,
    {
        let FrameError::TooShort { len } = self;
        let mut s = "ethernet frame too short: ".to_owned();
        s.append(decimal_string(*len as u64).as_str());
        s.append(" bytes");
        s
    }
}

/// An Ethernet frame: its header fields and its payload.
#[derive(Debug, Clone, Copy, PartialEq, Eq)]
pub struct ParsedFrame<'a> {
    /// The destination address, at offset 0.
    pub dst: MacAddr,
    /// The source address, at offset 6.
    pub src: MacAddr,
    /// The ethertype at offset 12; behind an 802.1Q tag, that at offset 16.
    pub ethertype: u16,
    /// What follows the header.
    pub payload: &'a [u8],
}

/// What a [`ParsedFrame`] holds.
pub struct FrameView {
    pub dst: MacAddr,
    pub src: MacAddr,
    pub ethertype: u16,
    pub payload: Seq<u8>,
}

impl<'a> View for ParsedFrame<'a> {
    type V = FrameView;

    open spec fn view(&self) -> FrameView {
        FrameView {
            dst: self.dst,
            src: self.src,
            ethertype: self.ethertype,
            payload: self.payload@,
        }
    }
}

/// Whether an 802.1Q tag follows the addresses of `f`.
pub open spec fn is_tagged(f: Seq<u8>) -> bool {
    bytes::be16(f[12], f[13]) == 0x8100
}

/// The frame that `f` holds, if it is long enough.
pub open spec fn parsed(f: Seq<u8>) -> Option<FrameView> {
    let dst = MacAddr::of(f.subrange(0, 6));
    let src = MacAddr::of(f.subrange(6, 12));
    if f.len() < 14 {
        None
    } else if !is_tagged(f) {
        Some(
            FrameView {
                dst,
                src,
                ethertype: bytes::be16(f[12], f[13]) as u16,
                payload: f.skip(14),
            },
        )
    } else if f.len() < 18 {
        None
    } else {
        Some(
            FrameView {
                dst,
                src,
                ethertype: bytes::be16(f[16], f[17]) as u16,
                payload: f.skip(18),
            },
        )
    }
}

impl<'a> ParsedFrame<'a> {
    /// Reads a frame. An 802.1Q tag is skipped: the ethertype and the payload
    /// are those behind it. Unknown ethertypes and the zero address are
    /// accepted.
    pub fn parse(frame: &'a [u8]) -> (r: Result<ParsedFrame<'a>, FrameError>)
        ensures
            match r {
                Ok(p) => parsed(frame@) == Some(p@),
                Err(e) => parsed(frame@) is None && e == (FrameError::TooShort {
                    len: frame.len(),
                }),
            },
    {
        if frame.len() < 14 {
            return Err(FrameError::TooShort { len: frame.len() });
        }
        let dst = mac_at(frame, 0);
        let src = mac_at(frame, 6);
        let outer: u16 = read_be16(frame[12], frame[13]);
        if outer != 0x8100 {
            let payload = slice_subrange(frame, 14, frame.len());
            assert(payload@ =~= frame@.skip(14));
            return Ok(ParsedFrame { dst, src, ethertype: outer, payload });
        }
        if frame.len() < 18 {
            return Err(FrameError::TooShort { len: frame.len() });
        }
        let payload = slice_subrange(frame, 18, frame.len());
        assert(payload@ =~= frame@.skip(18));
        Ok(ParsedFrame { dst, src, ethertype: read_be16(frame[16], frame[17]), payload })
    }
}

/// The address in the six bytes at `offset`.
pub fn mac_at(frame: &[u8], offset: usize) -> (r: MacAddr)
    requires
        offset + 6 <= frame.len(),
    ensures
        r == MacAddr::of(frame@.subrange(offset as int, offset + 6)),
        r.bytes() == frame@.subrange(offset as int, offset + 6),
{
    let r = MacAddr {
        o0: frame[offset],
        o1: frame[offset + 1],
        o2: frame[offset + 2],
        o3: frame[offset + 3],
        o4: frame[offset + 4],
        o5: frame[offset + 5],
    };
    assert(r.bytes() =~= frame@.subrange(offset as int, offset + 6));
    r
}

/// A tag changes neither the addresses nor what is behind it: a tagged frame
/// reads as the untagged frame with the tag taken out.
pub proof fn law_tag_is_transparent(f: Seq<u8>)
    requires
        f.len() >= 18,
        is_tagged(f),
        !is_tagged(f.take(12) + f.skip(16)),
    ensures
        parsed(f) == parsed(f.take(12) + f.skip(16)),
{
    let g = f.take(12) + f.skip(16);
    assert(g.subrange(0, 6) =~= f.subrange(0, 6));
    assert(g.subrange(6, 12) =~= f.subrange(6, 12));
    assert(g.skip(14) =~= f.skip(18));
    assert(g[12] == f[16] && g[13] == f[17]);
}

/// Whether a frame can be read is a matter of its length alone: 14 bytes, or
/// 18 where the first two behind the addresses are those of a tag. Its fields
/// are the bytes at their places, whatever these are.
pub proof fn law_every_frame_that_is_long_enough_is_read(f: Seq<u8>)
    ensures
        ({
            let tagged = f[12] == 0x81 && f[13] == 0x00;
            let at = if tagged { 16int } else { 12int };
            &&& parsed(f) is Some <==> f.len() >= (if tagged { 18int } else { 14int })
            &&& parsed(f) matches Some(p) ==> {
                &&& p.dst == (MacAddr {
                    o0: f[0],
                    o1: f[1],
                    o2: f[2],
                    o3: f[3],
                    o4: f[4],
                    o5: f[5],
                })
                &&& p.src == (MacAddr {
                    o0: f[6],
                    o1: f[7],
                    o2: f[8],
                    o3: f[9],
                    o4: f[10],
                    o5: f[11],
                })
                &&& p.ethertype == f[at] * 256 + f[at + 1]
                &&& p.payload == f.skip(at + 2)
            }
        }),
{
}

} // verus!
