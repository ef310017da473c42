//! XRSP packet framing.
//!
//! A packet begins with a header of eight bytes, low bytes first, and is padded to a multiple of
//! four bytes:
//!
//! | offset | type | meaning                                |
//! |--------|------|----------------------------------------|
//! | 0      | u16  | flags and version                      |
//! | 2      | u16  | length: `total_bytes = (value + 1) * 4` |
//! | 4      | u16  | topic id                               |
//! | 6      | u16  | reserved, 0                            |
//!
//! The payload is `total_bytes - 8 - padding` bytes long.
pub mod word0;

use crate::bytes;
use vstd::prelude::*;

verus! {

/// Header length in bytes.
pub const HEADER_LEN: usize = 8;

/// Packets are sized in words of four bytes; the length field counts words minus one.
pub const WORD: usize = 4;

/// A packet header.
#[derive(Clone, Copy, Debug, PartialEq, Eq, Structural)]
pub struct PacketHeader {
    /// Flags and version, as they stand on the wire.
    pub word0: u16,
    /// Size of the whole packet in bytes, header and padding counted.
    pub total_len: usize,
    /// Topic id.
    pub topic: u16,
}

impl PacketHeader {
    /// Whether the length field can say `total_len`: whole words, at least one and at most 65536.
    pub open spec fn encodable(self) -> bool {
        &&& self.total_len % WORD == 0
        &&& WORD <= self.total_len <= 0x4_0000
    }

    /// The header in the first eight bytes of `buf`.
    pub open spec fn of(buf: Seq<u8>) -> PacketHeader {
        PacketHeader {
            word0: bytes::le16(buf, 0),
            total_len: ((bytes::le16(buf, 2) + 1) * WORD) as usize,
            topic: bytes::le16(buf, 4),
        }
    }

    /// What the length field holds: the number of words minus one, kept to 16 bits.
    pub open spec fn length_field(self) -> u16 {
        let words = self.total_len / WORD;
        let field: int = if words == 0 {
            0
        } else {
            words - 1
        };
        (field % 0x1_0000) as u16
    }

    /// The eight bytes of the header.
    pub open spec fn encoded(self) -> Seq<u8> {
        bytes::le16_bytes(self.word0) + bytes::le16_bytes(self.length_field()) + bytes::le16_bytes(
            self.topic,
        ) + seq![0u8, 0u8]
    }

    /// Parses the header. `None` only if `buf` is too short.
    pub fn parse(buf: &[u8]) -> (r: Option<PacketHeader>)
        ensures
            r == if buf@.len() < HEADER_LEN {
                None
            } else {
                Some(PacketHeader::of(buf@))
            },
    {
        if buf.len() < HEADER_LEN {
            return None;
        }
        let word0: u16 = bytes::read_le16(buf, 0);
        let field: usize = bytes::read_le16(buf, 2) as usize;
        let topic: u16 = bytes::read_le16(buf, 4);
        Some(PacketHeader { word0, total_len: (field + 1) * WORD, topic })
    }

    /// Encodes the header.
    pub fn to_bytes(&self) -> (r: [u8; 8])
        ensures
            r@ =~= self.encoded(),
    {
        let field: u16 = ((self.total_len / WORD).saturating_sub(1) % 0x1_0000) as u16;
        [
            (self.word0 % 0x100) as u8,
            (self.word0 / 0x100) as u8,
            (field % 0x100) as u8,
            (field / 0x100) as u8,
            (self.topic % 0x100) as u8,
            (self.topic / 0x100) as u8,
            0,
            0,
        ]
    }

    /// Whether the packet carries a payload beyond the bare header.
    pub fn is_sized(&self) -> (r: bool)
        ensures
            r == (self.word0 & word0::SIZED != 0),
    {
        self.word0 & word0::SIZED != 0
    }

    /// Whether the packet is of the "internal" variant.
    pub fn is_internal(&self) -> (r: bool)
        ensures
            r == (self.word0 & word0::INTERNAL != 0),
    {
        self.word0 & word0::INTERNAL != 0
    }

    /// Length of the payload, of a packet that ends in `padding` bytes of padding.
    pub open spec fn payload_size(self, padding: u8) -> int {
        if self.total_len < HEADER_LEN + padding {
            0
        } else {
            self.total_len - HEADER_LEN - padding
        }
    }

    /// Length of the payload, of a packet that ends in `padding` bytes of padding.
    pub fn payload_len(&self, padding: u8) -> (r: usize)
        ensures
            r == self.payload_size(padding),
            r == if self.total_len < HEADER_LEN + padding {
                0
            } else {
                self.total_len - HEADER_LEN - padding
            },
    {
        self.total_len.saturating_sub(HEADER_LEN).saturating_sub(padding as usize)
    }
}

/// A header that was encoded is parsed back, whatever follows it.
pub proof fn law_header_is_read_back(h: PacketHeader, rest: Seq<u8>)
    requires
        h.encodable(),
    ensures
        h.encoded().len() == HEADER_LEN,
        PacketHeader::of(h.encoded() + rest) == h,
{
    let b = h.encoded() + rest;
    assert(b.subrange(0, 2) =~= bytes::le16_bytes(h.word0));
    assert(b.subrange(2, 4) =~= bytes::le16_bytes(h.length_field()));
    assert(b.subrange(4, 6) =~= bytes::le16_bytes(h.topic));
    bytes::lemma_le16(b, 0, h.word0);
    bytes::lemma_le16(b, 2, h.length_field());
    bytes::lemma_le16(b, 4, h.topic);
}

/// A header that was parsed can be encoded again, and gives the bytes that it was parsed from
/// where the reserved bytes are 0.
pub proof fn law_parsed_header_encodes_back(buf: Seq<u8>)
    requires
        buf.len() >= HEADER_LEN,
    ensures
        PacketHeader::of(buf).encodable(),
        buf[6] == 0 && buf[7] == 0 ==> PacketHeader::of(buf).encoded() == buf.take(
            HEADER_LEN as int,
        ),
{
    let h = PacketHeader::of(buf);
    let e = h.encoded();
    assert(h.length_field() == bytes::le16(buf, 2));
    if buf[6] == 0 && buf[7] == 0 {
        assert(e =~= buf.take(HEADER_LEN as int));
    }
}

/// Each field has its own bytes: those of the others do not matter to it, and one more in the
/// length field is one word more.
pub proof fn law_fields_stand_apart(a: Seq<u8>, b: Seq<u8>)
    requires
        a.len() >= HEADER_LEN,
        b.len() >= HEADER_LEN,
    ensures
        a[0] == b[0] && a[1] == b[1] <==> PacketHeader::of(a).word0 == PacketHeader::of(b).word0,
        a[2] == b[2] && a[3] == b[3] <==> PacketHeader::of(a).total_len == PacketHeader::of(
            b,
        ).total_len,
        a[4] == b[4] && a[5] == b[5] <==> PacketHeader::of(a).topic == PacketHeader::of(b).topic,
        a[2] == b[2] + 1 && a[3] == b[3] ==> PacketHeader::of(a).total_len == PacketHeader::of(
            b,
        ).total_len + 4,
        a[2] == 0 && a[3] == 0 ==> PacketHeader::of(a).total_len == 4,
{
}

/// Header, payload and padding make up the packet, where it is long enough for the first and the
/// last; else there is no payload.
pub proof fn law_parts_make_up_the_packet(h: PacketHeader, padding: u8)
    ensures
        h.total_len >= 8 + padding ==> 8 + h.payload_size(padding) + padding == h.total_len,
        h.total_len <= 8 + padding ==> h.payload_size(padding) == 0,
{
}

/// The length field counts the whole words of the packet beyond the first, as far as its 16 bits go;
/// a packet without a whole word is told as one.
pub proof fn law_length_field_counts_words(h: PacketHeader)
    ensures
        h.total_len < 4 ==> h.length_field() == 0,
        h.total_len >= 4 ==> (h.total_len as int / 4 - 1 - h.length_field()) % 0x1_0000 == 0,
        4 <= h.total_len < 0x4_0004 ==> h.length_field() == h.total_len as int / 4 - 1,
{
}

} // verus!
