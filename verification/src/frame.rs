//! Frame classification and the information-element reader shared by the
//! beacon parser and the PMKID parser.

use vstd::prelude::*;
use vstd::slice::*;

verus! {

/// The shortest buffer that can hold an 802.11 header.
pub const MIN_FRAME_LEN: usize = 24;

/// The EtherType of EAPOL.
pub const ETHERTYPE_EAPOL: u16 = 0x888E;

/// What a captured buffer is taken to be.
#[derive(Clone, Copy, Debug, PartialEq, Eq, Structural)]
pub enum FrameKind {
    ManagementBeacon,
    Eapol,
    Unrecognized,
}

/// The 16-bit value whose low byte is `lo` and whose high byte is `hi`.
pub open spec fn word(lo: u8, hi: u8) -> int {
    lo as int + 256 * (hi as int)
}

/// The frame-control field: the first two bytes, little-endian.
pub open spec fn frame_control(data: Seq<u8>) -> int
    recommends
        data.len() >= 2,
{
    word(data[0], data[1])
}

/// The frame type, bits 2 and 3 of the frame-control field.
pub open spec fn frame_type(data: Seq<u8>) -> int {
    (frame_control(data) / 4) % 4
}

/// The frame subtype, bits 4 to 7 of the frame-control field.
pub open spec fn frame_subtype(data: Seq<u8>) -> int {
    (frame_control(data) / 16) % 16
}

/// The EtherType field: bytes 12 and 13, big-endian.
pub open spec fn ether_type(data: Seq<u8>) -> int
    recommends
        data.len() >= 14,
{
    word(data[13], data[12])
}

/// A management frame of subtype beacon, with a full header.
pub open spec fn is_beacon(data: Seq<u8>) -> bool {
    &&& data.len() >= MIN_FRAME_LEN
    &&& frame_type(data) == 0
    &&& frame_subtype(data) == 8
}

/// A frame that carries the EAPOL EtherType, with a full header.
pub open spec fn is_eapol(data: Seq<u8>) -> bool {
    &&& data.len() >= MIN_FRAME_LEN
    &&& ether_type(data) == ETHERTYPE_EAPOL
}

/// The kind of a buffer. The beacon test comes first, so a buffer that
/// passes both tests counts as a beacon.
pub open spec fn frame_kind(data: Seq<u8>) -> FrameKind {
    if is_beacon(data) {
        FrameKind::ManagementBeacon
    } else if is_eapol(data) {
        FrameKind::Eapol
    } else {
        FrameKind::Unrecognized
    }
}

/// Reads two bytes as one 16-bit value.
pub fn read_word(lo: u8, hi: u8) -> (w: u16)
    ensures
        w == word(lo, hi),
{
    lo as u16 + 256 * (hi as u16)
}

/// Whether the buffer is a beacon frame.
pub fn is_beacon_frame(data: &[u8]) -> (b: bool)
    ensures
        b == is_beacon(data@),
{
    if data.len() < MIN_FRAME_LEN {
        return false;
    }
    let control = read_word(data[0], data[1]);
    (control / 4) % 4 == 0 && (control / 16) % 16 == 8
}

/// Whether the buffer is an EAPOL frame.
pub fn is_eapol_frame(data: &[u8]) -> (b: bool)
    ensures
        b == is_eapol(data@),
{
    if data.len() < MIN_FRAME_LEN {
        return false;
    }
    read_word(data[13], data[12]) == ETHERTYPE_EAPOL
}

/// Classifies a captured buffer.
pub fn classify(data: &[u8]) -> (kind: FrameKind)
    ensures
        kind == frame_kind(data@),
        data@.len() < MIN_FRAME_LEN ==> kind == FrameKind::Unrecognized,
{
    if is_beacon_frame(data) {
        FrameKind::ManagementBeacon
    } else if is_eapol_frame(data) {
        FrameKind::Eapol
    } else {
        FrameKind::Unrecognized
    }
}

/// One information element: its tag and its payload.
pub struct Element {
    pub id: u8,
    pub payload: Seq<u8>,
}

/// Whether a whole element stands at `offset`: the tag, the length, and
/// the announced payload in full.
pub open spec fn element_fits(data: Seq<u8>, offset: int) -> bool {
    &&& 0 <= offset
    &&& offset + 2 <= data.len()
    &&& offset + 2 + data[offset + 1] <= data.len()
}

/// The element at `offset`, where one fits.
pub open spec fn element_at(data: Seq<u8>, offset: int) -> Element
    recommends
        element_fits(data, offset),
{
    Element {
        id: data[offset],
        payload: data.subrange(offset + 2, offset + 2 + data[offset + 1]),
    }
}

/// The offset just behind the element at `offset`.
pub open spec fn element_end(data: Seq<u8>, offset: int) -> int
    recommends
        element_fits(data, offset),
{
    offset + 2 + data[offset + 1]
}

/// The elements read from `offset` on, in order, up to the first place where
/// no whole element fits. A cut-off last element is left out.
pub open spec fn elements(data: Seq<u8>, offset: int) -> Seq<Element>
    decreases data.len() - offset,
{
    if element_fits(data, offset) {
        seq![element_at(data, offset)] + elements(data, element_end(data, offset))
    } else {
        Seq::empty()
    }
}

/// Where an element's payload lies in the buffer it was read from.
#[derive(Clone, Copy, Debug)]
pub struct ElementRef {
    pub id: u8,
    pub start: usize,
    pub end: usize,
}

/// One step of the reader: the element at `offset`, or `None` where the
/// element sequence ends.
pub fn next_element(data: &[u8], offset: usize) -> (r: Option<ElementRef>)
    ensures
        r.is_some() == element_fits(data@, offset as int),
        r matches Some(e) ==> {
            &&& e.id == element_at(data@, offset as int).id
            &&& e.start == offset + 2
            &&& e.end == element_end(data@, offset as int)
            &&& e.end <= data@.len()
            &&& data@.subrange(e.start as int, e.end as int) == element_at(
                data@,
                offset as int,
            ).payload
        },
{
    let n = data.len();
    if offset > n || n - offset < 2 {
        return None;
    }
    let len = data[offset + 1] as usize;
    if len > n - offset - 2 {
        return None;
    }
    Some(ElementRef { id: data[offset], start: offset + 2, end: offset + 2 + len })
}

} // verus!
