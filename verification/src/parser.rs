//! The beacon parser: from a beacon frame to a network record.

use vstd::prelude::*;
use vstd::slice::*;
use vstd::string::*;
use vstd::utf8::*;
use crate::frame::{element_at, elements, is_beacon, is_beacon_frame, next_element, Element, MIN_FRAME_LEN};
use crate::network::{NetworkData, NetworkRecord};
use crate::text::{decode_text, format_mac, mac_text};

verus! {

/// Where the information elements of a beacon begin: behind the 24-byte
/// header, the timestamp, the beacon interval and the capability field.
pub const BEACON_ELEMENTS_OFFSET: usize = 36;

/// The channel reported when no DS Parameter Set element names one.
pub const DEFAULT_CHANNEL: u8 = 6;

/// Tag of the SSID element.
pub const TAG_SSID: u8 = 0;

/// Tag of the DS Parameter Set element.
pub const TAG_DS_PARAMETER: u8 = 3;

/// Tag of the RSN element.
pub const TAG_RSN: u8 = 48;

/// The SSID reported when no element names one.
pub open spec fn hidden_ssid() -> Seq<char> {
    "Hidden Network"@
}

/// An SSID element that names the network: well-formed text, not empty.
pub open spec fn names_network(e: Element) -> bool {
    &&& e.id == TAG_SSID
    &&& e.payload.len() > 0
    &&& valid_utf8(e.payload)
    &&& decode_utf8(e.payload).len() > 0
}

/// A DS Parameter Set element that names a channel.
pub open spec fn names_channel(e: Element) -> bool {
    e.id == TAG_DS_PARAMETER && e.payload.len() >= 1
}

/// An RSN element long enough to be one.
pub open spec fn announces_rsn(e: Element) -> bool {
    e.id == TAG_RSN && e.payload.len() >= 2
}

/// The SSID that a run of elements gives: that of the last element that
/// names the network, or the hidden-network text.
pub open spec fn ssid_of(els: Seq<Element>) -> Seq<char>
    decreases els.len(),
{
    if els.len() == 0 {
        hidden_ssid()
    } else if names_network(els.last()) {
        decode_utf8(els.last().payload)
    } else {
        ssid_of(els.drop_last())
    }
}

/// The channel that a run of elements gives: that of the last element that
/// names one, or the default.
pub open spec fn channel_of(els: Seq<Element>) -> u8
    decreases els.len(),
{
    if els.len() == 0 {
        DEFAULT_CHANNEL
    } else if names_channel(els.last()) {
        els.last().payload[0]
    } else {
        channel_of(els.drop_last())
    }
}

/// Whether some element of the run announces RSN.
pub open spec fn has_rsn(els: Seq<Element>) -> bool {
    exists|i: int| 0 <= i < els.len() && announces_rsn(#[trigger] els[i])
}

/// The encryption label that a run of elements gives.
pub open spec fn encryption_of(els: Seq<Element>) -> Seq<char> {
    if has_rsn(els) {
        "WPA2"@
    } else {
        "Open"@
    }
}

/// The signal strength made up from a frame's length.
pub open spec fn signal_of(len: nat) -> int {
    -50 - (len % 30)
}

/// The information elements of a beacon buffer.
pub open spec fn beacon_elements(data: Seq<u8>) -> Seq<Element> {
    elements(data, BEACON_ELEMENTS_OFFSET as int)
}

/// The record that a beacon buffer stands for.
pub open spec fn beacon_record(data: Seq<u8>) -> NetworkRecord {
    NetworkRecord {
        ssid: ssid_of(beacon_elements(data)),
        bssid: mac_text(data, 10),
        channel: channel_of(beacon_elements(data)),
        rssi: signal_of(data.len()) as i8,
        encryption: encryption_of(beacon_elements(data)),
    }
}

/// What parsing `data` as a beacon gives: the record of a beacon frame,
/// nothing for any other buffer.
pub open spec fn beacon_outcome(data: Seq<u8>, r: Option<NetworkData>) -> bool {
    &&& r.is_some() == is_beacon(data)
    &&& r matches Some(n) ==> n@ == beacon_record(data)
}

/// Beacon frame parser for extracting network information
pub struct BeaconParser;

impl BeaconParser {
    /// Parses a buffer as a beacon frame.
    pub fn parse_beacon_frame(data: &[u8]) -> (r: Option<NetworkData>)
        ensures
            beacon_outcome(data@, r),
            data@.len() < MIN_FRAME_LEN ==> r.is_none(),
    {
        if !is_beacon_frame(data) {
            return None;
        }
        let bssid = format_mac(data, 10);
        let fields = Self::extract_network_data(data);
        Some(
            NetworkData {
                ssid: fields.0,
                bssid,
                channel: fields.1,
                rssi: fields.2,
                encryption: fields.3,
            },
        )
    }

    /// Reads SSID, channel, signal strength and encryption label from the
    /// information elements of a buffer. A buffer too short to hold any
    /// element gives the defaults.
    pub fn extract_network_data(data: &[u8]) -> (r: (String, u8, i8, String))
        ensures
            r.0@ == ssid_of(beacon_elements(data@)),
            r.1 == channel_of(beacon_elements(data@)),
            r.2 == signal_of(data@.len()),
            r.3@ == encryption_of(beacon_elements(data@)),
    {
        let mut ssid = "Hidden Network".to_owned();
        let mut channel: u8 = DEFAULT_CHANNEL;
        let mut wpa2 = false;
        let mut offset: usize = BEACON_ELEMENTS_OFFSET;
        let ghost mut done: Seq<Element> = Seq::empty();
        loop
            invariant
                beacon_elements(data@) =~= done + elements(data@, offset as int),
                ssid@ == ssid_of(done),
                channel == channel_of(done),
                wpa2 == has_rsn(done),
            ensures
                beacon_elements(data@) =~= done,
            decreases data@.len() - offset,
        {
            let step = next_element(data, offset);
            if step.is_none() {
                break ;
            }
            let e = step.unwrap();
            let ghost el = element_at(data@, offset as int);
            proof {
                let grown = done.push(el);
                assert(grown.drop_last() =~= done);
                assert(grown.last() == el);
                assert(done + (seq![el] + elements(data@, e.end as int)) =~= grown + elements(
                    data@,
                    e.end as int,
                ));
                assert(has_rsn(grown) == (has_rsn(done) || announces_rsn(el))) by {
                    if has_rsn(done) {
                        let i = choose|i: int| 0 <= i < done.len() && announces_rsn(#[trigger] done[i]);
                        assert(announces_rsn(grown[i]));
                    }
                    if announces_rsn(el) {
                        assert(announces_rsn(grown[done.len() as int]));
                    }
                    if has_rsn(grown) {
                        let i = choose|i: int| 0 <= i < grown.len() && announces_rsn(#[trigger] grown[i]);
                        if i < done.len() {
                            assert(announces_rsn(done[i]));
                        }
                    }
                }
            }
            if e.id == TAG_SSID {
                if e.end > e.start {
                    let bytes = slice_to_vec(slice_subrange(data, e.start, e.end));
                    match decode_text(bytes) {
                        Some(name) => {
                            if !name.as_str().is_empty() {
                                ssid = name;
                            }
                        },
                        None => {},
                    }
                }
            } else if e.id == TAG_DS_PARAMETER {
                if e.end > e.start {
                    channel = data[e.start];
                }
            } else if e.id == TAG_RSN {
                if e.end - e.start >= 2 {
                    wpa2 = true;
                }
            }
            offset = e.end;
            proof {
                done = done.push(el);
            }
        }
        let rssi: i8 = -50 - ((data.len() % 30) as i8);
        let encryption = if wpa2 {
            "WPA2".to_owned()
        } else {
            "Open".to_owned()
        };
        (ssid, channel, rssi, encryption)
    }
}

/// A buffer with no SSID element reads as a hidden network, one with no DS
/// Parameter Set element as channel six, and the encryption label is
/// `WPA2` exactly when some RSN element is at least two bytes long.
pub proof fn lemma_beacon_defaults(data: Seq<u8>)
    ensures
        (forall|i: int|
            0 <= i < beacon_elements(data).len() ==> (#[trigger] beacon_elements(data)[i]).id
                != TAG_SSID) ==> beacon_record(data).ssid == hidden_ssid(),
        (forall|i: int|
            0 <= i < beacon_elements(data).len() ==> (#[trigger] beacon_elements(data)[i]).id
                != TAG_DS_PARAMETER) ==> beacon_record(data).channel == DEFAULT_CHANNEL,
        (exists|i: int|
            0 <= i < beacon_elements(data).len() && (#[trigger] beacon_elements(data)[i]).id
                == TAG_RSN && beacon_elements(data)[i].payload.len() >= 2)
            ==> beacon_record(data).encryption == "WPA2"@,
        !(exists|i: int|
            0 <= i < beacon_elements(data).len() && (#[trigger] beacon_elements(data)[i]).id
                == TAG_RSN && beacon_elements(data)[i].payload.len() >= 2)
            ==> beacon_record(data).encryption == "Open"@,
{
    let els = beacon_elements(data);
    lemma_defaults_of(els);
    if has_rsn(els) {
        let i = choose|i: int| 0 <= i < els.len() && announces_rsn(#[trigger] els[i]);
        assert(els[i].id == TAG_RSN && els[i].payload.len() >= 2);
    }
}

/// A run of elements without an SSID element gives the hidden-network text,
/// and one without a DS Parameter Set element gives the default channel.
pub proof fn lemma_defaults_of(els: Seq<Element>)
    ensures
        (forall|i: int| 0 <= i < els.len() ==> (#[trigger] els[i]).id != TAG_SSID) ==> ssid_of(els)
            == hidden_ssid(),
        (forall|i: int| 0 <= i < els.len() ==> (#[trigger] els[i]).id != TAG_DS_PARAMETER)
            ==> channel_of(els) == DEFAULT_CHANNEL,
    decreases els.len(),
{
    if els.len() > 0 {
        let rest = els.drop_last();
        lemma_defaults_of(rest);
        assert(forall|i: int| 0 <= i < rest.len() ==> rest[i] == els[i]);
        assert(els.last() == els[els.len() - 1]);
    }
}

/// Parsing is a function of the buffer: two parses of one buffer agree on
/// whether there is a record and on everything in it.
pub proof fn lemma_parse_repeatable(
    data: Seq<u8>,
    first: Option<NetworkData>,
    second: Option<NetworkData>,
)
    requires
        beacon_outcome(data, first),
        beacon_outcome(data, second),
    ensures
        first.is_some() == second.is_some(),
        first.is_some() ==> first.unwrap()@ == second.unwrap()@,
{
}

} // verus!
