//! PMKID captures and the EAPOL-Key parser that produces them.

use vstd::prelude::*;
use vstd::slice::*;
use vstd::string::*;
use crate::frame::{
    element_at, elements, frame_kind, is_beacon, is_eapol, is_eapol_frame, next_element, read_word,
    word, Element, FrameKind, MIN_FRAME_LEN,
};
use crate::parser::TAG_RSN;
use crate::text::{
    format_mac, hex_encode, hex_string, lemma_colon_hex_len, lemma_hex_string_len,
    lemma_strip_colon_hex, mac_text, remove_colons, strip_colons,
};

verus! {

/// Length of the link-layer header in front of the EAPOL header.
pub const LINK_HEADER_LEN: usize = 14;

/// Offset of the EAPOL-Key body: link-layer header plus EAPOL header.
pub const KEY_BODY_OFFSET: usize = 18;

/// The EAPOL packet type of a key frame.
pub const EAPOL_KEY: u8 = 3;

/// Length of the fixed part of an EAPOL-Key body that is skipped before
/// the information elements.
pub const KEY_HEADER_LEN: usize = 16;

/// Length of the fixed start of an RSN element: version, group cipher
/// suite and pairwise cipher suite count.
pub const RSN_PREFIX_LEN: usize = 8;

/// Length of a PMKID in bytes.
pub const PMKID_LEN: usize = 16;

/// The SSID of a capture that no beacon has been matched to.
pub open spec fn unknown_ssid() -> Seq<char> {
    "Unknown"@
}

/// The line that a cracking tool reads: a fixed tag, the PMKID, the two
/// addresses without their colons, and the SSID, joined by asterisks.
pub open spec fn hashcat_line(
    ssid: Seq<char>,
    bssid: Seq<char>,
    client_mac: Seq<char>,
    pmkid: Seq<char>,
) -> Seq<char> {
    "WPA*01*"@ + pmkid + seq!['*'] + strip_colons(bssid) + seq!['*'] + strip_colons(client_mac)
        + seq!['*'] + ssid
}

/// The one-line summary of a capture.
pub open spec fn summary_line(ssid: Seq<char>, bssid: Seq<char>, client_mac: Seq<char>) -> Seq<
    char,
> {
    "PMKID: "@ + ssid + " -> "@ + bssid + " (Client: "@ + client_mac + ")"@
}

/// The mathematical content of a PMKID capture.
pub struct PmkidRecord {
    pub ssid: Seq<char>,
    pub bssid: Seq<char>,
    pub client_mac: Seq<char>,
    pub pmkid: Seq<char>,
    pub hashcat_format: Seq<char>,
}

/// The capture made of four values, with the line derived from them.
pub open spec fn pmkid_record(
    ssid: Seq<char>,
    bssid: Seq<char>,
    client_mac: Seq<char>,
    pmkid: Seq<char>,
) -> PmkidRecord {
    PmkidRecord {
        ssid,
        bssid,
        client_mac,
        pmkid,
        hashcat_format: hashcat_line(ssid, bssid, client_mac, pmkid),
    }
}

/// Whether the line of a capture is the one its other four fields give.
pub open spec fn is_consistent(r: PmkidRecord) -> bool {
    r.hashcat_format == hashcat_line(r.ssid, r.bssid, r.client_mac, r.pmkid)
}

/// PMKID capture data structure
#[derive(Debug, Clone)]
pub struct PMKIDCapture {
    pub ssid: String,
    pub bssid: String,
    pub client_mac: String,
    pub pmkid: String,
    pub hashcat_format: String,
}

/// PMKID capture result
#[derive(Debug, Clone)]
pub struct PMKIDData {
    pub ssid: String,
    pub bssid: String,
    pub client_mac: String,
    pub pmkid: String,
    pub hashcat_format: String,
}

impl View for PMKIDCapture {
    type V = PmkidRecord;

    open spec fn view(&self) -> PmkidRecord {
        PmkidRecord {
            ssid: self.ssid@,
            bssid: self.bssid@,
            client_mac: self.client_mac@,
            pmkid: self.pmkid@,
            hashcat_format: self.hashcat_format@,
        }
    }
}

impl View for PMKIDData {
    type V = PmkidRecord;

    open spec fn view(&self) -> PmkidRecord {
        PmkidRecord {
            ssid: self.ssid@,
            bssid: self.bssid@,
            client_mac: self.client_mac@,
            pmkid: self.pmkid@,
            hashcat_format: self.hashcat_format@,
        }
    }
}

/// Builds the line for a cracking tool from the four fields of a capture.
pub fn format_hashcat(ssid: &str, bssid: &str, client_mac: &str, pmkid: &str) -> (line: String)
    ensures
        line@ == hashcat_line(ssid@, bssid@, client_mac@, pmkid@),
{
    let mut line = "WPA*01*".to_owned();
    line.append(pmkid);
    line.push('*');
    line.append(remove_colons(bssid).as_str());
    line.push('*');
    line.append(remove_colons(client_mac).as_str());
    line.push('*');
    line.append(ssid);
    assert(line@ =~= hashcat_line(ssid@, bssid@, client_mac@, pmkid@));
    line
}

impl PMKIDCapture {
    /// A capture of the four given values; the line for the cracking tool
    /// is derived from them.
    pub fn new(ssid: String, bssid: String, client_mac: String, pmkid: String) -> (r: Self)
        ensures
            r@ == pmkid_record(ssid@, bssid@, client_mac@, pmkid@),
            is_consistent(r@),
    {
        let hashcat_format = format_hashcat(
            ssid.as_str(),
            bssid.as_str(),
            client_mac.as_str(),
            pmkid.as_str(),
        );
        Self { ssid, bssid, client_mac, pmkid, hashcat_format }
    }

    /// Get a summary of the PMKID capture
    pub fn get_summary(&self) -> (s: String)
        ensures
            s@ == summary_line(self.ssid@, self.bssid@, self.client_mac@),
    {
        let mut s = "PMKID: ".to_owned();
        s.append(self.ssid.as_str());
        s.append(" -> ");
        s.append(self.bssid.as_str());
        s.append(" (Client: ");
        s.append(self.client_mac.as_str());
        s.append(")");
        s
    }
}

/// The PMKID held in the body of an RSN element, if it holds one. The AKM
/// suite count is read right behind the fixed eight-byte start; the AKM
/// suites, the capabilities and the PMKID count follow it.
pub open spec fn rsn_pmkid(rsn: Seq<u8>) -> Option<Seq<u8>> {
    if rsn.len() < RSN_PREFIX_LEN + 2 {
        None
    } else {
        let akm_count = word(rsn[8], rsn[9]);
        let count_at = RSN_PREFIX_LEN + 2 + 4 * akm_count + 2;
        if count_at + 2 > rsn.len() {
            None
        } else if word(rsn[count_at], rsn[count_at + 1]) > 0 && count_at + 2 + PMKID_LEN
            <= rsn.len() {
            Some(rsn.subrange(count_at + 2, count_at + 2 + PMKID_LEN))
        } else {
            None
        }
    }
}

/// The payload of the first RSN element of a run.
pub open spec fn first_rsn(els: Seq<Element>) -> Option<Seq<u8>>
    decreases els.len(),
{
    if els.len() == 0 {
        None
    } else if els[0].id == TAG_RSN {
        Some(els[0].payload)
    } else {
        first_rsn(els.drop_first())
    }
}

/// The PMKID held in an EAPOL-Key body: that of the first RSN element
/// behind the fixed key header.
pub open spec fn key_data_pmkid(key_data: Seq<u8>) -> Option<Seq<u8>> {
    if key_data.len() < KEY_HEADER_LEN {
        None
    } else {
        match first_rsn(elements(key_data, KEY_HEADER_LEN as int)) {
            Some(rsn) => rsn_pmkid(rsn),
            None => None,
        }
    }
}

/// The EAPOL packet type of a buffer.
pub open spec fn packet_type(data: Seq<u8>) -> u8
    recommends
        data.len() > LINK_HEADER_LEN + 1,
{
    data[LINK_HEADER_LEN + 1]
}

/// The EAPOL body length of a buffer, big-endian.
pub open spec fn body_length(data: Seq<u8>) -> int
    recommends
        data.len() >= KEY_BODY_OFFSET,
{
    word(data[LINK_HEADER_LEN + 3], data[LINK_HEADER_LEN + 2])
}

/// The EAPOL-Key body of a buffer: the announced number of bytes behind
/// the EAPOL header.
pub open spec fn key_body(data: Seq<u8>) -> Seq<u8>
    recommends
        data.len() >= KEY_BODY_OFFSET + body_length(data),
{
    data.subrange(KEY_BODY_OFFSET as int, KEY_BODY_OFFSET + body_length(data))
}

/// The PMKID held in a buffer with an EAPOL header: the buffer is a key
/// frame, the announced body is there in full, and the body holds a PMKID.
pub open spec fn eapol_pmkid(data: Seq<u8>) -> Option<Seq<u8>> {
    if data.len() < KEY_BODY_OFFSET {
        None
    } else if packet_type(data) != EAPOL_KEY {
        None
    } else if data.len() < KEY_BODY_OFFSET + body_length(data) {
        None
    } else {
        key_data_pmkid(key_body(data))
    }
}

/// The capture that a buffer stands for, with the SSID still unknown.
pub open spec fn eapol_record(data: Seq<u8>) -> Option<PmkidRecord> {
    if !is_eapol(data) {
        None
    } else {
        match eapol_pmkid(data) {
            Some(p) => Some(
                pmkid_record(unknown_ssid(), mac_text(data, 4), mac_text(data, 10), hex_string(p)),
            ),
            None => None,
        }
    }
}

/// Whether `r` is the lowercase hex of `bytes`, or nothing where there are
/// no bytes.
pub open spec fn is_hex_of(r: Option<String>, bytes: Option<Seq<u8>>) -> bool {
    &&& r.is_some() == bytes.is_some()
    &&& r matches Some(s) ==> s@ == hex_string(bytes.unwrap())
}

/// PMKID parser for extracting PMKID from EAPOL frames
pub struct PMKIDParser;

impl PMKIDParser {
    /// Parse EAPOL frame for PMKID
    pub fn parse_eapol_frame(data: &[u8]) -> (r: Option<PMKIDData>)
        ensures
            r.is_some() == eapol_record(data@).is_some(),
            r matches Some(d) ==> d@ == eapol_record(data@).unwrap() && is_consistent(d@),
            data@.len() < MIN_FRAME_LEN ==> r.is_none(),
            data@.len() >= MIN_FRAME_LEN && packet_type(data@) != EAPOL_KEY ==> r.is_none(),
    {
        if !is_eapol_frame(data) {
            return None;
        }
        let bssid = match Self::extract_mac_address(data, 4) {
            Some(m) => m,
            None => { return None; },
        };
        let client_mac = match Self::extract_mac_address(data, 10) {
            Some(m) => m,
            None => { return None; },
        };
        let pmkid = match Self::extract_pmkid_from_eapol(data) {
            Some(p) => p,
            None => { return None; },
        };
        let ssid = "Unknown".to_owned();
        let hashcat_format = format_hashcat(
            ssid.as_str(),
            bssid.as_str(),
            client_mac.as_str(),
            pmkid.as_str(),
        );
        Some(PMKIDData { ssid, bssid, client_mac, pmkid, hashcat_format })
    }

    /// Extract MAC address from packet
    pub fn extract_mac_address(data: &[u8], offset: usize) -> (r: Option<String>)
        ensures
            r.is_some() == (offset + 6 <= data@.len()),
            r matches Some(s) ==> s@ == mac_text(data@, offset as int),
    {
        if offset > data.len() || data.len() - offset < 6 {
            return None;
        }
        Some(format_mac(data, offset))
    }

    /// Extract PMKID from EAPOL frame
    pub fn extract_pmkid_from_eapol(data: &[u8]) -> (r: Option<String>)
        ensures
            is_hex_of(r, eapol_pmkid(data@)),
    {
        if data.len() < KEY_BODY_OFFSET {
            return None;
        }
        let packet_type = data[LINK_HEADER_LEN + 1];
        let body_length = read_word(data[LINK_HEADER_LEN + 3], data[LINK_HEADER_LEN + 2]);
        if packet_type != EAPOL_KEY {
            return None;
        }
        if data.len() - KEY_BODY_OFFSET < body_length as usize {
            return None;
        }
        Self::extract_pmkid_from_rsn_ie(
            slice_subrange(data, KEY_BODY_OFFSET, KEY_BODY_OFFSET + body_length as usize),
        )
    }

    /// Extract PMKID from RSN Information Element
    pub fn extract_pmkid_from_rsn_ie(key_data: &[u8]) -> (r: Option<String>)
        ensures
            is_hex_of(r, key_data_pmkid(key_data@)),
    {
        if key_data.len() < KEY_HEADER_LEN {
            return None;
        }
        let mut offset: usize = KEY_HEADER_LEN;
        loop
            invariant
                key_data@.len() >= KEY_HEADER_LEN,
                first_rsn(elements(key_data@, KEY_HEADER_LEN as int)) == first_rsn(
                    elements(key_data@, offset as int),
                ),
            ensures
                first_rsn(elements(key_data@, KEY_HEADER_LEN as int)).is_none(),
            decreases key_data@.len() - offset,
        {
            let step = next_element(key_data, offset);
            if step.is_none() {
                break ;
            }
            let e = step.unwrap();
            proof {
                let el = element_at(key_data@, offset as int);
                let rest = elements(key_data@, e.end as int);
                let run = seq![el] + rest;
                assert(run[0] == el);
                assert(run.drop_first() =~= rest);
            }
            if e.id == TAG_RSN {
                return Self::parse_rsn_ie_for_pmkid(slice_subrange(key_data, e.start, e.end));
            }
            offset = e.end;
        }
        None
    }

    /// Parse RSN IE for PMKID
    pub fn parse_rsn_ie_for_pmkid(rsn_data: &[u8]) -> (r: Option<String>)
        ensures
            is_hex_of(r, rsn_pmkid(rsn_data@)),
            r matches Some(s) ==> s@.len() == 2 * PMKID_LEN,
    {
        let n = rsn_data.len();
        if n < RSN_PREFIX_LEN + 2 {
            return None;
        }
        let akm_count = read_word(rsn_data[8], rsn_data[9]) as usize;
        let count_at: usize = RSN_PREFIX_LEN + 2 + 4 * akm_count + 2;
        if n < count_at || n - count_at < 2 {
            return None;
        }
        let pmkid_count = read_word(rsn_data[count_at], rsn_data[count_at + 1]);
        if pmkid_count > 0 && n - count_at - 2 >= PMKID_LEN {
            Some(hex_encode(rsn_data, count_at + 2, count_at + 2 + PMKID_LEN))
        } else {
            None
        }
    }
}

/// A buffer whose EAPOL packet type is not that of a key frame holds no
/// PMKID, whatever bytes follow the header.
pub proof fn lemma_only_key_frames(data: Seq<u8>)
    requires
        packet_type(data) != EAPOL_KEY,
    ensures
        eapol_pmkid(data).is_none(),
        eapol_record(data).is_none(),
{
}

/// The capture read from a buffer names its three parts in full: a PMKID
/// of thirty-two hex digits, two addresses of seventeen characters, and a
/// line in which each address stands as the twelve hex digits of its octets.
pub proof fn lemma_capture_line(data: Seq<u8>)
    requires
        eapol_record(data).is_some(),
    ensures
        is_consistent(eapol_record(data).unwrap()),
        eapol_record(data).unwrap().ssid == unknown_ssid(),
        eapol_record(data).unwrap().pmkid.len() == 2 * PMKID_LEN,
        eapol_record(data).unwrap().bssid.len() == 17,
        eapol_record(data).unwrap().client_mac.len() == 17,
        eapol_record(data).unwrap().hashcat_format == "WPA*01*"@ + eapol_record(
            data,
        ).unwrap().pmkid + seq!['*'] + hex_string(data.subrange(4, 10)) + seq!['*'] + hex_string(
            data.subrange(10, 16),
        ) + seq!['*'] + unknown_ssid(),
{
    let pmkid = eapol_pmkid(data).unwrap();
    lemma_hex_string_len(pmkid);
    lemma_colon_hex_len(data.subrange(4, 10));
    lemma_colon_hex_len(data.subrange(10, 16));
    lemma_strip_colon_hex(data.subrange(4, 10));
    lemma_strip_colon_hex(data.subrange(10, 16));
}

/// A buffer shorter than a full header is of no kind: it is not a beacon,
/// not an EAPOL frame, and gives no capture.
pub proof fn lemma_short_buffer(data: Seq<u8>)
    requires
        data.len() < MIN_FRAME_LEN,
    ensures
        frame_kind(data) == FrameKind::Unrecognized,
        !is_beacon(data),
        !is_eapol(data),
        eapol_record(data).is_none(),
{
}

} // verus!
