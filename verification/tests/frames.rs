use wifite3::frame::{classify, is_beacon_frame, is_eapol_frame, next_element, read_word, FrameKind};
use wifite3::parser::BeaconParser;
use wifite3::pmkid::PMKIDParser;
use wifite3::text::{format_mac, hex_encode, remove_colons, starts_with, str_eq};

fn beacon_header(src: [u8; 6]) -> Vec<u8> {
    let mut f = vec![0x80, 0x00, 0x00, 0x00];
    f.extend_from_slice(&[0xff; 6]);
    f.extend_from_slice(&src);
    f.extend_from_slice(&src);
    f.extend_from_slice(&[0x00, 0x00]);
    f.extend_from_slice(&[0u8; 12]);
    f
}

fn beacon_with(src: [u8; 6], elements: &[u8]) -> Vec<u8> {
    let mut f = beacon_header(src);
    f.extend_from_slice(elements);
    f
}

const AP: [u8; 6] = [0xaa, 0xbb, 0xcc, 0xdd, 0xee, 0xff];

#[test]
fn short_buffers_are_unrecognized() {
    for n in 0..24usize {
        let mut buf = vec![0u8; n];
        if n > 0 {
            buf[0] = 0x80;
        }
        if n > 13 {
            buf[12] = 0x88;
            buf[13] = 0x8e;
        }
        assert_eq!(classify(&buf), FrameKind::Unrecognized);
        assert!(BeaconParser::parse_beacon_frame(&buf).is_none());
        assert!(PMKIDParser::parse_eapol_frame(&buf).is_none());
    }
}

#[test]
fn classify_beacon() {
    let f = beacon_header(AP);
    assert_eq!(f.len(), 36);
    assert_eq!(classify(&f), FrameKind::ManagementBeacon);
    assert!(is_beacon_frame(&f));
    assert!(!is_eapol_frame(&f));
}

#[test]
fn classify_beacon_ignores_flag_byte_and_low_bits() {
    let mut f = vec![0u8; 24];
    f[0] = 0x83;
    f[1] = 0xff;
    assert_eq!(classify(&f), FrameKind::ManagementBeacon);
}

#[test]
fn classify_rejects_other_management_and_data_frames() {
    let mut probe = vec![0u8; 24];
    probe[0] = 0x40;
    assert_eq!(classify(&probe), FrameKind::Unrecognized);
    let mut data = vec![0u8; 24];
    data[0] = 0x88;
    assert_eq!(classify(&data), FrameKind::Unrecognized);
    let mut control = vec![0u8; 24];
    control[0] = 0x84;
    assert_eq!(classify(&control), FrameKind::Unrecognized);
}

#[test]
fn classify_eapol() {
    let mut f = vec![0u8; 24];
    f[0] = 0x08;
    f[12] = 0x88;
    f[13] = 0x8e;
    assert_eq!(classify(&f), FrameKind::Eapol);
    f[12] = 0x8e;
    f[13] = 0x88;
    assert_eq!(classify(&f), FrameKind::Unrecognized);
}

#[test]
fn classify_prefers_beacon_when_both_fit() {
    let mut f = beacon_header(AP);
    f[12] = 0x88;
    f[13] = 0x8e;
    assert_eq!(classify(&f), FrameKind::ManagementBeacon);
    assert!(is_eapol_frame(&f));
}

#[test]
fn read_word_is_low_byte_first() {
    assert_eq!(read_word(0x34, 0x12), 0x1234);
    assert_eq!(read_word(0xff, 0xff), 0xffff);
    assert_eq!(read_word(0, 0), 0);
}

#[test]
fn next_element_reads_tag_and_bounds() {
    let data = [7u8, 7, 0, 3, b'a', b'b', b'c', 9];
    let e = next_element(&data, 2).unwrap();
    assert_eq!(e.id, 0);
    assert_eq!(e.start, 4);
    assert_eq!(e.end, 7);
    assert_eq!(&data[e.start..e.end], b"abc");
}

#[test]
fn next_element_drops_cut_off_element() {
    let data = [0u8, 5, b'a', b'b'];
    assert!(next_element(&data, 0).is_none());
    assert!(next_element(&data, 4).is_none());
    assert!(next_element(&data, usize::MAX).is_none());
}

#[test]
fn next_element_reads_empty_element_at_the_end() {
    let data = [1u8, 2, 48, 0];
    let e = next_element(&data, 2).unwrap();
    assert_eq!((e.id, e.start, e.end), (48, 4, 4));
    assert!(next_element(&data, 3).is_none());
    assert!(next_element(&data, 4).is_none());
}

#[test]
fn format_mac_is_lowercase_colon_hex() {
    let data = [0u8, 0xAA, 0x0B, 0xC0, 0x00, 0x9F, 0xff, 1];
    assert_eq!(format_mac(&data, 1), "aa:0b:c0:00:9f:ff");
}

#[test]
fn hex_encode_pads_each_byte() {
    let data = [0x00u8, 0x01, 0x0a, 0xa0, 0xff];
    assert_eq!(hex_encode(&data, 0, 5), "00010aa0ff");
    assert_eq!(hex_encode(&data, 2, 4), "0aa0");
    assert_eq!(hex_encode(&data, 3, 3), "");
}

#[test]
fn remove_colons_keeps_everything_else() {
    assert_eq!(remove_colons("aa:bb:cc:dd:ee:ff"), "aabbccddeeff");
    assert_eq!(remove_colons(":::"), "");
    assert_eq!(remove_colons("no colons"), "no colons");
    assert_eq!(remove_colons("é:ü"), "éü");
}

#[test]
fn starts_with_and_str_eq() {
    assert!(starts_with("wlan0", "wlan"));
    assert!(starts_with("wlan", "wlan"));
    assert!(!starts_with("wla", "wlan"));
    assert!(starts_with("anything", ""));
    assert!(!starts_with("xwlan", "wlan"));
    assert!(str_eq("abc", "abc"));
    assert!(!str_eq("abc", "abd"));
    assert!(!str_eq("abc", "abcd"));
}

#[test]
fn beacon_full_record() {
    let f = beacon_with(AP, &[0, 4, b'C', b'a', b'f', b'e', 3, 1, 11, 48, 2, 1, 0]);
    assert_eq!(f.len(), 49);
    let n = BeaconParser::parse_beacon_frame(&f).unwrap();
    assert_eq!(n.ssid, "Cafe");
    assert_eq!(n.bssid, "aa:bb:cc:dd:ee:ff");
    assert_eq!(n.channel, 11);
    assert_eq!(n.rssi, -69);
    assert_eq!(n.encryption, "WPA2");
}

#[test]
fn beacon_parse_is_repeatable() {
    let f = beacon_with(AP, &[0, 4, b'C', b'a', b'f', b'e', 3, 1, 11, 48, 2, 1, 0]);
    let a = BeaconParser::parse_beacon_frame(&f).unwrap();
    let b = BeaconParser::parse_beacon_frame(&f).unwrap();
    assert_eq!(a.ssid, b.ssid);
    assert_eq!(a.bssid, b.bssid);
    assert_eq!(a.channel, b.channel);
    assert_eq!(a.rssi, b.rssi);
    assert_eq!(a.encryption, b.encryption);
}

#[test]
fn beacon_without_ssid_is_hidden() {
    let f = beacon_with(AP, &[3, 1, 1, 48, 2, 1, 0]);
    let n = BeaconParser::parse_beacon_frame(&f).unwrap();
    assert_eq!(n.ssid, "Hidden Network");
    assert_eq!(n.channel, 1);
    assert_eq!(n.encryption, "WPA2");
}

#[test]
fn beacon_with_empty_ssid_is_hidden() {
    let f = beacon_with(AP, &[0, 0, 3, 1, 1]);
    let n = BeaconParser::parse_beacon_frame(&f).unwrap();
    assert_eq!(n.ssid, "Hidden Network");
    assert_eq!(n.channel, 1);
}

#[test]
fn beacon_with_ill_formed_ssid_keeps_default() {
    let f = beacon_with(AP, &[0, 2, 0xff, 0xfe, 3, 1, 9]);
    let n = BeaconParser::parse_beacon_frame(&f).unwrap();
    assert_eq!(n.ssid, "Hidden Network");
    assert_eq!(n.channel, 9);
}

#[test]
fn beacon_ssid_is_decoded_text() {
    let f = beacon_with(AP, &[0, 5, b'c', b'a', b'f', 0xc3, 0xa9, 3, 1, 9]);
    let n = BeaconParser::parse_beacon_frame(&f).unwrap();
    assert_eq!(n.ssid, "café");
    assert_eq!(n.ssid.chars().count(), 4);
}

#[test]
fn beacon_last_ssid_wins() {
    let f = beacon_with(AP, &[0, 1, b'a', 0, 1, b'b', 0, 0, 3, 1, 2, 3, 1, 4, 7]);
    let n = BeaconParser::parse_beacon_frame(&f).unwrap();
    assert_eq!(n.ssid, "b");
    assert_eq!(n.channel, 4);
}

#[test]
fn beacon_without_channel_is_six() {
    let f = beacon_with(AP, &[0, 1, b'x', 48, 2, 1, 0]);
    let n = BeaconParser::parse_beacon_frame(&f).unwrap();
    assert_eq!(n.channel, 6);
    assert_eq!(n.ssid, "x");
}

#[test]
fn beacon_short_rsn_is_open() {
    let f = beacon_with(AP, &[48, 1, 1, 0, 1, b'x']);
    let n = BeaconParser::parse_beacon_frame(&f).unwrap();
    assert_eq!(n.encryption, "Open");
    assert_eq!(n.ssid, "x");
    let g = beacon_with(AP, &[0, 1, b'x', 221, 3, 1, 2, 3]);
    assert_eq!(BeaconParser::parse_beacon_frame(&g).unwrap().encryption, "Open");
}

#[test]
fn beacon_cut_off_element_is_dropped() {
    let f = beacon_with(AP, &[3, 1, 13, 0, 10, b'a', b'b']);
    let n = BeaconParser::parse_beacon_frame(&f).unwrap();
    assert_eq!(n.ssid, "Hidden Network");
    assert_eq!(n.channel, 13);
    assert_eq!(n.encryption, "Open");
}

#[test]
fn beacon_shorter_than_fixed_fields_gives_defaults() {
    let mut f = beacon_header(AP);
    f.truncate(24);
    let n = BeaconParser::parse_beacon_frame(&f).unwrap();
    assert_eq!(n.ssid, "Hidden Network");
    assert_eq!(n.bssid, "aa:bb:cc:dd:ee:ff");
    assert_eq!(n.channel, 6);
    assert_eq!(n.rssi, -74);
    assert_eq!(n.encryption, "Open");
}

#[test]
fn signal_strength_follows_length() {
    let (_, _, rssi, _) = BeaconParser::extract_network_data(&[0u8; 30]);
    assert_eq!(rssi, -50);
    let (_, _, rssi, _) = BeaconParser::extract_network_data(&[0u8; 59]);
    assert_eq!(rssi, -79);
    let (_, _, rssi, _) = BeaconParser::extract_network_data(&[]);
    assert_eq!(rssi, -50);
}

#[test]
fn extract_network_data_reads_elements_of_any_buffer() {
    let mut buf = vec![0u8; 36];
    buf.extend_from_slice(&[0, 3, b'n', b'e', b't', 3, 1, 36, 48, 4, 1, 0, 0, 0]);
    let (ssid, channel, rssi, encryption) = BeaconParser::extract_network_data(&buf);
    assert_eq!(ssid, "net");
    assert_eq!(channel, 36);
    assert_eq!(rssi, -50 - 20);
    assert_eq!(encryption, "WPA2");
}

#[test]
fn non_beacon_gives_no_record() {
    let mut f = beacon_with(AP, &[0, 1, b'x', 3, 1, 1]);
    f[0] = 0x50;
    assert!(BeaconParser::parse_beacon_frame(&f).is_none());
}

#[test]
fn beacon_empty_channel_element_keeps_channel() {
    let f = beacon_with(AP, &[3, 1, 11, 3, 0, 0, 1, b'x']);
    let n = BeaconParser::parse_beacon_frame(&f).unwrap();
    assert_eq!(n.channel, 11);
    assert_eq!(n.ssid, "x");
}

#[test]
fn beacon_later_unusable_ssid_keeps_the_earlier_one() {
    let f = beacon_with(AP, &[0, 2, b'o', b'k', 0, 1, 0x80, 0, 0, 3, 1, 5]);
    let n = BeaconParser::parse_beacon_frame(&f).unwrap();
    assert_eq!(n.ssid, "ok");
    assert_eq!(n.channel, 5);
}

#[test]
fn beacon_with_header_only_has_no_elements() {
    for extra in 0..2usize {
        let mut f = beacon_header(AP);
        f.extend_from_slice(&vec![48u8; extra]);
        let n = BeaconParser::parse_beacon_frame(&f).unwrap();
        assert_eq!(n.ssid, "Hidden Network");
        assert_eq!(n.channel, 6);
        assert_eq!(n.encryption, "Open");
        assert_eq!(i32::from(n.rssi), -50 - ((36 + extra) % 30) as i32);
    }
}
