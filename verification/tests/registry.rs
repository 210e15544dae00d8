use wifite3::builder::NetworkBuilder;
use wifite3::cache::SsidCache;
use wifite3::error::ScanError;
use wifite3::network::{NetworkData, WiFiNetwork};
use wifite3::scanner::{DeviceManager, NetworkScanner, MAX_SCAN_PACKETS};

fn record(ssid: &str, bssid: &str, channel: u8) -> NetworkData {
    NetworkData {
        ssid: ssid.to_string(),
        bssid: bssid.to_string(),
        channel,
        rssi: -60,
        encryption: "Open".to_string(),
    }
}

fn beacon(src: [u8; 6], ssid: &str) -> Vec<u8> {
    let mut f = vec![0x80, 0x00, 0x00, 0x00];
    f.extend_from_slice(&[0xff; 6]);
    f.extend_from_slice(&src);
    f.extend_from_slice(&src);
    f.extend_from_slice(&[0x00, 0x00]);
    f.extend_from_slice(&[0u8; 12]);
    f.push(0);
    f.push(ssid.len() as u8);
    f.extend_from_slice(ssid.as_bytes());
    f.extend_from_slice(&[3, 1, 1]);
    f
}

fn eapol(bssid: [u8; 6]) -> Vec<u8> {
    let mut f = vec![0u8; 4];
    f.extend_from_slice(&bssid);
    f.extend_from_slice(&[0x11, 0x22, 0x88, 0x8e, 2, 3]);
    let mut body = vec![0u8; 16];
    body.extend_from_slice(&[48, 30]);
    body.extend_from_slice(&[1, 0, 0, 0x0f, 0xac, 4, 1, 0]);
    body.extend_from_slice(&[0, 0]);
    body.extend_from_slice(&[0, 0]);
    body.extend_from_slice(&[1, 0]);
    body.extend_from_slice(&[0xabu8; 16]);
    f.extend_from_slice(&(body.len() as u16).to_be_bytes());
    f.extend_from_slice(&body);
    f
}

fn names(list: &[&str]) -> Vec<String> {
    list.iter().map(|s| s.to_string()).collect()
}

#[test]
fn network_new_keeps_fields() {
    let n = WiFiNetwork::new("a".to_string(), "b".to_string(), 3, -4, "e".to_string());
    assert_eq!(n.ssid, "a");
    assert_eq!(n.bssid, "b");
    assert_eq!(n.channel, 3);
    assert_eq!(n.rssi, -4);
    assert_eq!(n.encryption, "e");
}

#[test]
fn registry_starts_empty() {
    let b = NetworkBuilder::new();
    assert_eq!(b.len(), 0);
    assert!(b.get_networks().is_empty());
}

#[test]
fn registry_same_bssid_leaves_the_second() {
    let mut b = NetworkBuilder::new();
    b.add_network(record("first", "aa:bb:cc:dd:ee:ff", 1));
    b.add_network(record("second", "aa:bb:cc:dd:ee:ff", 2));
    let all = b.get_networks();
    assert_eq!(all.len(), 1);
    assert_eq!(all[0].ssid, "second");
    assert_eq!(all[0].bssid, "aa:bb:cc:dd:ee:ff");
    assert_eq!(all[0].channel, 2);
}

#[test]
fn registry_keeps_distinct_bssids() {
    let mut b = NetworkBuilder::new();
    b.add_network(record("one", "00:00:00:00:00:01", 1));
    b.add_network(record("two", "00:00:00:00:00:02", 2));
    b.add_network(record("uno", "00:00:00:00:00:01", 3));
    assert_eq!(b.len(), 2);
    let all = b.get_networks();
    assert_eq!(all[0].ssid, "uno");
    assert_eq!(all[0].channel, 3);
    assert_eq!(all[1].ssid, "two");
}

#[test]
fn cache_observe_then_resolve() {
    let mut c = SsidCache::new();
    assert_eq!(c.resolve("aa:bb:cc:dd:ee:ff"), "Unknown");
    c.observe("aa:bb:cc:dd:ee:ff".to_string(), "Cafe".to_string());
    assert_eq!(c.resolve("aa:bb:cc:dd:ee:ff"), "Cafe");
    assert_eq!(c.resolve("aa:bb:cc:dd:ee:00"), "Unknown");
    c.observe("aa:bb:cc:dd:ee:ff".to_string(), "Bar".to_string());
    assert_eq!(c.resolve("aa:bb:cc:dd:ee:ff"), "Bar");
    assert_eq!(c.entries(), vec![("aa:bb:cc:dd:ee:ff".to_string(), "Bar".to_string())]);
    c.clear();
    assert_eq!(c.resolve("aa:bb:cc:dd:ee:ff"), "Unknown");
    assert!(c.entries().is_empty());
}

#[test]
fn scanner_new_and_test_method() {
    let s = NetworkScanner::new("wlan0".to_string());
    assert_eq!(s.interface_name(), "wlan0");
    assert_eq!(s.test_method(), "test");
    assert!(s.get_ssid_cache().is_empty());
}

#[test]
fn scan_reports_one_record_per_bssid() {
    let s = NetworkScanner::new("wlan0".to_string());
    let packets = vec![
        beacon([1, 1, 1, 1, 1, 1], "one"),
        vec![0u8; 40],
        beacon([2, 2, 2, 2, 2, 2], "two"),
        beacon([1, 1, 1, 1, 1, 1], "uno"),
        eapol([1, 1, 1, 1, 1, 1]),
    ];
    let found = s.scan(&packets);
    assert_eq!(found.len(), 2);
    assert_eq!(found[0].bssid, "01:01:01:01:01:01");
    assert_eq!(found[0].ssid, "uno");
    assert_eq!(found[1].bssid, "02:02:02:02:02:02");
    assert_eq!(found[1].ssid, "two");
}

#[test]
fn scan_looks_at_no_more_than_the_bound() {
    assert_eq!(MAX_SCAN_PACKETS, 100);
    let s = NetworkScanner::new("wlan0".to_string());
    let mut packets = Vec::new();
    for i in 0..150u8 {
        packets.push(beacon([0, 0, 0, 0, 0, i], "net"));
    }
    let found = s.scan(&packets);
    assert_eq!(found.len(), 100);
    assert_eq!(found[99].bssid, "00:00:00:00:00:63");
    assert!(s.scan(&Vec::new()).is_empty());
}

#[test]
fn capture_without_correlation_reports_unknown() {
    let s = NetworkScanner::new("wlan0".to_string());
    let packets = vec![beacon([0xaa, 0xbb, 0xcc, 0xdd, 0xee, 0xff], "Cafe"), eapol([0xaa, 0xbb, 0xcc, 0xdd, 0xee, 0xff]), vec![1, 2, 3]];
    let got = s.capture_pmkid(&packets);
    assert_eq!(got.len(), 1);
    assert_eq!(got[0].ssid, "Unknown");
    assert_eq!(got[0].pmkid, "abababababababababababababababab");
    assert_eq!(
        got[0].hashcat_format,
        "WPA*01*abababababababababababababababab*aabbccddeeff*1122888e0203*Unknown"
    );
}

#[test]
fn capture_with_correlation_takes_ssid_from_beacon() {
    let mut s = NetworkScanner::new("wlan0".to_string());
    let ap = [0xaa, 0xbb, 0xcc, 0xdd, 0xee, 0xff];
    let other = [0xaa, 0xbb, 0xcc, 0xdd, 0xee, 0x00];
    let packets = vec![eapol(other), beacon(ap, "Cafe"), eapol(ap), beacon(other, "Late"), eapol(other)];
    let got = s.capture_pmkid_with_correlation(&packets);
    assert_eq!(got.len(), 3);
    assert_eq!(got[0].ssid, "Unknown");
    assert_eq!(got[1].ssid, "Cafe");
    assert_eq!(
        got[1].hashcat_format,
        "WPA*01*abababababababababababababababab*aabbccddeeff*1122888e0203*Cafe"
    );
    assert_eq!(got[2].ssid, "Late");
    assert_eq!(
        s.get_ssid_cache(),
        vec![
            ("aa:bb:cc:dd:ee:ff".to_string(), "Cafe".to_string()),
            ("aa:bb:cc:dd:ee:00".to_string(), "Late".to_string()),
        ]
    );
    s.clear_ssid_cache();
    assert!(s.get_ssid_cache().is_empty());
    assert_eq!(s.interface_name(), "wlan0");
}

#[test]
fn correlate_packet_step_by_step() {
    let mut s = NetworkScanner::new("mon0".to_string());
    let ap = [1, 2, 3, 4, 5, 6];
    assert!(s.correlate_packet(&beacon(ap, "Cafe")).is_none());
    let c = s.correlate_packet(&eapol(ap)).unwrap();
    assert_eq!(c.ssid, "Cafe");
    assert_eq!(c.bssid, "01:02:03:04:05:06");
    let u = s.correlate_packet(&eapol([9, 9, 9, 9, 9, 9])).unwrap();
    assert_eq!(u.ssid, "Unknown");
    assert!(s.correlate_packet(&[0u8; 10]).is_none());
}

#[test]
fn find_device_gives_first_match() {
    let m = DeviceManager::new("wlan1".to_string());
    assert_eq!(m.find_device(&names(&["lo", "wlan1", "eth0", "wlan1"])).unwrap(), 1);
    assert!(m.find_device(&Vec::new()).is_err());
    match m.find_device(&names(&["lo", "wlan10"])) {
        Err(ScanError::InterfaceNotFound(name)) => assert_eq!(name, "wlan1"),
        other => panic!("unexpected: {:?}", other),
    }
}

#[test]
fn error_messages() {
    assert_eq!(
        ScanError::InterfaceNotFound("wlan1".to_string()).message(),
        "Interface 'wlan1' not found"
    );
    assert_eq!(
        ScanError::DeviceList("no permission".to_string()).message(),
        "Failed to list devices: no permission"
    );
    assert_eq!(
        ScanError::CaptureCreate("busy".to_string()).message(),
        "Failed to create capture: busy"
    );
    assert_eq!(
        ScanError::CaptureOpen("down".to_string()).message(),
        "Failed to open capture: down"
    );
    assert_eq!(
        ScanError::CacheLock("poisoned".to_string()).message(),
        "Failed to lock cache: poisoned"
    );
}

#[test]
fn list_interfaces_prefers_network_cards() {
    let got = DeviceManager::list_interfaces(&names(&["lo", "wlan0", "any", "wlp3s0", "en0", "eth1"]));
    assert_eq!(got, names(&["wlan0", "wlp3s0", "en0", "eth1"]));
    assert_eq!(NetworkScanner::get_interfaces(&names(&["lo", "wlan0"])), names(&["wlan0"]));
}

#[test]
fn list_interfaces_falls_back_to_all() {
    let all = names(&["lo", "any", "bluetooth0"]);
    assert_eq!(DeviceManager::list_interfaces(&all), all);
    assert!(DeviceManager::list_interfaces(&Vec::new()).is_empty());
}

#[test]
fn wireless_interface_prefixes() {
    assert!(DeviceManager::is_wireless_interface("wlan0"));
    assert!(DeviceManager::is_wireless_interface("wlp2s0"));
    assert!(DeviceManager::is_wireless_interface("en0"));
    assert!(DeviceManager::is_wireless_interface("eth0"));
    assert!(!DeviceManager::is_wireless_interface("lo"));
    assert!(!DeviceManager::is_wireless_interface("wl"));
    assert!(!DeviceManager::is_wireless_interface(""));
}
