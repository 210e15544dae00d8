//! The scan orchestrator: which interface to open, and what a run of
//! captured buffers adds up to in each of the three scan modes.

use vstd::prelude::*;
use vstd::string::*;
use crate::builder::{distinct_bssids, has_bssid, lemma_upsert, records_of, upsert, NetworkBuilder};
use crate::cache::{
    distinct_keys, has_key, lemma_observe_then_resolve, pairs_of, put, resolved, unresolved, Pair,
    SsidCache,
};
use crate::error::ScanError;
use crate::frame::is_beacon;
use crate::network::{NetworkRecord, WiFiNetwork};
use crate::parser::{beacon_record, BeaconParser};
use crate::pmkid::{eapol_record, pmkid_record, PMKIDCapture, PMKIDParser, PmkidRecord};
use crate::text::starts_with;

verus! {

/// The most buffers that one discovery scan looks at.
pub const MAX_SCAN_PACKETS: usize = 100;

/// The bytes of a run of buffers.
pub open spec fn buffers(packets: Seq<Vec<u8>>) -> Seq<Seq<u8>> {
    packets.map_values(|p: Vec<u8>| p@)
}

/// The plain text of a run of names.
pub open spec fn texts(names: Seq<String>) -> Seq<Seq<char>> {
    names.map_values(|s: String| s@)
}

/// The records behind a run of captures.
pub open spec fn captures_of(captures: Seq<PMKIDCapture>) -> Seq<PmkidRecord> {
    captures.map_values(|c: PMKIDCapture| c@)
}

/// Whether an interface name looks like that of a wireless or wired network
/// card.
pub open spec fn is_wireless(name: Seq<char>) -> bool {
    ||| "wlan"@.is_prefix_of(name)
    ||| "wlp"@.is_prefix_of(name)
    ||| "en"@.is_prefix_of(name)
    ||| "eth"@.is_prefix_of(name)
}

/// The interfaces to offer: those that look wireless, or all of them where
/// none does.
pub open spec fn offered(names: Seq<Seq<char>>) -> Seq<Seq<char>> {
    let wireless = names.filter(|n: Seq<char>| is_wireless(n));
    if wireless.len() == 0 {
        names
    } else {
        wireless
    }
}

/// The registry after a run of buffers: each beacon among them, in order,
/// added to an empty registry.
pub open spec fn discovered(packets: Seq<Seq<u8>>) -> Seq<NetworkRecord>
    decreases packets.len(),
{
    if packets.len() == 0 {
        Seq::empty()
    } else if is_beacon(packets.last()) {
        upsert(discovered(packets.drop_last()), beacon_record(packets.last()))
    } else {
        discovered(packets.drop_last())
    }
}

/// How many of `n` buffers a discovery scan looks at.
pub open spec fn scan_reach(n: nat) -> nat {
    if n < MAX_SCAN_PACKETS {
        n
    } else {
        MAX_SCAN_PACKETS as nat
    }
}

/// What a discovery scan reports for a run of buffers.
pub open spec fn scan_result(packets: Seq<Seq<u8>>) -> Seq<NetworkRecord> {
    discovered(packets.take(scan_reach(packets.len()) as int))
}

/// The captures that a run of buffers holds, in order, SSIDs unknown.
pub open spec fn captured(packets: Seq<Seq<u8>>) -> Seq<PmkidRecord>
    decreases packets.len(),
{
    if packets.len() == 0 {
        Seq::empty()
    } else {
        match eapol_record(packets.last()) {
            Some(r) => captured(packets.drop_last()).push(r),
            None => captured(packets.drop_last()),
        }
    }
}

/// The cache after one buffer: a beacon notes its SSID for its BSSID.
pub open spec fn cache_after(cache: Seq<Pair>, data: Seq<u8>) -> Seq<Pair> {
    if is_beacon(data) {
        put(cache, beacon_record(data).bssid, beacon_record(data).ssid)
    } else {
        cache
    }
}

/// The capture that one buffer gives when the cache is consulted: the
/// buffer first updates the cache, then its capture, if it holds one, takes
/// the SSID that the cache has for its BSSID.
pub open spec fn correlated(cache: Seq<Pair>, data: Seq<u8>) -> Option<PmkidRecord> {
    match eapol_record(data) {
        Some(r) => Some(
            pmkid_record(
                resolved(cache_after(cache, data), r.bssid),
                r.bssid,
                r.client_mac,
                r.pmkid,
            ),
        ),
        None => None,
    }
}

/// The cache after a run of buffers.
pub open spec fn cache_after_all(cache: Seq<Pair>, packets: Seq<Seq<u8>>) -> Seq<Pair>
    decreases packets.len(),
{
    if packets.len() == 0 {
        cache
    } else {
        cache_after(cache_after_all(cache, packets.drop_last()), packets.last())
    }
}

/// The captures that a run of buffers gives when the cache is consulted.
pub open spec fn correlated_all(cache: Seq<Pair>, packets: Seq<Seq<u8>>) -> Seq<PmkidRecord>
    decreases packets.len(),
{
    if packets.len() == 0 {
        Seq::empty()
    } else {
        let earlier = correlated_all(cache, packets.drop_last());
        match correlated(cache_after_all(cache, packets.drop_last()), packets.last()) {
            Some(r) => earlier.push(r),
            None => earlier,
        }
    }
}

/// Device manager for handling network interface operations
pub struct DeviceManager {
    interface: String,
}

impl DeviceManager {
    /// The name of the interface that is looked for.
    pub closed spec fn interface(&self) -> Seq<char> {
        self.interface@
    }

    /// A manager that looks for `interface`.
    pub fn new(interface: String) -> (r: Self)
        ensures
            r.interface() == interface@,
    {
        Self { interface }
    }

    /// The place of the first device that bears the interface's name, or
    /// the error that names the interface where no device does.
    pub fn find_device(&self, names: &Vec<String>) -> (r: Result<usize, ScanError>)
        ensures
            r.is_ok() <==> texts(names@).contains(self.interface()),
            r matches Ok(i) ==> {
                &&& i < names@.len()
                &&& names@[i as int]@ == self.interface()
                &&& forall|j: int| 0 <= j < i ==> names@[j]@ != self.interface()
            },
            r matches Err(e) ==> e matches ScanError::InterfaceNotFound(name) && name@
                == self.interface(),
    {
        let n = names.len();
        let mut i: usize = 0;
        while i < n
            invariant
                i <= n,
                n == names@.len(),
                forall|j: int| 0 <= j < i ==> names@[j]@ != self.interface(),
            decreases n - i,
        {
            if names[i] == self.interface {
                assert(texts(names@)[i as int] == self.interface());
                return Ok(i);
            }
            i = i + 1;
        }
        assert forall|j: int| 0 <= j < n implies texts(names@)[j] != self.interface() by {
            assert(texts(names@)[j] == names@[j]@);
        }
        Err(ScanError::InterfaceNotFound(self.interface.clone()))
    }

    /// Picks the interfaces to offer from the names of all devices.
    pub fn list_interfaces(names: &Vec<String>) -> (r: Vec<String>)
        ensures
            texts(r@) == offered(texts(names@)),
    {
        let n = names.len();
        let ghost wanted = |n: Seq<char>| is_wireless(n);
        let mut interfaces: Vec<String> = Vec::new();
        let mut i: usize = 0;
        while i < n
            invariant
                i <= n,
                n == names@.len(),
                wanted == |n: Seq<char>| is_wireless(n),
                texts(interfaces@) =~= texts(names@).take(i as int).filter(wanted),
            decreases n - i,
        {
            proof {
                reveal(Seq::filter);
                let next = texts(names@).take(i + 1);
                assert(next.drop_last() =~= texts(names@).take(i as int));
                assert(next.last() == names@[i as int]@);
            }
            if Self::is_wireless_interface(names[i].as_str()) {
                interfaces.push(names[i].clone());
            }
            i = i + 1;
        }
        assert(texts(names@).take(n as int) =~= texts(names@));
        if interfaces.len() == 0 {
            let all = names.clone();
            assert(texts(all@) =~= texts(names@));
            all
        } else {
            interfaces
        }
    }

    /// Whether an interface name begins like that of a network card.
    pub fn is_wireless_interface(name: &str) -> (b: bool)
        ensures
            b == is_wireless(name@),
    {
        starts_with(name, "wlan") || starts_with(name, "wlp") || starts_with(name, "en")
            || starts_with(name, "eth")
    }
}

/// The capture that one buffer holds, SSID unknown.
pub fn pmkid_from_packet(data: &[u8]) -> (r: Option<PMKIDCapture>)
    ensures
        r.is_some() == eapol_record(data@).is_some(),
        r matches Some(c) ==> c@ == eapol_record(data@).unwrap(),
{
    match PMKIDParser::parse_eapol_frame(data) {
        Some(d) => Some(PMKIDCapture::new(d.ssid, d.bssid, d.client_mac, d.pmkid)),
        None => None,
    }
}

/// Network scanner for `WiFi` networks
pub struct NetworkScanner {
    interface: String,
    ssid_cache: SsidCache,
}

impl NetworkScanner {
    /// The name of the interface that the scanner listens on.
    pub closed spec fn interface(&self) -> Seq<char> {
        self.interface@
    }

    /// The entries of the scanner's correlation cache.
    pub closed spec fn cache(&self) -> Seq<Pair> {
        self.ssid_cache@
    }

    /// A scanner for `interface`, with an empty cache.
    pub fn new(interface: String) -> (r: Self)
        ensures
            r.interface() == interface@,
            r.cache() == Seq::<Pair>::empty(),
    {
        Self { interface, ssid_cache: SsidCache::new() }
    }

    /// The name of the interface that the scanner listens on.
    pub fn interface_name(&self) -> (name: &str)
        ensures
            name@ == self.interface(),
    {
        self.interface.as_str()
    }

    /// A fixed answer, to try out that the scanner can be reached.
    pub fn test_method(&self) -> (r: String)
        ensures
            r@ == "test"@,
    {
        "test".to_owned()
    }

    /// Network discovery over the buffers that the capture gave: the
    /// beacons among the first hundred, one record per BSSID.
    pub fn scan(&self, packets: &Vec<Vec<u8>>) -> (r: Vec<WiFiNetwork>)
        ensures
            records_of(r@) == scan_result(buffers(packets@)),
            distinct_bssids(records_of(r@)),
            r@.len() <= scan_reach(packets@.len()),
            r@.len() <= MAX_SCAN_PACKETS,
    {
        let mut builder = NetworkBuilder::new();
        let limit = if packets.len() < MAX_SCAN_PACKETS {
            packets.len()
        } else {
            MAX_SCAN_PACKETS
        };
        let mut i: usize = 0;
        while i < limit
            invariant
                i <= limit,
                limit == scan_reach(packets@.len()),
                limit <= packets@.len(),
                distinct_bssids(builder@),
                builder@ == discovered(buffers(packets@).take(i as int)),
                builder@.len() <= i,
            decreases limit - i,
        {
            proof {
                let next = buffers(packets@).take(i + 1);
                assert(next.drop_last() =~= buffers(packets@).take(i as int));
                assert(next.last() == packets@[i as int]@);
            }
            match BeaconParser::parse_beacon_frame(packets[i].as_slice()) {
                Some(data) => {
                    proof {
                        lemma_upsert(builder@, data@);
                    }
                    builder.add_network(data);
                },
                None => {},
            }
            i = i + 1;
        }
        let r = builder.get_networks();
        assert(records_of(r@).len() == r@.len());
        r
    }

    /// Get SSID cache for correlation
    pub fn get_ssid_cache(&self) -> (r: Vec<(String, String)>)
        ensures
            pairs_of(r@) == self.cache(),
            distinct_keys(pairs_of(r@)),
    {
        self.ssid_cache.entries()
    }

    /// Clear SSID cache
    pub fn clear_ssid_cache(&mut self)
        ensures
            final(self).cache() == Seq::<Pair>::empty(),
            final(self).interface() == old(self).interface(),
    {
        self.ssid_cache.clear();
    }

    /// One buffer of a correlated capture: a beacon warms the cache, and a
    /// capture takes its SSID from the cache.
    pub fn correlate_packet(&mut self, data: &[u8]) -> (r: Option<PMKIDCapture>)
        ensures
            final(self).interface() == old(self).interface(),
            final(self).cache() == cache_after(old(self).cache(), data@),
            distinct_keys(final(self).cache()),
            r.is_some() == correlated(old(self).cache(), data@).is_some(),
            r matches Some(c) ==> c@ == correlated(old(self).cache(), data@).unwrap(),
    {
        proof {
            use_type_invariant(&self.ssid_cache);
        }
        match BeaconParser::parse_beacon_frame(data) {
            Some(network) => {
                self.ssid_cache.observe(network.bssid, network.ssid);
            },
            None => {},
        }
        match PMKIDParser::parse_eapol_frame(data) {
            Some(d) => {
                let ssid = self.ssid_cache.resolve(d.bssid.as_str());
                Some(PMKIDCapture::new(ssid, d.bssid, d.client_mac, d.pmkid))
            },
            None => None,
        }
    }

    /// Capture PMKID from EAPOL frames with SSID correlation
    pub fn capture_pmkid_with_correlation(&mut self, packets: &Vec<Vec<u8>>) -> (r: Vec<
        PMKIDCapture,
    >)
        ensures
            final(self).interface() == old(self).interface(),
            final(self).cache() == cache_after_all(old(self).cache(), buffers(packets@)),
            distinct_keys(final(self).cache()),
            captures_of(r@) == correlated_all(old(self).cache(), buffers(packets@)),
    {
        proof {
            use_type_invariant(&self.ssid_cache);
        }
        let n = packets.len();
        let mut captures: Vec<PMKIDCapture> = Vec::new();
        let mut i: usize = 0;
        while i < n
            invariant
                i <= n,
                n == packets@.len(),
                self.interface() == old(self).interface(),
                distinct_keys(self.cache()),
                self.cache() == cache_after_all(
                    old(self).cache(),
                    buffers(packets@).take(i as int),
                ),
                captures_of(captures@) =~= correlated_all(
                    old(self).cache(),
                    buffers(packets@).take(i as int),
                ),
            decreases n - i,
        {
            proof {
                let next = buffers(packets@).take(i + 1);
                assert(next.drop_last() =~= buffers(packets@).take(i as int));
                assert(next.last() == packets@[i as int]@);
            }
            let ghost held = captures@;
            match self.correlate_packet(packets[i].as_slice()) {
                Some(c) => {
                    captures.push(c);
                    assert(captures_of(captures@) =~= captures_of(held).push(c@));
                },
                None => {},
            }
            i = i + 1;
        }
        assert(buffers(packets@).take(n as int) =~= buffers(packets@));
        captures
    }

    /// Capture PMKID from EAPOL frames, without consulting the cache
    pub fn capture_pmkid(&self, packets: &Vec<Vec<u8>>) -> (r: Vec<PMKIDCapture>)
        ensures
            captures_of(r@) == captured(buffers(packets@)),
    {
        let n = packets.len();
        let mut captures: Vec<PMKIDCapture> = Vec::new();
        let mut i: usize = 0;
        while i < n
            invariant
                i <= n,
                n == packets@.len(),
                captures_of(captures@) =~= captured(buffers(packets@).take(i as int)),
            decreases n - i,
        {
            proof {
                let next = buffers(packets@).take(i + 1);
                assert(next.drop_last() =~= buffers(packets@).take(i as int));
                assert(next.last() == packets@[i as int]@);
            }
            let ghost held = captures@;
            match pmkid_from_packet(packets[i].as_slice()) {
                Some(c) => {
                    captures.push(c);
                    assert(captures_of(captures@) =~= captures_of(held).push(c@));
                },
                None => {},
            }
            i = i + 1;
        }
        assert(buffers(packets@).take(n as int) =~= buffers(packets@));
        captures
    }

    /// Get available network interfaces
    pub fn get_interfaces(names: &Vec<String>) -> (r: Vec<String>)
        ensures
            texts(r@) == offered(texts(names@)),
    {
        DeviceManager::list_interfaces(names)
    }
}

/// Correlation: a capture whose BSSID was noted with an SSID carries that
/// SSID, and one whose BSSID the cache does not hold carries the unknown
/// text. The buffer is one that is no beacon itself.
pub proof fn lemma_correlation(entries: Seq<Pair>, bssid: Seq<char>, ssid: Seq<char>, data: Seq<u8>)
    requires
        distinct_keys(entries),
        !is_beacon(data),
        eapol_record(data).is_some(),
    ensures
        correlated(entries, data).is_some(),
        eapol_record(data).unwrap().bssid == bssid ==> correlated(
            put(entries, bssid, ssid),
            data,
        ).unwrap().ssid == ssid,
        !has_key(entries, eapol_record(data).unwrap().bssid) ==> correlated(
            entries,
            data,
        ).unwrap().ssid == unresolved(),
{
    lemma_observe_then_resolve(entries, bssid, ssid, bssid);
}

/// The BSSIDs of the beacons among a run of buffers.
pub open spec fn beacon_bssids(packets: Seq<Seq<u8>>) -> Set<Seq<char>> {
    Set::new(
        |b: Seq<char>|
            exists|i: int|
                0 <= i < packets.len() && is_beacon(#[trigger] packets[i]) && beacon_record(
                    packets[i],
                ).bssid == b,
    )
}

/// Whether `record` is what some beacon among the buffers stands for.
pub open spec fn from_beacon(packets: Seq<Seq<u8>>, record: NetworkRecord) -> bool {
    exists|i: int|
        0 <= i < packets.len() && is_beacon(#[trigger] packets[i]) && beacon_record(packets[i])
            == record
}

/// The BSSIDs of a run of records, in order.
pub open spec fn bssids_of(records: Seq<NetworkRecord>) -> Seq<Seq<char>> {
    records.map_values(|r: NetworkRecord| r.bssid)
}

/// What a run of buffers leaves in the registry: no BSSID twice, no more
/// records than buffers, every record that of a beacon in the run, and a
/// record for the BSSID of every beacon in the run.
pub proof fn lemma_discovered(packets: Seq<Seq<u8>>)
    ensures
        distinct_bssids(discovered(packets)),
        discovered(packets).len() <= packets.len(),
        forall|j: int|
            0 <= j < discovered(packets).len() ==> from_beacon(
                packets,
                #[trigger] discovered(packets)[j],
            ),
        forall|i: int|
            0 <= i < packets.len() && is_beacon(#[trigger] packets[i]) ==> has_bssid(
                discovered(packets),
                beacon_record(packets[i]).bssid,
            ),
    decreases packets.len(),
{
    if packets.len() > 0 {
        let earlier = packets.drop_last();
        let before = discovered(earlier);
        let after = discovered(packets);
        let last = packets.len() - 1;
        lemma_discovered(earlier);
        assert forall|i: int| 0 <= i < earlier.len() implies earlier[i] == packets[i] by {}
        if is_beacon(packets.last()) {
            let record = beacon_record(packets.last());
            lemma_upsert(before, record);
            assert forall|j: int| 0 <= j < after.len() implies from_beacon(
                packets,
                #[trigger] after[j],
            ) by {
                if after[j] == record {
                    assert(is_beacon(packets[last]) && beacon_record(packets[last]) == after[j]);
                } else {
                    assert(after[j] == before[j]);
                    assert(from_beacon(earlier, before[j]));
                    let i = choose|i: int|
                        0 <= i < earlier.len() && is_beacon(#[trigger] earlier[i]) && beacon_record(
                            earlier[i],
                        ) == before[j];
                    assert(is_beacon(packets[i]) && beacon_record(packets[i]) == after[j]);
                }
            }
            assert forall|i: int| 0 <= i < packets.len() && is_beacon(
                #[trigger] packets[i],
            ) implies has_bssid(after, beacon_record(packets[i]).bssid) by {
                if i < last {
                    assert(is_beacon(earlier[i]));
                    assert(has_bssid(before, beacon_record(earlier[i]).bssid));
                }
            }
        } else {
            assert forall|j: int| 0 <= j < after.len() implies from_beacon(
                packets,
                #[trigger] after[j],
            ) by {
                let i = choose|i: int|
                    0 <= i < earlier.len() && is_beacon(#[trigger] earlier[i]) && beacon_record(
                        earlier[i],
                    ) == before[j];
                assert(is_beacon(packets[i]) && beacon_record(packets[i]) == after[j]);
            }
            assert forall|i: int| 0 <= i < packets.len() && is_beacon(
                #[trigger] packets[i],
            ) implies has_bssid(after, beacon_record(packets[i]).bssid) by {
                assert(is_beacon(earlier[i]));
            }
        }
    }
}

/// A discovery scan reports exactly one record for each distinct BSSID among
/// the beacons it looked at, so never more records than BSSIDs seen, and it
/// looks at no more than the first hundred buffers.
pub proof fn lemma_scan_bounds(packets: Seq<Seq<u8>>)
    ensures
        scan_result(packets).len() == beacon_bssids(
            packets.take(scan_reach(packets.len()) as int),
        ).len(),
        beacon_bssids(packets.take(scan_reach(packets.len()) as int)).finite(),
        beacon_bssids(packets.take(scan_reach(packets.len()) as int)).subset_of(
            beacon_bssids(packets),
        ),
        scan_result(packets).len() <= scan_reach(packets.len()) <= MAX_SCAN_PACKETS,
        distinct_bssids(scan_result(packets)),
{
    let seen = packets.take(scan_reach(packets.len()) as int);
    let found = discovered(seen);
    let keys = bssids_of(found);
    lemma_discovered(seen);
    assert(keys.no_duplicates()) by {
        assert forall|i: int, j: int| 0 <= i < keys.len() && 0 <= j < keys.len() && i != j implies keys[i] != keys[j] by {
            assert(found[i].bssid != found[j].bssid);
        }
    }
    keys.unique_seq_to_set();
    assert(keys.to_set() =~= beacon_bssids(seen)) by {
        assert forall|b: Seq<char>| keys.to_set().contains(b) implies beacon_bssids(seen).contains(
            b,
        ) by {
            let j = choose|j: int| 0 <= j < keys.len() && keys[j] == b;
            assert(from_beacon(seen, found[j]));
            let i = choose|i: int|
                0 <= i < seen.len() && is_beacon(#[trigger] seen[i]) && beacon_record(seen[i])
                    == found[j];
            assert(is_beacon(seen[i]) && beacon_record(seen[i]).bssid == b);
        }
        assert forall|b: Seq<char>| beacon_bssids(seen).contains(b) implies keys.to_set().contains(
            b,
        ) by {
            let i = choose|i: int|
                0 <= i < seen.len() && is_beacon(#[trigger] seen[i]) && beacon_record(
                    seen[i],
                ).bssid == b;
            assert(has_bssid(found, beacon_record(seen[i]).bssid));
            let j = choose|j: int| 0 <= j < found.len() && (#[trigger] found[j]).bssid == b;
            assert(keys[j] == b);
        }
    }
    assert forall|b: Seq<char>| beacon_bssids(seen).contains(b) implies beacon_bssids(
        packets,
    ).contains(b) by {
        let i = choose|i: int|
            0 <= i < seen.len() && is_beacon(#[trigger] seen[i]) && beacon_record(seen[i]).bssid
                == b;
        assert(is_beacon(packets[i]) && beacon_record(packets[i]).bssid == b);
    }
}

} // verus!
