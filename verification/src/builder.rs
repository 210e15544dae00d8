//! The registry of discovered networks: at most one record per BSSID, and a
//! later record for a BSSID takes the place of the earlier one.

use vstd::prelude::*;
use crate::network::{NetworkData, NetworkRecord, WiFiNetwork};

verus! {

/// The records behind a run of networks, in the same order.
pub open spec fn records_of(networks: Seq<WiFiNetwork>) -> Seq<NetworkRecord> {
    networks.map_values(|n: WiFiNetwork| n@)
}

/// No two records of the run share a BSSID.
pub open spec fn distinct_bssids(records: Seq<NetworkRecord>) -> bool {
    forall|i: int, j: int|
        0 <= i < records.len() && 0 <= j < records.len() && i != j ==> (#[trigger] records[i]).bssid
            != (#[trigger] records[j]).bssid
}

/// Whether the run holds a record for `bssid`.
pub open spec fn has_bssid(records: Seq<NetworkRecord>, bssid: Seq<char>) -> bool {
    exists|i: int| 0 <= i < records.len() && (#[trigger] records[i]).bssid == bssid
}

/// The place of a record for `bssid` in the run.
pub open spec fn slot_of(records: Seq<NetworkRecord>, bssid: Seq<char>) -> int
    recommends
        has_bssid(records, bssid),
{
    choose|i: int| 0 <= i < records.len() && (#[trigger] records[i]).bssid == bssid
}

/// The run after `record` was added: it takes the place of the record with
/// its BSSID, or comes last where there is none.
pub open spec fn upsert(records: Seq<NetworkRecord>, record: NetworkRecord) -> Seq<NetworkRecord> {
    if has_bssid(records, record.bssid) {
        records.update(slot_of(records, record.bssid), record)
    } else {
        records.push(record)
    }
}

/// Network builder for managing discovered networks
pub struct NetworkBuilder {
    networks: Vec<WiFiNetwork>,
}

impl View for NetworkBuilder {
    type V = Seq<NetworkRecord>;

    closed spec fn view(&self) -> Seq<NetworkRecord> {
        records_of(self.networks@)
    }
}

impl NetworkBuilder {
    /// The invariant of the registry: no BSSID has two records.
    #[verifier::type_invariant]
    pub open spec fn one_record_per_bssid(&self) -> bool {
        distinct_bssids(self@)
    }

    /// An empty registry.
    pub fn new() -> (r: Self)
        ensures
            r@ == Seq::<NetworkRecord>::empty(),
            distinct_bssids(r@),
    {
        let networks: Vec<WiFiNetwork> = Vec::new();
        assert(records_of(networks@) =~= Seq::<NetworkRecord>::empty());
        Self { networks }
    }

    /// The number of records held.
    pub fn len(&self) -> (n: usize)
        ensures
            n == self@.len(),
    {
        self.networks.len()
    }

    /// The place of the record for `bssid`, if there is one.
    fn find(&self, bssid: &String) -> (r: Option<usize>)
        ensures
            distinct_bssids(self@),
            r.is_some() == has_bssid(self@, bssid@),
            r matches Some(i) ==> i == slot_of(self@, bssid@) && i < self@.len(),
    {
        proof {
            use_type_invariant(self);
        }
        let n = self.networks.len();
        let mut i: usize = 0;
        while i < n
            invariant
                i <= n,
                n == self.networks.len(),
                distinct_bssids(self@),
                forall|j: int| 0 <= j < i ==> (#[trigger] self@[j]).bssid != bssid@,
            decreases n - i,
        {
            assert(self@[i as int] == self.networks@[i as int]@);
            if self.networks[i].bssid == *bssid {
                assert(has_bssid(self@, bssid@));
                return Some(i);
            }
            i = i + 1;
        }
        None
    }

    /// Adds a record, in place of the one with the same BSSID if there is
    /// one.
    pub fn add_network(&mut self, data: NetworkData)
        ensures
            final(self)@ == upsert(old(self)@, data@),
            distinct_bssids(final(self)@),
    {
        let network = WiFiNetwork::new(
            data.ssid,
            data.bssid,
            data.channel,
            data.rssi,
            data.encryption,
        );
        let ghost before = self@;
        let found = self.find(&network.bssid);
        let mut held: Vec<WiFiNetwork> = Vec::new();
        assert(records_of(held@) =~= Seq::<NetworkRecord>::empty());
        std::mem::swap(&mut held, &mut self.networks);
        match found {
            Some(i) => {
                held.set(i, network);
                assert(records_of(held@) =~= before.update(i as int, data@));
            },
            None => {
                held.push(network);
                assert(records_of(held@) =~= before.push(data@));
            },
        }
        proof {
            lemma_upsert(before, data@);
        }
        self.networks = held;
    }

    /// Hands out every record held, in the order in which their BSSIDs
    /// were first added. No two of them share a BSSID.
    pub fn get_networks(self) -> (r: Vec<WiFiNetwork>)
        ensures
            records_of(r@) == self@,
            distinct_bssids(records_of(r@)),
    {
        proof {
            use_type_invariant(&self);
        }
        self.networks
    }
}

/// Adding a record to a run without repeated BSSIDs leaves it without
/// repeated BSSIDs, with a record for the added BSSID that is the added one,
/// and with every other BSSID's record as it was.
pub proof fn lemma_upsert(records: Seq<NetworkRecord>, record: NetworkRecord)
    requires
        distinct_bssids(records),
    ensures
        distinct_bssids(upsert(records, record)),
        has_bssid(upsert(records, record), record.bssid),
        upsert(records, record)[slot_of(upsert(records, record), record.bssid)] == record,
        upsert(records, record).len() == if has_bssid(records, record.bssid) {
            records.len()
        } else {
            records.len() + 1
        },
        forall|i: int|
            0 <= i < records.len() && (#[trigger] records[i]).bssid != record.bssid ==> upsert(
                records,
                record,
            )[i] == records[i],
        forall|i: int|
            0 <= i < upsert(records, record).len() ==> (#[trigger] upsert(records, record)[i])
                == record || (i < records.len() && upsert(records, record)[i] == records[i]),
        forall|bssid: Seq<char>| #[trigger]
            has_bssid(records, bssid) ==> has_bssid(upsert(records, record), bssid),
{
    let after = upsert(records, record);
    if has_bssid(records, record.bssid) {
        let s = slot_of(records, record.bssid);
        assert(after[s].bssid == record.bssid);
    } else {
        assert(after[records.len() as int].bssid == record.bssid);
    }
    let t = slot_of(after, record.bssid);
    assert(after[t].bssid == record.bssid);
    assert forall|bssid: Seq<char>| #[trigger] has_bssid(records, bssid) implies has_bssid(
        after,
        bssid,
    ) by {
        let k = slot_of(records, bssid);
        if bssid != record.bssid {
            assert(after[k] == records[k]);
        }
    }
}

/// Last write wins: two records with one BSSID, added one after the other,
/// leave what adding the second alone leaves. Added to an empty registry
/// they leave exactly one record, the second.
pub proof fn lemma_last_write_wins(
    records: Seq<NetworkRecord>,
    first: NetworkRecord,
    second: NetworkRecord,
)
    requires
        distinct_bssids(records),
        first.bssid == second.bssid,
    ensures
        upsert(upsert(records, first), second) == upsert(records, second),
        records.len() == 0 ==> upsert(upsert(records, first), second) == seq![second],
{
    let mid = upsert(records, first);
    lemma_upsert(records, first);
    let m = slot_of(mid, second.bssid);
    if has_bssid(records, first.bssid) {
        let s = slot_of(records, first.bssid);
        assert(mid[s].bssid == second.bssid);
        assert(m == s);
    } else {
        assert(mid[records.len() as int].bssid == second.bssid);
        assert(m == records.len());
    }
    assert(upsert(mid, second) =~= upsert(records, second));
    if records.len() == 0 {
        assert(upsert(records, second) =~= seq![second]);
    }
}

/// The records as a mapping from BSSID to record.
pub open spec fn by_bssid(records: Seq<NetworkRecord>) -> Map<Seq<char>, NetworkRecord> {
    Map::new(
        |bssid: Seq<char>| has_bssid(records, bssid),
        |bssid: Seq<char>| records[slot_of(records, bssid)],
    )
}

/// Adding a record is an insertion into the mapping, under the record's
/// BSSID.
pub proof fn lemma_upsert_is_insert(records: Seq<NetworkRecord>, record: NetworkRecord)
    requires
        distinct_bssids(records),
    ensures
        by_bssid(upsert(records, record)) == by_bssid(records).insert(record.bssid, record),
{
    let grown = upsert(records, record);
    let after = by_bssid(grown);
    let want = by_bssid(records).insert(record.bssid, record);
    lemma_upsert(records, record);
    assert forall|k: Seq<char>|
        #![trigger after.dom().contains(k)]
        #![trigger after[k]]
        after.dom().contains(k) == want.dom().contains(k) && (after.dom().contains(k) ==> after[k]
            == want[k]) by {
        if k != record.bssid {
            if has_bssid(records, k) {
                let i = slot_of(records, k);
                assert(grown[i] == records[i]);
                assert(has_bssid(grown, k));
                assert(slot_of(grown, k) == i);
            } else if has_bssid(grown, k) {
                let i = slot_of(grown, k);
                assert(grown[i] == record || (i < records.len() && grown[i] == records[i]));
            }
        }
    }
    assert(after =~= want);
}

} // verus!
