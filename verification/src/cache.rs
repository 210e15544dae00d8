//! The correlation cache: for each BSSID the SSID most recently seen in one
//! of its beacons.

use vstd::prelude::*;
use vstd::string::*;
use crate::text::str_eq;

verus! {

/// One entry of the cache as plain text: BSSID, then SSID.
pub type Pair = (Seq<char>, Seq<char>);

/// The SSID reported for a BSSID that the cache does not hold.
pub open spec fn unresolved() -> Seq<char> {
    "Unknown"@
}

/// No two entries share a BSSID.
pub open spec fn distinct_keys(entries: Seq<Pair>) -> bool {
    forall|i: int, j: int|
        0 <= i < entries.len() && 0 <= j < entries.len() && i != j ==> (#[trigger] entries[i]).0
            != (#[trigger] entries[j]).0
}

/// Whether the entries hold `bssid`.
pub open spec fn has_key(entries: Seq<Pair>, bssid: Seq<char>) -> bool {
    exists|i: int| 0 <= i < entries.len() && (#[trigger] entries[i]).0 == bssid
}

/// The place of the entry for `bssid`.
pub open spec fn key_slot(entries: Seq<Pair>, bssid: Seq<char>) -> int
    recommends
        has_key(entries, bssid),
{
    choose|i: int| 0 <= i < entries.len() && (#[trigger] entries[i]).0 == bssid
}

/// The entries after `ssid` was noted for `bssid`: the entry for `bssid` is
/// overwritten, or a new one comes last.
pub open spec fn put(entries: Seq<Pair>, bssid: Seq<char>, ssid: Seq<char>) -> Seq<Pair> {
    if has_key(entries, bssid) {
        entries.update(key_slot(entries, bssid), (bssid, ssid))
    } else {
        entries.push((bssid, ssid))
    }
}

/// The SSID held for `bssid`, or the unknown text.
pub open spec fn resolved(entries: Seq<Pair>, bssid: Seq<char>) -> Seq<char> {
    if has_key(entries, bssid) {
        entries[key_slot(entries, bssid)].1
    } else {
        unresolved()
    }
}

/// The plain text of a run of entries.
pub open spec fn pairs_of(entries: Seq<(String, String)>) -> Seq<Pair> {
    entries.map_values(|e: (String, String)| (e.0@, e.1@))
}

/// BSSID to SSID, as seen in beacons.
pub struct SsidCache {
    entries: Vec<(String, String)>,
}

impl View for SsidCache {
    type V = Seq<Pair>;

    closed spec fn view(&self) -> Seq<Pair> {
        pairs_of(self.entries@)
    }
}

impl SsidCache {
    /// The invariant of the cache: no BSSID has two entries.
    #[verifier::type_invariant]
    pub open spec fn one_ssid_per_bssid(&self) -> bool {
        distinct_keys(self@)
    }

    /// An empty cache.
    pub fn new() -> (r: Self)
        ensures
            r@ == Seq::<Pair>::empty(),
    {
        let entries: Vec<(String, String)> = Vec::new();
        assert(pairs_of(entries@) =~= Seq::<Pair>::empty());
        Self { entries }
    }

    /// The place of the entry for `bssid`, if there is one.
    fn find(&self, bssid: &str) -> (r: Option<usize>)
        ensures
            distinct_keys(self@),
            r.is_some() == has_key(self@, bssid@),
            r matches Some(i) ==> i == key_slot(self@, bssid@) && i < self@.len(),
    {
        proof {
            use_type_invariant(self);
        }
        let n = self.entries.len();
        let mut i: usize = 0;
        while i < n
            invariant
                i <= n,
                n == self.entries.len(),
                distinct_keys(self@),
                forall|j: int| 0 <= j < i ==> (#[trigger] self@[j]).0 != bssid@,
            decreases n - i,
        {
            assert(self@[i as int].0 == self.entries@[i as int].0@);
            if str_eq(self.entries[i].0.as_str(), bssid) {
                assert(has_key(self@, bssid@));
                return Some(i);
            }
            i = i + 1;
        }
        None
    }

    /// Notes `ssid` as the SSID of `bssid`, in place of an earlier one.
    pub fn observe(&mut self, bssid: String, ssid: String)
        ensures
            final(self)@ == put(old(self)@, bssid@, ssid@),
            distinct_keys(final(self)@),
    {
        let ghost before = self@;
        let ghost key = bssid@;
        let ghost value = ssid@;
        let found = self.find(bssid.as_str());
        let mut held: Vec<(String, String)> = Vec::new();
        assert(pairs_of(held@) =~= Seq::<Pair>::empty());
        std::mem::swap(&mut held, &mut self.entries);
        match found {
            Some(i) => {
                held.set(i, (bssid, ssid));
                assert(pairs_of(held@) =~= before.update(i as int, (key, value)));
            },
            None => {
                held.push((bssid, ssid));
                assert(pairs_of(held@) =~= before.push((key, value)));
            },
        }
        proof {
            lemma_observe_then_resolve(before, key, value, key);
        }
        self.entries = held;
    }

    /// The SSID held for `bssid`, or `Unknown`.
    pub fn resolve(&self, bssid: &str) -> (ssid: String)
        ensures
            ssid@ == resolved(self@, bssid@),
    {
        match self.find(bssid) {
            Some(i) => {
                assert(self@[i as int].1 == self.entries@[i as int].1@);
                self.entries[i].1.clone()
            },
            None => "Unknown".to_owned(),
        }
    }

    /// Empties the cache.
    pub fn clear(&mut self)
        ensures
            final(self)@ == Seq::<Pair>::empty(),
    {
        let entries: Vec<(String, String)> = Vec::new();
        assert(pairs_of(entries@) =~= Seq::<Pair>::empty());
        self.entries = entries;
    }

    /// A copy of every entry, BSSID first, in the order in which the BSSIDs
    /// were first seen. No two entries share a BSSID.
    pub fn entries(&self) -> (r: Vec<(String, String)>)
        ensures
            pairs_of(r@) == self@,
            distinct_keys(pairs_of(r@)),
    {
        proof {
            use_type_invariant(self);
        }
        let n = self.entries.len();
        let mut r: Vec<(String, String)> = Vec::new();
        let mut i: usize = 0;
        while i < n
            invariant
                i <= n,
                n == self.entries.len(),
                r@.len() == i,
                pairs_of(r@) =~= self@.take(i as int),
            decreases n - i,
        {
            let e = &self.entries[i];
            let ghost copied = pairs_of(r@);
            let ghost held = r@;
            r.push((e.0.clone(), e.1.clone()));
            assert forall|j: int| 0 <= j < i + 1 implies pairs_of(r@)[j] == self@[j] by {
                if j < i {
                    assert(r@[j] == held[j]);
                    assert(pairs_of(r@)[j] == copied[j]);
                    assert(copied[j] == self@.take(i as int)[j]);
                } else {
                    assert(self@[j] == (self.entries@[j].0@, self.entries@[j].1@));
                }
            }
            assert(pairs_of(r@) =~= self@.take(i + 1));
            i = i + 1;
        }
        assert(self@.take(n as int) =~= self@);
        r
    }
}

/// What is noted for a BSSID is what is resolved for it afterwards, and
/// noting it changes nothing for any other BSSID. An empty cache resolves
/// every BSSID to the unknown text.
pub proof fn lemma_observe_then_resolve(
    entries: Seq<Pair>,
    bssid: Seq<char>,
    ssid: Seq<char>,
    other: Seq<char>,
)
    requires
        distinct_keys(entries),
    ensures
        distinct_keys(put(entries, bssid, ssid)),
        resolved(put(entries, bssid, ssid), bssid) == ssid,
        other != bssid ==> resolved(put(entries, bssid, ssid), other) == resolved(entries, other),
        !has_key(entries, other) ==> resolved(entries, other) == unresolved(),
        resolved(Seq::<Pair>::empty(), other) == unresolved(),
{
    let after = put(entries, bssid, ssid);
    if has_key(entries, bssid) {
        assert(after[key_slot(entries, bssid)].0 == bssid);
    } else {
        assert(after[entries.len() as int].0 == bssid);
    }
    assert(has_key(after, bssid));
    if other != bssid {
        if has_key(entries, other) {
            let k = key_slot(entries, other);
            assert(after[k] == entries[k]);
            assert(has_key(after, other));
            assert(key_slot(after, other) == k);
        } else if has_key(after, other) {
            let k = key_slot(after, other);
            assert(k < entries.len() ==> entries[k].0 == other);
        }
    }
}

/// The entries as a mapping from BSSID to SSID.
pub open spec fn as_map(entries: Seq<Pair>) -> Map<Seq<char>, Seq<char>> {
    Map::new(
        |bssid: Seq<char>| has_key(entries, bssid),
        |bssid: Seq<char>| entries[key_slot(entries, bssid)].1,
    )
}

/// Noting an SSID for a BSSID is an insertion into the mapping.
pub proof fn lemma_put_is_insert(entries: Seq<Pair>, bssid: Seq<char>, ssid: Seq<char>)
    requires
        distinct_keys(entries),
    ensures
        as_map(put(entries, bssid, ssid)) == as_map(entries).insert(bssid, ssid),
{
    let after = as_map(put(entries, bssid, ssid));
    let want = as_map(entries).insert(bssid, ssid);
    assert forall|k: Seq<char>| #[trigger] after.dom().contains(k) == want.dom().contains(k) by {
        lemma_has_key_after_put(entries, bssid, ssid, k);
    }
    assert forall|k: Seq<char>| after.dom().contains(k) implies #[trigger] after[k] == want[k] by {
        lemma_observe_then_resolve(entries, bssid, ssid, k);
        lemma_has_key_after_put(entries, bssid, ssid, k);
        assert(after[k] == resolved(put(entries, bssid, ssid), k));
        if k != bssid {
            assert(want[k] == resolved(entries, k));
        }
    }
    assert(after =~= want);
}

/// After an SSID was noted for a BSSID, the entries hold that BSSID and
/// those they held before, and no other.
pub proof fn lemma_has_key_after_put(
    entries: Seq<Pair>,
    bssid: Seq<char>,
    ssid: Seq<char>,
    other: Seq<char>,
)
    requires
        distinct_keys(entries),
    ensures
        has_key(put(entries, bssid, ssid), other) == (other == bssid || has_key(entries, other)),
{
    let after = put(entries, bssid, ssid);
    if has_key(entries, bssid) {
        assert(after[key_slot(entries, bssid)].0 == bssid);
    } else {
        assert(after[entries.len() as int].0 == bssid);
    }
    if has_key(entries, other) && other != bssid {
        let k = key_slot(entries, other);
        assert(after[k] == entries[k]);
    }
    if has_key(after, other) && other != bssid {
        let k = key_slot(after, other);
        assert(k < entries.len());
        assert(entries[k].0 == other);
    }
}

} // verus!
