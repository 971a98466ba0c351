//! Places and the deduplicating result set.
//!
//! A search session accumulates places keyed by their opaque identity.
//! The set is represented as a vector with pairwise distinct identities;
//! its mathematical meaning is a map from identity to the normalized
//! value (open flag, location). Re-inserting an identity overwrites the
//! earlier value: last write wins.

use vstd::prelude::*;

verus! {

/// A geographic coordinate in integer microdegrees (degrees scaled by
/// one million), which keeps every value the tools handle exact.
#[derive(Clone, Copy, PartialEq, Eq, Structural, Debug)]
pub struct GeoPoint {
    pub lat_udeg: i64,
    pub lng_udeg: i64,
}

/// A place as one page of the search endpoint reports it: an opaque
/// identity, the opening-hours flag when the endpoint sent one, and a
/// location.
pub struct RawPlace {
    pub identity: String,
    pub opening_hours: Option<bool>,
    pub location: GeoPoint,
}

/// A normalized place held by the result set.
pub struct PlaceEntry {
    pub identity: String,
    pub open_now: bool,
    pub location: GeoPoint,
}

/// A place's opening flag: the reported value when opening hours were
/// present, and closed when they were absent.
pub open spec fn spec_resolved_open(opening_hours: Option<bool>) -> bool {
    match opening_hours {
        Option::Some(b) => b,
        Option::None => false,
    }
}

/// Executable form of the default-closed rule: a place whose
/// opening-hours field is absent counts as closed, never as unknown.
pub fn resolve_open(opening_hours: Option<bool>) -> (open: bool)
    ensures
        open == spec_resolved_open(opening_hours),
        opening_hours is None ==> open == false,
{
    match opening_hours {
        Option::Some(b) => b,
        Option::None => false,
    }
}

/// No two entries carry the same identity.
pub open spec fn unique_identities(s: Seq<PlaceEntry>) -> bool {
    forall|i: int, j: int| 0 <= i < j < s.len() ==> s[i].identity@ != s[j].identity@
}

/// The mapping that a sequence of entries stands for, later entries
/// overwriting earlier ones with the same identity.
pub open spec fn entries_map(s: Seq<PlaceEntry>) -> Map<Seq<char>, (bool, GeoPoint)>
    decreases s.len(),
{
    if s.len() == 0 {
        Map::empty()
    } else {
        entries_map(s.drop_last()).insert(
            s.last().identity@,
            (s.last().open_now, s.last().location),
        )
    }
}

/// An identity is in the mapping exactly when some entry carries it.
pub proof fn lemma_entries_map_dom(s: Seq<PlaceEntry>, id: Seq<char>)
    ensures
        entries_map(s).dom().contains(id) <==> exists|i: int|
            0 <= i < s.len() && s[i].identity@ == id,
    decreases s.len(),
{
    if s.len() == 0 {
    } else {
        lemma_entries_map_dom(s.drop_last(), id);
        if s.last().identity@ == id {
            assert(s[s.len() - 1].identity@ == id);
        } else {
            if entries_map(s).dom().contains(id) {
                let i = choose|i: int|
                    0 <= i < s.drop_last().len() && s.drop_last()[i].identity@ == id;
                assert(s[i].identity@ == id);
            }
            if exists|i: int| 0 <= i < s.len() && s[i].identity@ == id {
                let i = choose|i: int| 0 <= i < s.len() && s[i].identity@ == id;
                assert(i < s.len() - 1);
                assert(s.drop_last()[i].identity@ == id);
            }
        }
    }
}

/// Under unique identities, each entry is found in the mapping with its
/// own value.
pub proof fn lemma_entries_map_at(s: Seq<PlaceEntry>, j: int)
    requires
        unique_identities(s),
        0 <= j < s.len(),
    ensures
        entries_map(s).dom().contains(s[j].identity@),
        entries_map(s)[s[j].identity@] == (s[j].open_now, s[j].location),
    decreases s.len(),
{
    if j == s.len() - 1 {
    } else {
        assert(s.last().identity@ != s[j].identity@);
        assert forall|a: int, b: int|
            0 <= a < b < s.drop_last().len() implies s.drop_last()[a].identity@
            != s.drop_last()[b].identity@ by {
            assert(s.drop_last()[a] == s[a]);
            assert(s.drop_last()[b] == s[b]);
        }
        lemma_entries_map_at(s.drop_last(), j);
        assert(s.drop_last()[j] == s[j]);
    }
}

/// Appending an entry inserts its identity into the mapping.
pub proof fn lemma_entries_map_push(s: Seq<PlaceEntry>, e: PlaceEntry)
    ensures
        entries_map(s.push(e)) == entries_map(s).insert(
            e.identity@,
            (e.open_now, e.location),
        ),
{
    assert(s.push(e).drop_last() =~= s);
    assert(s.push(e).last() == e);
}

/// Overwriting the entry that carries an identity is, on the mapping,
/// an insert of the new value at that identity.
pub proof fn lemma_entries_map_update(s: Seq<PlaceEntry>, j: int, e: PlaceEntry)
    requires
        unique_identities(s),
        0 <= j < s.len(),
        s[j].identity@ == e.identity@,
    ensures
        entries_map(s.update(j, e)) == entries_map(s).insert(
            e.identity@,
            (e.open_now, e.location),
        ),
    decreases s.len(),
{
    let v = (e.open_now, e.location);
    if j == s.len() - 1 {
        assert(s.update(j, e).drop_last() =~= s.drop_last());
        assert(s.update(j, e).last() == e);
        assert(entries_map(s.drop_last()).insert(e.identity@, v) =~= entries_map(
            s.drop_last(),
        ).insert(s.last().identity@, (s.last().open_now, s.last().location)).insert(
            e.identity@,
            v,
        ));
    } else {
        assert forall|a: int, b: int|
            0 <= a < b < s.drop_last().len() implies s.drop_last()[a].identity@
            != s.drop_last()[b].identity@ by {
            assert(s.drop_last()[a] == s[a]);
            assert(s.drop_last()[b] == s[b]);
        }
        assert(s.drop_last()[j] == s[j]);
        lemma_entries_map_update(s.drop_last(), j, e);
        let u = s.update(j, e);
        assert(u.drop_last() =~= s.drop_last().update(j, e));
        assert(u.last() == s.last());
        assert(s.last().identity@ != e.identity@);
        assert(entries_map(u) == entries_map(s.drop_last()).insert(e.identity@, v).insert(
            s.last().identity@,
            (s.last().open_now, s.last().location),
        ));
        assert(entries_map(s.drop_last()).insert(e.identity@, v).insert(
            s.last().identity@,
            (s.last().open_now, s.last().location),
        ) =~= entries_map(s).insert(e.identity@, v));
    }
}

/// The mapping after one page of raw places is folded in, in order,
/// each place normalized by the default-closed rule; a later occurrence
/// of an identity overwrites an earlier one.
pub open spec fn merged_map(
    m: Map<Seq<char>, (bool, GeoPoint)>,
    places: Seq<RawPlace>,
) -> Map<Seq<char>, (bool, GeoPoint)>
    decreases places.len(),
{
    if places.len() == 0 {
        m
    } else {
        merged_map(m, places.drop_last()).insert(
            places.last().identity@,
            (spec_resolved_open(places.last().opening_hours), places.last().location),
        )
    }
}

/// Whether some place in the page carries the given identity.
pub open spec fn page_has_identity(places: Seq<RawPlace>, id: Seq<char>) -> bool {
    exists|i: int| 0 <= i < places.len() && places[i].identity@ == id
}

/// The normalized value of the last occurrence of an identity in a
/// page; meaningful only when the identity occurs.
pub open spec fn last_occurrence_value(places: Seq<RawPlace>, id: Seq<char>) -> (
    bool,
    GeoPoint,
)
    recommends
        page_has_identity(places, id),
    decreases places.len(),
{
    if places.len() == 0 {
        (false, GeoPoint { lat_udeg: 0, lng_udeg: 0 })
    } else if places.last().identity@ == id {
        (spec_resolved_open(places.last().opening_hours), places.last().location)
    } else {
        last_occurrence_value(places.drop_last(), id)
    }
}

/// Deduplication is last-write-wins: after a page is folded in, an
/// identity that occurs in the page maps to the value of its last
/// occurrence, and one that does not occur keeps its prior value.
pub proof fn lemma_merge_last_write_wins(
    m: Map<Seq<char>, (bool, GeoPoint)>,
    places: Seq<RawPlace>,
    id: Seq<char>,
)
    ensures
        page_has_identity(places, id) ==> merged_map(m, places).dom().contains(id)
            && merged_map(m, places)[id] == last_occurrence_value(places, id),
        !page_has_identity(places, id) ==> (merged_map(m, places).dom().contains(id)
            <==> m.dom().contains(id)) && (m.dom().contains(id) ==> merged_map(
            m,
            places,
        )[id] == m[id]),
    decreases places.len(),
{
    if places.len() == 0 {
    } else {
        lemma_merge_last_write_wins(m, places.drop_last(), id);
        if places.last().identity@ != id {
            if page_has_identity(places, id) {
                let i = choose|i: int|
                    0 <= i < places.len() && places[i].identity@ == id;
                assert(i < places.len() - 1);
                assert(places.drop_last()[i].identity@ == id);
            }
            if page_has_identity(places.drop_last(), id) {
                let i = choose|i: int|
                    0 <= i < places.drop_last().len() && places.drop_last()[i].identity@
                        == id;
                assert(places[i].identity@ == id);
            }
        }
    }
}

/// The deduplicated outcome of a search session: the origin the query
/// was made from, and one entry per distinct place identity.
pub struct ResultSet {
    pub origin: GeoPoint,
    pub entries: Vec<PlaceEntry>,
}

impl ResultSet {
    /// The entries carry pairwise distinct identities.
    pub open spec fn wf(self) -> bool {
        unique_identities(self.entries@)
    }

    /// The mapping from identity to (open flag, location) that the set
    /// stands for.
    pub open spec fn as_map(self) -> Map<Seq<char>, (bool, GeoPoint)> {
        entries_map(self.entries@)
    }

    /// An empty set for a given origin.
    pub fn new(origin: GeoPoint) -> (rs: ResultSet)
        ensures
            rs.wf(),
            rs.as_map() == Map::<Seq<char>, (bool, GeoPoint)>::empty(),
            rs.origin == origin,
            rs.entries@.len() == 0,
    {
        ResultSet { origin, entries: Vec::new() }
    }

    /// How many distinct places the set holds.
    pub fn count(&self) -> (n: usize)
        ensures
            n == self.entries@.len(),
    {
        self.entries.len()
    }

    /// Insert or overwrite the place with the given identity.
    pub fn insert(&mut self, identity: String, open_now: bool, location: GeoPoint)
        requires
            old(self).wf(),
        ensures
            final(self).wf(),
            final(self).origin == old(self).origin,
            final(self).as_map() == old(self).as_map().insert(identity@, (open_now, location)),
            final(self).entries@.len() <= old(self).entries@.len() + 1,
    {
        let n = self.entries.len();
        let mut i: usize = 0;
        while i < n
            invariant
                n == self.entries@.len(),
                i <= n,
                unique_identities(self.entries@),
                self.entries@ == old(self).entries@,
                self.origin == old(self).origin,
                forall|k: int| 0 <= k < i ==> self.entries@[k].identity@ != identity@,
            decreases n - i,
        {
            if self.entries[i].identity == identity {
                let e = PlaceEntry { identity, open_now, location };
                proof {
                    lemma_entries_map_update(self.entries@, i as int, e);
                }
                let ghost pre = self.entries@;
                self.entries[i] = e;
                proof {
                    assert forall|a: int, b: int|
                        0 <= a < b < self.entries@.len() implies self.entries@[a].identity@
                        != self.entries@[b].identity@ by {
                        if a != i {
                            assert(self.entries@[a] == pre[a]);
                        }
                        if b != i {
                            assert(self.entries@[b] == pre[b]);
                        }
                    }
                }
                return;
            }
            i += 1;
        }
        let e = PlaceEntry { identity, open_now, location };
        proof {
            lemma_entries_map_push(self.entries@, e);
        }
        let ghost pre = self.entries@;
        self.entries.push(e);
        proof {
            assert forall|a: int, b: int|
                0 <= a < b < self.entries@.len() implies self.entries@[a].identity@
                != self.entries@[b].identity@ by {
                if b < pre.len() {
                    assert(self.entries@[a] == pre[a]);
                    assert(self.entries@[b] == pre[b]);
                } else {
                    assert(self.entries@[a] == pre[a]);
                    assert(self.entries@[b] == e);
                }
            }
        }
    }

    /// Fold one fetched page into the set, in page order: each place is
    /// normalized by the default-closed rule and inserted, so a later
    /// occurrence of an identity overwrites an earlier one.
    pub fn merge_page(&mut self, places: &Vec<RawPlace>)
        requires
            old(self).wf(),
        ensures
            final(self).wf(),
            final(self).origin == old(self).origin,
            final(self).as_map() == merged_map(old(self).as_map(), places@),
    {
        let n = places.len();
        let mut i: usize = 0;
        while i < n
            invariant
                n == places@.len(),
                i <= n,
                self.wf(),
                self.origin == old(self).origin,
                self.as_map() == merged_map(old(self).as_map(), places@.take(i as int)),
            decreases n - i,
        {
            let p = &places[i];
            let open_now = resolve_open(p.opening_hours);
            proof {
                assert(places@.take(i + 1).drop_last() =~= places@.take(i as int));
                assert(places@.take(i + 1).last() == places@[i as int]);
            }
            self.insert(p.identity.clone(), open_now, p.location);
            i += 1;
        }
        proof {
            assert(places@.take(n as int) =~= places@);
        }
    }

    /// Look an identity up; the answer mirrors the mapping exactly.
    pub fn lookup(&self, identity: &String) -> (r: Option<(bool, GeoPoint)>)
        requires
            self.wf(),
        ensures
            match r {
                Option::Some(v) => self.as_map().dom().contains(identity@)
                    && self.as_map()[identity@] == v,
                Option::None => !self.as_map().dom().contains(identity@),
            },
    {
        let n = self.entries.len();
        let mut i: usize = 0;
        while i < n
            invariant
                self.wf(),
                n == self.entries@.len(),
                i <= n,
                forall|k: int| 0 <= k < i ==> self.entries@[k].identity@ != identity@,
            decreases n - i,
        {
            if self.entries[i].identity == *identity {
                proof {
                    lemma_entries_map_at(self.entries@, i as int);
                }
                return Some((self.entries[i].open_now, self.entries[i].location));
            }
            i += 1;
        }
        proof {
            lemma_entries_map_dom(self.entries@, identity@);
        }
        None
    }
}

} // verus!
