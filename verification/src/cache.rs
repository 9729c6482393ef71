//! Event resolution cache: maps an (event name, event band, attending
//! person's band) key to the event id it resolved to, so that each distinct
//! key leads to at most one event creation over the whole run.
//!
//! The key deliberately includes the attending person's band: the same named
//! event recurring across intake cohorts resolves to distinct calendar
//! instances.

use vstd::prelude::*;
use crate::year::{EventInfo, Year};

verus! {

/// The cache key: event name, event band, attending person's band.
pub type EventKey = (Seq<char>, Year, Year);

/// Model of the cache: entries in insertion order.
pub type CacheModel = Seq<(EventKey, int)>;

/// A request to create one durable event record, identified by its key.
/// The display name, calendar year and date are derived from it.
pub struct EventCreation {
    pub name: String,
    pub event_year: Year,
    pub person_band: Year,
}

/// The canonical moment an event is dated at within its calendar year.
pub struct EventDate {
    pub year: usize,
    pub month: u8,
    pub day: u8,
    pub hour: u8,
    pub minute: u8,
    pub second: u8,
}

impl EventCreation {
    pub open spec fn key(&self) -> EventKey {
        (self.name@, self.event_year, self.person_band)
    }

    /// Derived display name: "{band prefix} {name}".
    pub fn display_name(&self) -> (r: String)
        ensures
            r@ == self.event_year.spec_prefix() + " "@ + self.name@,
    {
        let info = EventInfo { name: self.name.clone(), event_year: self.event_year };
        info.display_name()
    }

    /// Absolute calendar year of the event instance being created.
    pub fn calendar_year(&self) -> (r: usize)
        ensures
            r as int == self.person_band.spec_join_year() + self.event_year.spec_offset(),
    {
        Year::get_year(self.event_year, self.person_band)
    }

    /// The event's date: the canonical day and time of its calendar year.
    pub fn event_date(&self) -> (d: EventDate)
        ensures
            d.year as int == self.person_band.spec_join_year() + self.event_year.spec_offset(),
            d.month == 9u8 && d.day == 1u8,
            d.hour == 9u8 && d.minute == 0u8 && d.second == 0u8,
    {
        EventDate {
            year: self.calendar_year(),
            month: 9,
            day: 1,
            hour: 9,
            minute: 0,
            second: 0,
        }
    }
}

/// Constant location every created event carries.
pub fn event_location() -> (r: &'static str)
    ensures
        r@ == "KCS"@,
{
    "KCS"
}

/// Constant organizer every created event carries.
pub fn event_teacher() -> (r: &'static str)
    ensures
        r@ == "MJPC"@,
{
    "MJPC"
}

/// Keys of a sequence of creation requests, in order.
pub open spec fn creations_of(s: Seq<EventCreation>) -> Seq<EventKey> {
    Seq::new(s.len(), |i: int| s[i].key())
}

/// One memoized resolution.
pub struct CacheEntry {
    pub name: String,
    pub event_year: Year,
    pub person_band: Year,
    pub event_id: usize,
}

impl CacheEntry {
    pub open spec fn key(&self) -> EventKey {
        (self.name@, self.event_year, self.person_band)
    }
}

/// The event resolution cache.
pub struct EventCache {
    pub entries: Vec<CacheEntry>,
}

impl View for EventCache {
    type V = CacheModel;

    open spec fn view(&self) -> CacheModel {
        Seq::new(
            self.entries@.len(),
            |i: int| (self.entries@[i].key(), self.entries@[i].event_id as int),
        )
    }
}

/// The id the cache holds for a key, if any: the first entry with that key.
pub open spec fn cache_lookup(m: CacheModel, k: EventKey) -> Option<int>
    decreases m.len(),
{
    if m.len() == 0 {
        None
    } else if m[0].0 == k {
        Some(m[0].1)
    } else {
        cache_lookup(m.drop_first(), k)
    }
}

/// No key occurs twice.
pub open spec fn cache_wf(m: CacheModel) -> bool {
    forall|i: int, j: int| 0 <= i < j < m.len() ==> m[i].0 != m[j].0
}

/// The cache and the creation list grew in lockstep: entry `i` maps the key
/// of creation `i` to id `i`.
pub open spec fn cache_matches_creations(m: CacheModel, evs: Seq<EventKey>) -> bool {
    &&& m.len() == evs.len()
    &&& forall|i: int| 0 <= i < m.len() ==> m[i] == (evs[i], i)
}

/// One resolve-or-create step: a hit returns the memoized id and changes
/// nothing; a miss appends one creation request and memoizes its id.
pub open spec fn cache_step(m: CacheModel, k: EventKey, evs: Seq<EventKey>) -> (
    CacheModel,
    Seq<EventKey>,
    int,
) {
    match cache_lookup(m, k) {
        Some(id) => (m, evs, id),
        None => (m.push((k, evs.len() as int)), evs.push(k), evs.len() as int),
    }
}

/// Appending an entry leaves every present key's lookup unchanged and makes
/// the new key found exactly when it was absent.
pub proof fn lemma_lookup_push(m: CacheModel, e: (EventKey, int), k: EventKey)
    ensures
        cache_lookup(m.push(e), k) == if cache_lookup(m, k) is Some {
            cache_lookup(m, k)
        } else if e.0 == k {
            Some(e.1)
        } else {
            None::<int>
        },
    decreases m.len(),
{
    if m.len() == 0 {
        assert(m.push(e)[0] == e);
        assert(m.push(e).drop_first() =~= Seq::<(EventKey, int)>::empty());
        assert(cache_lookup(Seq::<(EventKey, int)>::empty(), k) is None);
    } else {
        assert(m.push(e)[0] == m[0]);
        assert(m.push(e).drop_first() =~= m.drop_first().push(e));
        lemma_lookup_push(m.drop_first(), e, k);
    }
}

/// A key that lookup misses is absent from every entry.
pub proof fn lemma_lookup_none_absent(m: CacheModel, k: EventKey)
    requires
        cache_lookup(m, k) is None,
    ensures
        forall|i: int| 0 <= i < m.len() ==> m[i].0 != k,
    decreases m.len(),
{
    if m.len() > 0 {
        lemma_lookup_none_absent(m.drop_first(), k);
        assert forall|i: int| 0 <= i < m.len() implies m[i].0 != k by {
            if i > 0 {
                assert(m.drop_first()[i - 1] == m[i]);
            }
        }
    }
}

/// Resolution is idempotent: once a key has gone through one
/// resolve-or-create step, a second step with the same key performs no
/// creation and returns the same id.
pub proof fn lemma_resolve_idempotent(m: CacheModel, k: EventKey, evs: Seq<EventKey>)
    ensures
        ({
            let (m1, evs1, id1) = cache_step(m, k, evs);
            let (m2, evs2, id2) = cache_step(m1, k, evs1);
            m2 == m1 && evs2 == evs1 && id2 == id1
        }),
{
    if cache_lookup(m, k) is None {
        lemma_lookup_push(m, (k, evs.len() as int), k);
    }
}

/// A resolve-or-create step preserves key uniqueness and the lockstep
/// correspondence between cache and creation list.
pub proof fn lemma_cache_step_wf(m: CacheModel, k: EventKey, evs: Seq<EventKey>)
    requires
        cache_wf(m),
        cache_matches_creations(m, evs),
    ensures
        ({
            let (m2, evs2, id) = cache_step(m, k, evs);
            cache_wf(m2) && cache_matches_creations(m2, evs2) && 0 <= id < evs2.len()
        }),
{
    if cache_lookup(m, k) is None {
        lemma_lookup_none_absent(m, k);
    } else {
        lemma_lookup_some_present(m, k);
    }
}

/// A key that lookup finds is present, with the id lookup returned.
pub proof fn lemma_lookup_some_present(m: CacheModel, k: EventKey)
    requires
        cache_lookup(m, k) is Some,
    ensures
        exists|i: int|
            0 <= i < m.len() && m[i].0 == k && m[i].1 == cache_lookup(m, k).unwrap(),
    decreases m.len(),
{
    if m.len() > 0 && m[0].0 != k {
        lemma_lookup_some_present(m.drop_first(), k);
        let i = choose|i: int|
            0 <= i < m.drop_first().len() && m.drop_first()[i].0 == k && m.drop_first()[i].1
                == cache_lookup(m.drop_first(), k).unwrap();
        assert(m[i + 1] == m.drop_first()[i]);
    }
}

impl EventCache {
    /// A fresh, empty cache.
    pub fn new() -> (c: EventCache)
        ensures
            c@ == Seq::<(EventKey, int)>::empty(),
    {
        let c = EventCache { entries: Vec::new() };
        proof {
            assert(c@ =~= Seq::<(EventKey, int)>::empty());
        }
        c
    }

    /// The memoized id for a key, if the key has been resolved before.
    pub fn resolve(&self, info: &EventInfo, band: Year) -> (r: Option<usize>)
        ensures
            match r {
                Some(id) => cache_lookup(self@, (info.name@, info.event_year, band)) == Some(
                    id as int,
                ),
                None => cache_lookup(self@, (info.name@, info.event_year, band)) is None,
            },
    {
        let ghost k: EventKey = (info.name@, info.event_year, band);
        proof {
            assert(self@.skip(0) =~= self@);
        }
        let mut i: usize = 0;
        while i < self.entries.len()
            invariant
                i <= self.entries@.len(),
                k == (info.name@, info.event_year, band),
                cache_lookup(self@, k) == cache_lookup(self@.skip(i as int), k),
            decreases self.entries@.len() - i,
        {
            let e = &self.entries[i];
            proof {
                assert(self@.skip(i as int)[0] == self@[i as int]);
            }
            let names_eq = e.name == info.name;
            proof {
                assert(self@[i as int].0 == (e.name@, e.event_year, e.person_band));
            }
            if names_eq && e.event_year == info.event_year && e.person_band == band {
                proof {
                    assert(e.name@ == info.name@);
                    assert((e.name@, e.event_year, e.person_band) =~= k);
                    assert(self@.skip(i as int)[0].0 == k);
                }
                return Some(e.event_id);
            }
            proof {
                assert(!(e.name@ == info.name@ && e.event_year == info.event_year
                    && e.person_band == band));
                assert(!((e.name@, e.event_year, e.person_band) =~= k));
                assert(self@.skip(i as int)[0].0 != k);
                assert(self@.skip(i as int).drop_first() =~= self@.skip(i + 1));
            }
            i += 1;
        }
        proof {
            assert(self@.skip(self.entries@.len() as int) =~= Seq::<(EventKey, int)>::empty());
        }
        None
    }

    /// Returns the id for the key, creating a new creation request (with the
    /// next id) exactly when the key has never been resolved before.
    pub fn resolve_or_create(
        &mut self,
        info: &EventInfo,
        band: Year,
        events: &mut Vec<EventCreation>,
    ) -> (id: usize)
        ensures
            ({
                let (m2, evs2, sid) = cache_step(
                    old(self)@,
                    (info.name@, info.event_year, band),
                    creations_of(old(events)@),
                );
                final(self)@ == m2 && creations_of(final(events)@) == evs2 && id as int == sid
            }),
    {
        let ghost k: EventKey = (info.name@, info.event_year, band);
        match self.resolve(info, band) {
            Some(id) => id,
            None => {
                let id = events.len();
                events.push(
                    EventCreation {
                        name: info.name.clone(),
                        event_year: info.event_year,
                        person_band: band,
                    },
                );
                self.entries.push(
                    CacheEntry {
                        name: info.name.clone(),
                        event_year: info.event_year,
                        person_band: band,
                        event_id: id,
                    },
                );
                proof {
                    assert(self@ =~= old(self)@.push((k, id as int)));
                    assert(creations_of(events@) =~= creations_of(old(events)@).push(k));
                }
                id
            },
        }
    }
}

} // verus!

