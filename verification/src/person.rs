//! Person resolver, prefetched-map strategy: the whole people table is read
//! once at startup into a directory, and each row's full-name field is then
//! resolved by exact in-memory lookup (the form is not part of the match
//! key). The pipeline never creates or mutates people.

use vstd::prelude::*;
use crate::text::str_eq;

verus! {

/// A durable person record, owned by an external system and read-only here.
pub struct PersonRecord {
    pub id: i64,
    pub first_name: String,
    pub surname: String,
    pub form: String,
}

/// A person together with the ids of the events they attended.
pub struct PersonPlusEvents {
    pub first_name: String,
    pub surname: String,
    pub form: String,
    pub event_db_ids: Vec<i32>,
}

/// One directory entry: a full name and the id it resolves to.
pub struct PersonEntry {
    pub full_name: String,
    pub id: i64,
}

/// Model of the directory: (full name, id) pairs in order.
pub type DirectoryModel = Seq<(Seq<char>, int)>;

/// The full name a record is looked up under: "{first} {surname}".
pub open spec fn full_name_of(first: Seq<char>, surname: Seq<char>) -> Seq<char> {
    first + " "@ + surname
}

/// The id the directory gives a full name, if any: the first entry with
/// that name.
pub open spec fn person_lookup(m: DirectoryModel, name: Seq<char>) -> Option<int>
    decreases m.len(),
{
    if m.len() == 0 {
        None
    } else if m[0].0 == name {
        Some(m[0].1)
    } else {
        person_lookup(m.drop_first(), name)
    }
}

/// The prefetched full-name directory.
pub struct PersonDirectory {
    pub entries: Vec<PersonEntry>,
}

impl View for PersonDirectory {
    type V = DirectoryModel;

    open spec fn view(&self) -> DirectoryModel {
        Seq::new(
            self.entries@.len(),
            |i: int| (self.entries@[i].full_name@, self.entries@[i].id as int),
        )
    }
}

impl PersonDirectory {
    /// Builds the directory from the store's people, in order.
    pub fn build(people: &Vec<PersonRecord>) -> (d: PersonDirectory)
        ensures
            d@.len() == people@.len(),
            forall|i: int|
                0 <= i < people@.len() ==> d@[i] == (
                    full_name_of(people@[i].first_name@, people@[i].surname@),
                    people@[i].id as int,
                ),
    {
        let mut entries: Vec<PersonEntry> = Vec::new();
        let mut i: usize = 0;
        while i < people.len()
            invariant
                i <= people@.len(),
                entries@.len() == i,
                forall|j: int|
                    0 <= j < i as int ==> (entries@[j].full_name@, entries@[j].id as int) == (
                        full_name_of(people@[j].first_name@, people@[j].surname@),
                        people@[j].id as int,
                    ),
            decreases people@.len() - i,
        {
            let p = &people[i];
            let mut full_name = p.first_name.clone();
            full_name.append(" ");
            full_name.append(p.surname.as_str());
            entries.push(PersonEntry { full_name, id: p.id });
            i += 1;
        }
        let d = PersonDirectory { entries };
        d
    }

    /// Resolves a row's full-name field. `None` covers both an absent name
    /// and any failure to match; the caller skips and reports the row.
    pub fn lookup(&self, full_name: &str) -> (r: Option<i64>)
        ensures
            match r {
                Some(id) => person_lookup(self@, full_name@) == Some(id as int),
                None => person_lookup(self@, full_name@) is None,
            },
    {
        proof {
            assert(self@.skip(0) =~= self@);
        }
        let mut i: usize = 0;
        while i < self.entries.len()
            invariant
                i <= self.entries@.len(),
                person_lookup(self@, full_name@) == person_lookup(
                    self@.skip(i as int),
                    full_name@,
                ),
            decreases self.entries@.len() - i,
        {
            let e = &self.entries[i];
            proof {
                assert(self@.skip(i as int)[0] == self@[i as int]);
            }
            if str_eq(e.full_name.as_str(), full_name) {
                return Some(e.id);
            }
            proof {
                assert(self@.skip(i as int).drop_first() =~= self@.skip(i + 1));
            }
            i += 1;
        }
        proof {
            assert(self@.skip(self.entries@.len() as int) =~= Seq::<(Seq<char>, int)>::empty());
        }
        None
    }
}

} // verus!
