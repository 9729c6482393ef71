use event_import::cache::{EventCache, EventCreation, event_location, event_teacher};
use event_import::error::ImportError;
use event_import::header::build_schema;
use event_import::person::{PersonDirectory, PersonRecord};
use event_import::text::{str_eq, trim};
use event_import::year::{EventInfo, Year};

fn s(x: &str) -> String {
    x.to_string()
}

#[test]
fn parse_accepts_every_known_form_token() {
    assert_eq!(Year::parse("4K"), Ok(Year::_4));
    assert_eq!(Year::parse("L5K"), Ok(Year::L5));
    assert_eq!(Year::parse("U5K"), Ok(Year::U5));
    assert_eq!(Year::parse("L6K"), Ok(Year::L6));
    assert_eq!(Year::parse("U6K"), Ok(Year::U6));
}

#[test]
fn parse_rejects_unknown_tokens() {
    assert_eq!(Year::parse("7K"), Err(ImportError::InvalidYearBand(s("7K"))));
    assert_eq!(Year::parse(""), Err(ImportError::InvalidYearBand(s(""))));
    // exact match only: no case folding, no trimming
    assert_eq!(Year::parse("4k"), Err(ImportError::InvalidYearBand(s("4k"))));
    assert_eq!(Year::parse(" 4K"), Err(ImportError::InvalidYearBand(s(" 4K"))));
}

#[test]
fn event_prefix_values() {
    assert_eq!(Year::_4.event_prefix(), "4th");
    assert_eq!(Year::L5.event_prefix(), "L5");
    assert_eq!(Year::U5.event_prefix(), "U5");
    assert_eq!(Year::L6.event_prefix(), "L6");
    assert_eq!(Year::U6.event_prefix(), "U6");
}

#[test]
fn get_year_adds_event_offset_to_person_intake() {
    // person's intake year
    assert_eq!(Year::get_year(Year::_4, Year::_4), 2022);
    assert_eq!(Year::get_year(Year::_4, Year::U6), 2018);
    // event band offset on top of the attending person's intake
    assert_eq!(Year::get_year(Year::L5, Year::_4), 2023);
    assert_eq!(Year::get_year(Year::U6, Year::U6), 2022);
    assert_eq!(Year::get_year(Year::L6, Year::L5), 2024);
}

#[test]
fn display_name_is_prefix_space_name() {
    let info = EventInfo { name: s("Geography Trip"), event_year: Year::L5 };
    assert_eq!(info.display_name(), "L5 Geography Trip");
    let info = EventInfo { name: s("Play"), event_year: Year::_4 };
    assert_eq!(info.display_name(), "4th Play");
}

#[test]
fn trim_removes_whitespace_at_both_ends() {
    assert_eq!(trim("  hello "), "hello");
    assert_eq!(trim("\t a b \r\n"), "a b");
    assert_eq!(trim("x"), "x");
    assert_eq!(trim("   "), "");
    assert_eq!(trim(""), "");
}

#[test]
fn str_eq_is_exact() {
    assert!(str_eq("abc", "abc"));
    assert!(!str_eq("abc", "abd"));
    assert!(!str_eq("abc", "ab"));
    assert!(str_eq("", ""));
}

#[test]
fn schema_groups_columns_by_band() {
    let cells = vec![s("Trip A"), s("YEAR SEPARATOR"), s("Trip B")];
    let schema = build_schema(&cells).unwrap();
    assert_eq!(schema.cols.len(), 2);
    assert_eq!(
        schema.cols[0],
        Some(EventInfo { name: s("Trip A"), event_year: Year::_4 })
    );
    assert_eq!(
        schema.cols[1],
        Some(EventInfo { name: s("Trip B"), event_year: Year::L5 })
    );
}

#[test]
fn schema_omits_empty_columns_and_trims_names() {
    let cells = vec![s(" A "), s("  "), s("B")];
    let schema = build_schema(&cells).unwrap();
    assert_eq!(schema.cols.len(), 3);
    assert_eq!(schema.cols[0], Some(EventInfo { name: s("A"), event_year: Year::_4 }));
    assert_eq!(schema.cols[1], None);
    assert_eq!(schema.cols[2], Some(EventInfo { name: s("B"), event_year: Year::_4 }));
}

#[test]
fn schema_sentinel_matches_after_trimming() {
    let cells = vec![s("  YEAR SEPARATOR  "), s("X")];
    let schema = build_schema(&cells).unwrap();
    assert_eq!(schema.cols.len(), 1);
    assert_eq!(schema.cols[0], Some(EventInfo { name: s("X"), event_year: Year::L5 }));
}

#[test]
fn schema_allows_four_separators() {
    let cells = vec![
        s("a"),
        s("YEAR SEPARATOR"),
        s("b"),
        s("YEAR SEPARATOR"),
        s("c"),
        s("YEAR SEPARATOR"),
        s("d"),
        s("YEAR SEPARATOR"),
        s("e"),
    ];
    let schema = build_schema(&cells).unwrap();
    assert_eq!(schema.cols.len(), 5);
    assert_eq!(schema.cols[4], Some(EventInfo { name: s("e"), event_year: Year::U6 }));
}

#[test]
fn schema_fails_on_fifth_separator() {
    let mut cells = Vec::new();
    for _ in 0..5 {
        cells.push(s("YEAR SEPARATOR"));
    }
    assert_eq!(build_schema(&cells), Err(ImportError::HeaderSequenceExhausted));
}

#[test]
fn cache_creates_once_per_key_and_memoizes_the_id() {
    let mut cache = EventCache::new();
    let mut events: Vec<EventCreation> = Vec::new();
    let info = EventInfo { name: s("Trip"), event_year: Year::_4 };
    let id0 = cache.resolve_or_create(&info, Year::_4, &mut events);
    let id1 = cache.resolve_or_create(&info, Year::_4, &mut events);
    assert_eq!(id0, 0);
    assert_eq!(id1, 0);
    assert_eq!(events.len(), 1);
    // a different attending band is a different key
    let id2 = cache.resolve_or_create(&info, Year::L5, &mut events);
    assert_eq!(id2, 1);
    assert_eq!(events.len(), 2);
    assert_eq!(cache.resolve(&info, Year::_4), Some(0));
    assert_eq!(cache.resolve(&info, Year::L5), Some(1));
    let other = EventInfo { name: s("Other"), event_year: Year::_4 };
    assert_eq!(cache.resolve(&other, Year::_4), None);
}

#[test]
fn creation_derives_display_name_year_and_date() {
    let c = EventCreation { name: s("Trip B"), event_year: Year::L5, person_band: Year::L5 };
    assert_eq!(c.display_name(), "L5 Trip B");
    assert_eq!(c.calendar_year(), 2022);
    let d = c.event_date();
    assert_eq!(d.year, 2022);
    assert_eq!(d.month, 9);
    assert_eq!(d.day, 1);
    assert_eq!(d.hour, 9);
    assert_eq!(d.minute, 0);
    assert_eq!(d.second, 0);
    assert_eq!(event_location(), "KCS");
    assert_eq!(event_teacher(), "MJPC");
}

#[test]
fn directory_matches_full_name_only() {
    let people = vec![
        PersonRecord { id: 7, first_name: s("Alice"), surname: s("Smith"), form: s("4K") },
        PersonRecord { id: 9, first_name: s("Bob"), surname: s("Jones"), form: s("L5K") },
    ];
    let dir = PersonDirectory::build(&people);
    assert_eq!(dir.lookup("Alice Smith"), Some(7));
    assert_eq!(dir.lookup("Bob Jones"), Some(9));
    assert_eq!(dir.lookup("Alice Jones"), None);
    assert_eq!(dir.lookup("alice smith"), None);
}

#[test]
fn directory_duplicate_names_resolve_to_the_first() {
    let people = vec![
        PersonRecord { id: 1, first_name: s("Ann"), surname: s("Lee"), form: s("4K") },
        PersonRecord { id: 2, first_name: s("Ann"), surname: s("Lee"), form: s("U5K") },
    ];
    let dir = PersonDirectory::build(&people);
    assert_eq!(dir.lookup("Ann Lee"), Some(1));
}
