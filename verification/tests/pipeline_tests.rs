use event_import::error::ImportError;
use event_import::person::{PersonDirectory, PersonRecord};
use event_import::pipeline::{run_import, RowOutcome};
use event_import::year::Year;

fn s(x: &str) -> String {
    x.to_string()
}

fn row(cells: &[&str]) -> Vec<String> {
    cells.iter().map(|c| c.to_string()).collect()
}

fn people_alice_bob() -> PersonDirectory {
    PersonDirectory::build(&vec![
        PersonRecord { id: 1, first_name: s("Alice"), surname: s("Smith"), form: s("4K") },
        PersonRecord { id: 2, first_name: s("Bob"), surname: s("Jones"), form: s("L5K") },
    ])
}

#[test]
fn empty_input_yields_an_empty_plan() {
    let rows: Vec<Vec<String>> = Vec::new();
    let plan = run_import(&rows, &people_alice_bob()).unwrap();
    assert!(plan.events.is_empty());
    assert!(plan.associations.is_empty());
    assert!(plan.outcomes.is_empty());
}

#[test]
fn two_rows_resolve_to_two_events_and_two_associations() {
    let rows = vec![
        row(&["Name", "Form", "Trip A", "YEAR SEPARATOR", "Trip B"]),
        row(&["Alice Smith", "4K", "x", ""]),
        row(&["Bob Jones", "L5K", "", "y"]),
    ];
    let plan = run_import(&rows, &people_alice_bob()).unwrap();

    assert_eq!(plan.events.len(), 2);
    assert_eq!(plan.events[0].name, "Trip A");
    assert_eq!(plan.events[0].event_year, Year::_4);
    assert_eq!(plan.events[0].person_band, Year::_4);
    assert_eq!(plan.events[0].calendar_year(), 2022);
    assert_eq!(plan.events[1].name, "Trip B");
    assert_eq!(plan.events[1].event_year, Year::L5);
    assert_eq!(plan.events[1].person_band, Year::L5);
    // Bob's own intake year 2021 plus the L5 band offset 1
    assert_eq!(plan.events[1].calendar_year(), 2022);

    assert_eq!(plan.associations.len(), 2);
    assert_eq!(plan.associations[0].person_id, 1);
    assert_eq!(plan.associations[0].event_index, 0);
    assert_eq!(plan.associations[1].person_id, 2);
    assert_eq!(plan.associations[1].event_index, 1);

    assert_eq!(plan.outcomes.len(), 2);
    assert!(matches!(
        plan.outcomes[0],
        RowOutcome::Resolved { person_id: 1, association_count: 1 }
    ));
    assert!(matches!(
        plan.outcomes[1],
        RowOutcome::Resolved { person_id: 2, association_count: 1 }
    ));
}

#[test]
fn one_event_key_is_created_once_across_rows() {
    let rows = vec![
        row(&["Name", "Form", "Trip"]),
        row(&["Alice Smith", "4K", "x"]),
        row(&["Carol King", "4K", "yes"]),
    ];
    let people = PersonDirectory::build(&vec![
        PersonRecord { id: 1, first_name: s("Alice"), surname: s("Smith"), form: s("4K") },
        PersonRecord { id: 3, first_name: s("Carol"), surname: s("King"), form: s("4K") },
    ]);
    let plan = run_import(&rows, &people).unwrap();
    assert_eq!(plan.events.len(), 1);
    assert_eq!(plan.associations.len(), 2);
    assert_eq!(plan.associations[0].event_index, 0);
    assert_eq!(plan.associations[1].event_index, 0);
}

#[test]
fn same_event_name_with_different_attending_bands_makes_two_events() {
    let rows = vec![
        row(&["Name", "Form", "Trip"]),
        row(&["Alice Smith", "4K", "x"]),
        row(&["Bob Jones", "L5K", "x"]),
    ];
    let plan = run_import(&rows, &people_alice_bob()).unwrap();
    assert_eq!(plan.events.len(), 2);
    assert_eq!(plan.events[0].person_band, Year::_4);
    assert_eq!(plan.events[1].person_band, Year::L5);
    // same event band, so the calendar years differ by the intake years
    assert_eq!(plan.events[0].calendar_year(), 2022);
    assert_eq!(plan.events[1].calendar_year(), 2021);
}

#[test]
fn unmatched_person_is_skipped_with_its_intended_columns() {
    let rows = vec![
        row(&["Name", "Form", "Trip A", "Trip B", "Trip C"]),
        row(&["Nobody Known", "4K", "x", "", "y"]),
    ];
    let plan = run_import(&rows, &people_alice_bob()).unwrap();
    assert!(plan.events.is_empty());
    assert!(plan.associations.is_empty());
    assert_eq!(plan.outcomes.len(), 1);
    match &plan.outcomes[0] {
        RowOutcome::Skipped { full_name, intended_columns } => {
            assert_eq!(full_name, "Nobody Known");
            assert_eq!(intended_columns, &vec![0usize, 2usize]);
        },
        _ => panic!("expected a skipped row"),
    }
}

#[test]
fn invalid_form_aborts_the_whole_run() {
    let rows = vec![
        row(&["Name", "Form", "Trip A", "YEAR SEPARATOR", "Trip B"]),
        row(&["Alice Smith", "7K", "x", ""]),
        row(&["Bob Jones", "L5K", "", "y"]),
    ];
    let r = run_import(&rows, &people_alice_bob());
    assert_eq!(r.err(), Some(ImportError::InvalidYearBand(s("7K"))));
}

#[test]
fn data_under_a_headerless_column_is_fatal() {
    let rows = vec![
        row(&["Name", "Form", "Trip A"]),
        row(&["Alice Smith", "4K", "", "x"]),
    ];
    let r = run_import(&rows, &people_alice_bob());
    assert_eq!(r.err(), Some(ImportError::UnknownColumn(1)));
}

#[test]
fn data_under_an_empty_header_cell_is_fatal() {
    let rows = vec![
        row(&["Name", "Form", "Trip A", " "]),
        row(&["Alice Smith", "4K", "", "x"]),
    ];
    let r = run_import(&rows, &people_alice_bob());
    assert_eq!(r.err(), Some(ImportError::UnknownColumn(1)));
}

#[test]
fn header_with_too_many_separators_is_fatal() {
    let mut header = row(&["Name", "Form"]);
    for _ in 0..5 {
        header.push(s("YEAR SEPARATOR"));
    }
    let rows = vec![header, row(&["Alice Smith", "4K"])];
    let r = run_import(&rows, &people_alice_bob());
    assert_eq!(r.err(), Some(ImportError::HeaderSequenceExhausted));
}

#[test]
fn skipped_rows_do_not_hide_later_fatal_errors() {
    let rows = vec![
        row(&["Name", "Form", "Trip A"]),
        row(&["Nobody Known", "4K", "x"]),
        row(&["Alice Smith", "7K", "x"]),
    ];
    let r = run_import(&rows, &people_alice_bob());
    assert_eq!(r.err(), Some(ImportError::InvalidYearBand(s("7K"))));
}
