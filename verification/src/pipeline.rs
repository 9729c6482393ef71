//! Row processor and pipeline driver: the header row yields the column
//! schema, every later row resolves its person and, for each non-empty cell,
//! resolves the event through the cache and emits one association. The run
//! produces a plan — the creation requests and associations — which a store
//! layer can then execute.

use vstd::prelude::*;
use crate::cache::{
    cache_matches_creations, cache_step, cache_wf, creations_of, lemma_cache_step_wf, CacheModel,
    EventCache, EventCreation, EventKey,
};
use crate::error::{err_matches, ErrorModel, ImportError};
use crate::header::{build_schema, header_fold, ColumnSchema, SchemaModel};
use crate::person::{person_lookup, DirectoryModel, PersonDirectory};
use crate::year::Year;

verus! {

/// The pipeline's accumulated effects: the cache, the creation requests
/// issued so far, and the (person id, event id) associations emitted.
pub struct PipelineState {
    pub cache: CacheModel,
    pub events: Seq<EventKey>,
    pub assocs: Seq<(int, int)>,
}

/// Model of a per-row outcome.
pub enum RowOutcomeModel {
    Resolved { person_id: int, association_count: int },
    Skipped { full_name: Seq<char>, intended_columns: Seq<int> },
}

/// How one data row ended: resolved with its association count, or skipped
/// with the diagnostic naming the row and its intended event columns.
pub enum RowOutcome {
    Resolved { person_id: i64, association_count: usize },
    Skipped { full_name: String, intended_columns: Vec<usize> },
}

impl RowOutcome {
    pub open spec fn model(&self) -> RowOutcomeModel {
        match self {
            RowOutcome::Resolved { person_id, association_count } => RowOutcomeModel::Resolved {
                person_id: *person_id as int,
                association_count: *association_count as int,
            },
            RowOutcome::Skipped { full_name, intended_columns } => RowOutcomeModel::Skipped {
                full_name: full_name@,
                intended_columns: Seq::new(
                    intended_columns@.len(),
                    |i: int| intended_columns@[i] as int,
                ),
            },
        }
    }
}

/// One attendance fact: the resolved person and the index of the event
/// creation it belongs to.
pub struct Association {
    pub person_id: i64,
    pub event_index: usize,
}

/// The result of a run: events to create (index = event id), associations
/// to insert, and one outcome per data row.
pub struct ImportPlan {
    pub events: Vec<EventCreation>,
    pub associations: Vec<Association>,
    pub outcomes: Vec<RowOutcome>,
}

/// Models of a sequence of associations.
pub open spec fn assocs_of(s: Seq<Association>) -> Seq<(int, int)> {
    Seq::new(s.len(), |i: int| (s[i].person_id as int, s[i].event_index as int))
}

/// Models of a sequence of row outcomes.
pub open spec fn outcomes_of(s: Seq<RowOutcome>) -> Seq<RowOutcomeModel> {
    Seq::new(s.len(), |i: int| s[i].model())
}

/// A row's event cells: everything after the two identity columns.
pub open spec fn event_cells(row: Seq<Seq<char>>) -> Seq<Seq<char>> {
    if row.len() >= 2 {
        row.skip(2)
    } else {
        Seq::empty()
    }
}

/// The column indices a row marks attendance in.
pub open spec fn nonempty_indices(cells: Seq<Seq<char>>) -> Seq<int>
    decreases cells.len(),
{
    if cells.len() == 0 {
        Seq::empty()
    } else if cells.last().len() > 0 {
        nonempty_indices(cells.drop_last()).push(cells.len() - 1)
    } else {
        nonempty_indices(cells.drop_last())
    }
}

/// Whether the data under column `j` can be resolved: the cell is empty, or
/// the schema names an event for that column.
pub open spec fn cell_ok(cells: Seq<Seq<char>>, schema: SchemaModel, j: int) -> bool {
    cells[j].len() == 0 || (0 <= j < schema.len() && schema[j] is Some)
}

/// Left-to-right fold of a resolved row's cells: each non-empty cell under a
/// known column resolves its event through the cache and emits one
/// association. `Err(j)` is the leftmost column with data but no schema
/// entry.
pub open spec fn row_fold(
    cells: Seq<Seq<char>>,
    schema: SchemaModel,
    band: Year,
    pid: int,
    st: PipelineState,
) -> Result<PipelineState, int>
    decreases cells.len(),
{
    if cells.len() == 0 {
        Ok(st)
    } else {
        match row_fold(cells.drop_last(), schema, band, pid, st) {
            Err(j) => Err(j),
            Ok(st1) => {
                let j = cells.len() - 1;
                if cells.last().len() == 0 {
                    Ok(st1)
                } else if j < schema.len() && schema[j] is Some {
                    match schema[j] {
                        Some(entry) => {
                            let step = cache_step(st1.cache, (entry.0, entry.1, band), st1.events);
                            Ok(
                                PipelineState {
                                    cache: step.0,
                                    events: step.1,
                                    assocs: st1.assocs.push((pid, step.2)),
                                },
                            )
                        },
                        None => Err(j),
                    }
                } else {
                    Err(j)
                }
            },
        }
    }
}

/// One data row: parse the form, resolve the person, then fold the cells.
pub open spec fn row_spec(
    row: Seq<Seq<char>>,
    schema: SchemaModel,
    people: DirectoryModel,
    st: PipelineState,
) -> Result<(PipelineState, RowOutcomeModel), ErrorModel> {
    let cells = event_cells(row);
    match Year::spec_parse(row[1]) {
        None => Err(ErrorModel::InvalidYearBand(row[1])),
        Some(band) => match person_lookup(people, row[0]) {
            None => Ok(
                (
                    st,
                    RowOutcomeModel::Skipped {
                        full_name: row[0],
                        intended_columns: nonempty_indices(cells),
                    },
                ),
            ),
            Some(pid) => match row_fold(cells, schema, band, pid, st) {
                Err(j) => Err(ErrorModel::UnknownColumn(j)),
                Ok(st2) => Ok(
                    (
                        st2,
                        RowOutcomeModel::Resolved {
                            person_id: pid,
                            association_count: st2.assocs.len() - st.assocs.len(),
                        },
                    ),
                ),
            },
        },
    }
}

/// Fold of the data rows in order; the first fatal error aborts the run.
pub open spec fn rows_fold(
    rows: Seq<Seq<Seq<char>>>,
    schema: SchemaModel,
    people: DirectoryModel,
    st: PipelineState,
) -> Result<(PipelineState, Seq<RowOutcomeModel>), ErrorModel>
    decreases rows.len(),
{
    if rows.len() == 0 {
        Ok((st, Seq::empty()))
    } else {
        match rows_fold(rows.drop_last(), schema, people, st) {
            Err(e) => Err(e),
            Ok(acc) => match row_spec(rows.last(), schema, people, acc.0) {
                Err(e) => Err(e),
                Ok(res) => Ok((res.0, acc.1.push(res.1))),
            },
        }
    }
}

/// The state a run starts from.
pub open spec fn init_state() -> PipelineState {
    PipelineState { cache: Seq::empty(), events: Seq::empty(), assocs: Seq::empty() }
}

/// The whole run: row 0 builds the schema, the rest are data rows.
pub open spec fn run_spec(rows: Seq<Seq<Seq<char>>>, people: DirectoryModel) -> Result<
    (PipelineState, Seq<RowOutcomeModel>),
    ErrorModel,
> {
    if rows.len() == 0 {
        Ok((init_state(), Seq::empty()))
    } else {
        match header_fold(event_cells(rows[0])) {
            None => Err(ErrorModel::HeaderSequenceExhausted),
            Some(sb) => rows_fold(rows.skip(1), sb.0, people, init_state()),
        }
    }
}

/// Internal consistency of the pipeline state: the cache holds exactly one
/// entry per creation request, keys are unique, and every association's
/// event index names an issued creation.
pub open spec fn state_inv(st: PipelineState) -> bool {
    &&& cache_wf(st.cache)
    &&& cache_matches_creations(st.cache, st.events)
    &&& forall|i: int| 0 <= i < st.assocs.len() ==> 0 <= #[trigger] st.assocs[i].1 < st.events.len()
}

/// A row fold preserves the state invariant; events only grow.
pub proof fn lemma_row_fold_inv(
    cells: Seq<Seq<char>>,
    schema: SchemaModel,
    band: Year,
    pid: int,
    st: PipelineState,
)
    requires
        state_inv(st),
    ensures
        match row_fold(cells, schema, band, pid, st) {
            Ok(st2) => state_inv(st2) && st.events.len() <= st2.events.len(),
            Err(_) => true,
        },
    decreases cells.len(),
{
    if cells.len() > 0 {
        lemma_row_fold_inv(cells.drop_last(), schema, band, pid, st);
        match row_fold(cells.drop_last(), schema, band, pid, st) {
            Err(_) => {},
            Ok(st1) => {
                let j = cells.len() - 1;
                if cells.last().len() == 0 {
                } else if j < schema.len() && schema[j] is Some {
                    match schema[j] {
                        Some(entry) => {
                            lemma_cache_step_wf(st1.cache, (entry.0, entry.1, band), st1.events);
                        },
                        None => {},
                    }
                }
            },
        }
    }
}

/// A row preserves the state invariant; events only grow.
pub proof fn lemma_row_spec_inv(
    row: Seq<Seq<char>>,
    schema: SchemaModel,
    people: DirectoryModel,
    st: PipelineState,
)
    requires
        state_inv(st),
    ensures
        match row_spec(row, schema, people, st) {
            Ok(res) => state_inv(res.0) && st.events.len() <= res.0.events.len(),
            Err(_) => true,
        },
{
    match Year::spec_parse(row[1]) {
        None => {},
        Some(band) => match person_lookup(people, row[0]) {
            None => {},
            Some(pid) => {
                lemma_row_fold_inv(event_cells(row), schema, band, pid, st);
            },
        },
    }
}

/// The fold of all data rows preserves the state invariant.
pub proof fn lemma_rows_fold_inv(
    rows: Seq<Seq<Seq<char>>>,
    schema: SchemaModel,
    people: DirectoryModel,
    st: PipelineState,
)
    requires
        state_inv(st),
    ensures
        match rows_fold(rows, schema, people, st) {
            Ok(acc) => state_inv(acc.0),
            Err(_) => true,
        },
    decreases rows.len(),
{
    if rows.len() > 0 {
        lemma_rows_fold_inv(rows.drop_last(), schema, people, st);
        match rows_fold(rows.drop_last(), schema, people, st) {
            Err(_) => {},
            Ok(acc) => {
                lemma_row_spec_inv(rows.last(), schema, people, acc.0);
            },
        }
    }
}

/// Every distinct (event name, event band, person band) key leads to exactly
/// one creation request: in any successful run the creation requests carry
/// pairwise distinct keys, and every association's event index names one of
/// them.
pub proof fn lemma_each_key_created_once(rows: Seq<Seq<Seq<char>>>, people: DirectoryModel)
    ensures
        match run_spec(rows, people) {
            Ok(res) => {
                &&& forall|i: int, j: int|
                    0 <= i < j < res.0.events.len() ==> res.0.events[i] != res.0.events[j]
                &&& forall|t: int|
                    0 <= t < res.0.assocs.len() ==> 0 <= #[trigger] res.0.assocs[t].1
                        < res.0.events.len()
            },
            Err(_) => true,
        },
{
    assert(state_inv(init_state()));
    if rows.len() > 0 {
        match header_fold(event_cells(rows[0])) {
            None => {},
            Some(sb) => {
                lemma_rows_fold_inv(rows.skip(1), sb.0, people, init_state());
                match rows_fold(rows.skip(1), sb.0, people, init_state()) {
                    Err(_) => {},
                    Ok(acc) => {
                        assert forall|i: int, j: int|
                            0 <= i < j < acc.0.events.len() implies acc.0.events[i]
                            != acc.0.events[j] by {
                            assert(acc.0.cache[i] == (acc.0.events[i], i));
                            assert(acc.0.cache[j] == (acc.0.events[j], j));
                        }
                    },
                }
            },
        }
    }
}

/// An error in a prefix of the cells decides the whole row fold.
proof fn lemma_row_fold_err_persists(
    cells: Seq<Seq<char>>,
    schema: SchemaModel,
    band: Year,
    pid: int,
    st: PipelineState,
    i: int,
)
    requires
        0 <= i <= cells.len(),
        row_fold(cells.take(i), schema, band, pid, st) is Err,
    ensures
        row_fold(cells, schema, band, pid, st) == row_fold(cells.take(i), schema, band, pid, st),
    decreases cells.len() - i,
{
    if i == cells.len() {
        assert(cells.take(i) =~= cells);
    } else {
        assert(cells.take(i + 1).drop_last() =~= cells.take(i));
        lemma_row_fold_err_persists(cells, schema, band, pid, st, i + 1);
    }
}

/// If every cell of a prefix is resolvable, the fold of that prefix
/// succeeds.
proof fn lemma_row_fold_prefix_ok(
    cells: Seq<Seq<char>>,
    schema: SchemaModel,
    band: Year,
    pid: int,
    st: PipelineState,
    j: int,
)
    requires
        0 <= j <= cells.len(),
        forall|t: int| 0 <= t < j ==> cell_ok(cells, schema, t),
    ensures
        row_fold(cells.take(j), schema, band, pid, st) is Ok,
    decreases j,
{
    if j > 0 {
        lemma_row_fold_prefix_ok(cells, schema, band, pid, st, j - 1);
        assert(cells.take(j).drop_last() =~= cells.take(j - 1));
        assert(cells.take(j).last() == cells[j - 1]);
        assert(cell_ok(cells, schema, j - 1));
    }
}

/// An error in a prefix of the data rows decides the whole run fold.
proof fn lemma_rows_fold_err_persists(
    rows: Seq<Seq<Seq<char>>>,
    schema: SchemaModel,
    people: DirectoryModel,
    st: PipelineState,
    i: int,
)
    requires
        0 <= i <= rows.len(),
        rows_fold(rows.take(i), schema, people, st) is Err,
    ensures
        rows_fold(rows, schema, people, st) == rows_fold(rows.take(i), schema, people, st),
    decreases rows.len() - i,
{
    if i == rows.len() {
        assert(rows.take(i) =~= rows);
    } else {
        assert(rows.take(i + 1).drop_last() =~= rows.take(i));
        lemma_rows_fold_err_persists(rows, schema, people, st, i + 1);
    }
}

/// Processes one data row: parses its form, resolves its person, and for
/// each non-empty cell resolves the event and emits one association.
///
/// For a row whose full name matches no directory entry nothing is created
/// and nothing is inserted: the state is unchanged and the outcome is the
/// skip diagnostic naming the row and its intended event columns.
pub fn process_row(
    row: &Vec<String>,
    schema: &ColumnSchema,
    people: &PersonDirectory,
    cache: &mut EventCache,
    events: &mut Vec<EventCreation>,
    associations: &mut Vec<Association>,
) -> (r: Result<RowOutcome, ImportError>)
    requires
        row@.len() >= 2,
    ensures
        ({
            let st0 = PipelineState {
                cache: old(cache)@,
                events: creations_of(old(events)@),
                assocs: assocs_of(old(associations)@),
            };
            match row_spec(row.deep_view(), schema@, people@, st0) {
                Ok(res) => match r {
                    Ok(out) => out.model() == res.1 && final(cache)@ == res.0.cache
                        && creations_of(final(events)@) == res.0.events
                        && assocs_of(final(associations)@) == res.0.assocs,
                    Err(_) => false,
                },
                Err(e) => match r {
                    Ok(_) => false,
                    Err(err) => err_matches(err, e) && final(cache)@ == old(cache)@
                        && final(events)@ == old(events)@
                        && final(associations)@ == old(associations)@,
                },
            }
        }),
{
    let ghost rdv = row.deep_view();
    let ghost st0 = PipelineState {
        cache: cache@,
        events: creations_of(events@),
        assocs: assocs_of(associations@),
    };
    proof {
        assert(rdv[0] == row@[0]@);
        assert(rdv[1] == row@[1]@);
    }
    let band = match Year::parse(row[1].as_str()) {
        Ok(y) => y,
        Err(e) => {
            return Err(e);
        },
    };
    let n = row.len() - 2;
    let ghost cells = event_cells(rdv);
    proof {
        assert(cells =~= rdv.skip(2));
        assert forall|t: int| 0 <= t < n implies cells[t] == row@[t + 2]@ by {
            assert(cells[t] == rdv[t + 2]);
        }
    }
    match people.lookup(row[0].as_str()) {
        None => {
            let mut cols: Vec<usize> = Vec::new();
            proof {
                assert(cells.take(0) =~= Seq::<Seq<char>>::empty());
                assert(nonempty_indices(Seq::<Seq<char>>::empty()) == Seq::<int>::empty());
                assert(Seq::new(cols@.len(), |i: int| cols@[i] as int) =~= Seq::<int>::empty());
            }
            let mut j: usize = 0;
            while j < n
                invariant
                    row@.len() >= 2,
                    n == row@.len() - 2,
                    n + 2 <= usize::MAX,
                    cells == event_cells(row.deep_view()),
                    cells.len() == n,
                    forall|t: int| 0 <= t < n ==> cells[t] == row@[t + 2]@,
                    j <= n,
                    Seq::new(cols@.len(), |i: int| cols@[i] as int) == nonempty_indices(
                        cells.take(j as int),
                    ),
                decreases n - j,
            {
                let ghost pre = cols@;
                proof {
                    assert(cells.take(j + 1).drop_last() =~= cells.take(j as int));
                    assert(cells.take(j + 1).last() == cells[j as int]);
                }
                if !row[j + 2].as_str().is_empty() {
                    cols.push(j);
                    proof {
                        assert(Seq::new(cols@.len(), |i: int| cols@[i] as int) =~= Seq::new(
                            pre.len(),
                            |i: int| pre[i] as int,
                        ).push(j as int));
                    }
                }
                j += 1;
            }
            proof {
                assert(cells.take(n as int) =~= cells);
            }
            let out = RowOutcome::Skipped { full_name: row[0].clone(), intended_columns: cols };
            Ok(out)
        },
        Some(pid) => {
            let mut j: usize = 0;
            while j < n
                invariant
                    row@.len() >= 2,
                    n == row@.len() - 2,
                    n + 2 <= usize::MAX,
                    rdv == row.deep_view(),
                    cells == event_cells(row.deep_view()),
                    cells.len() == n,
                    forall|t: int| 0 <= t < n ==> cells[t] == row@[t + 2]@,
                    j <= n,
                    forall|t: int| 0 <= t < j ==> cell_ok(cells, schema@, t),
                    Year::spec_parse(rdv[1]) == Some(band),
                    person_lookup(people@, rdv[0]) == Some(pid as int),
                    cache@ == old(cache)@,
                    events@ == old(events)@,
                    associations@ == old(associations)@,
                    st0 == (PipelineState {
                        cache: old(cache)@,
                        events: creations_of(old(events)@),
                        assocs: assocs_of(old(associations)@),
                    }),
                decreases n - j,
            {
                if !row[j + 2].as_str().is_empty() {
                    let mut known = false;
                    if j < schema.cols.len() {
                        if schema.cols[j].is_some() {
                            known = true;
                        }
                    }
                    if !known {
                        proof {
                            assert(cells[j as int].len() != 0);
                            assert(!cell_ok(cells, schema@, j as int));
                            lemma_row_fold_prefix_ok(cells, schema@, band, pid as int, st0,
                                j as int);
                            assert(cells.take(j + 1).drop_last() =~= cells.take(j as int));
                            assert(cells.take(j + 1).last() == cells[j as int]);
                            assert(row_fold(cells.take(j + 1), schema@, band, pid as int, st0)
                                == Err::<PipelineState, int>(j as int));
                            lemma_row_fold_err_persists(cells, schema@, band, pid as int, st0,
                                j + 1);
                        }
                        return Err(ImportError::UnknownColumn(j));
                    }
                }
                j += 1;
            }
            let mut count: usize = 0;
            let mut j2: usize = 0;
            proof {
                assert(cells.take(0) =~= Seq::<Seq<char>>::empty());
                assert(row_fold(Seq::<Seq<char>>::empty(), schema@, band, pid as int, st0)
                    == Ok::<PipelineState, int>(st0));
            }
            while j2 < n
                invariant
                    row@.len() >= 2,
                    n == row@.len() - 2,
                    n + 2 <= usize::MAX,
                    cells == event_cells(row.deep_view()),
                    cells.len() == n,
                    forall|t: int| 0 <= t < n ==> cells[t] == row@[t + 2]@,
                    j2 <= n,
                    count <= j2,
                    forall|t: int| 0 <= t < n ==> cell_ok(cells, schema@, t),
                    row_fold(cells.take(j2 as int), schema@, band, pid as int, st0)
                        == Ok::<PipelineState, int>(PipelineState {
                        cache: cache@,
                        events: creations_of(events@),
                        assocs: assocs_of(associations@),
                    }),
                    assocs_of(associations@).len() == st0.assocs.len() + count,
                decreases n - j2,
            {
                let ghost pre_assocs = assocs_of(associations@);
                proof {
                    assert(cells.take(j2 + 1).drop_last() =~= cells.take(j2 as int));
                    assert(cells.take(j2 + 1).last() == cells[j2 as int]);
                }
                if !row[j2 + 2].as_str().is_empty() {
                    proof {
                        assert(cell_ok(cells, schema@, j2 as int));
                        assert(cells[j2 as int].len() != 0);
                    }
                    match &schema.cols[j2] {
                        Some(info) => {
                            proof {
                                assert(schema@[j2 as int] == Some((info.name@, info.event_year)));
                            }
                            let id = cache.resolve_or_create(info, band, events);
                            associations.push(Association { person_id: pid, event_index: id });
                            count += 1;
                            proof {
                                assert(assocs_of(associations@) =~= pre_assocs.push(
                                    (pid as int, id as int),
                                ));
                            }
                        },
                        None => {
                            proof {
                                assert(schema@[j2 as int] is None);
                                assert(false);
                            }
                            return Err(ImportError::UnknownColumn(j2));
                        },
                    }
                }
                j2 += 1;
            }
            proof {
                assert(cells.take(n as int) =~= cells);
            }
            let out = RowOutcome::Resolved { person_id: pid, association_count: count };
            Ok(out)
        },
    }
}

/// Runs the whole import over already-tokenized rows: row 0 builds the
/// column schema, every later row is processed in order, and the first
/// fatal error aborts the run. On success the plan holds one creation
/// request per distinct event key (its index is the event id), every
/// association's event index in range, and one outcome per data row.
pub fn run_import(rows: &Vec<Vec<String>>, people: &PersonDirectory) -> (r: Result<
    ImportPlan,
    ImportError,
>)
    requires
        forall|i: int| 1 <= i < rows@.len() ==> rows@[i]@.len() >= 2,
    ensures
        match run_spec(rows.deep_view(), people@) {
            Ok(res) => match r {
                Ok(plan) => creations_of(plan.events@) == res.0.events && assocs_of(
                    plan.associations@,
                ) == res.0.assocs && outcomes_of(plan.outcomes@) == res.1 && (forall|t: int|
                    0 <= t < plan.associations@.len()
                        ==> #[trigger] plan.associations@[t].event_index < plan.events@.len()),
                Err(_) => false,
            },
            Err(e) => match r {
                Ok(_) => false,
                Err(err) => err_matches(err, e),
            },
        },
{
    let ghost rdvs = rows.deep_view();
    if rows.len() == 0 {
        let plan = ImportPlan {
            events: Vec::new(),
            associations: Vec::new(),
            outcomes: Vec::new(),
        };
        proof {
            assert(creations_of(plan.events@) =~= Seq::<EventKey>::empty());
            assert(assocs_of(plan.associations@) =~= Seq::<(int, int)>::empty());
            assert(outcomes_of(plan.outcomes@) =~= Seq::<RowOutcomeModel>::empty());
        }
        return Ok(plan);
    }
    let header: &Vec<String> = &rows[0];
    let hlen = header.len();
    let ghost hcells = event_cells(rdvs[0]);
    proof {
        assert(rdvs[0] == rows@[0].deep_view());
    }
    let mut cells: Vec<String> = Vec::new();
    let mut j: usize = 2;
    proof {
        if hlen >= 2 {
            assert(cells.deep_view() =~= rdvs[0].subrange(2, 2));
        } else {
            assert(cells.deep_view() =~= Seq::<Seq<char>>::empty());
        }
    }
    while j < hlen
        invariant
            rows@.len() >= 1,
            rdvs == rows.deep_view(),
            header@ == rows@[0]@,
            hlen == header@.len(),
            2 <= j,
            hlen >= 2 ==> j <= hlen && cells.deep_view() == rdvs[0].subrange(2, j as int),
            hlen < 2 ==> j == 2 && cells.deep_view() == Seq::<Seq<char>>::empty(),
        decreases hlen - j,
    {
        let ghost pre = cells.deep_view();
        cells.push(header[j].clone());
        proof {
            assert(cells.deep_view() =~= pre.push(header@[j as int]@));
            assert(rdvs[0][j as int] == header@[j as int]@);
            assert(rdvs[0].subrange(2, j + 1) =~= rdvs[0].subrange(2, j as int).push(
                rdvs[0][j as int],
            ));
        }
        j += 1;
    }
    proof {
        if hlen >= 2 {
            assert(rdvs[0].subrange(2, hlen as int) =~= rdvs[0].skip(2));
        }
        assert(cells.deep_view() == hcells);
    }
    let schema = match build_schema(&cells) {
        Ok(s) => s,
        Err(e) => {
            return Err(e);
        },
    };
    let mut cache = EventCache::new();
    let mut events: Vec<EventCreation> = Vec::new();
    let mut associations: Vec<Association> = Vec::new();
    let mut outcomes: Vec<RowOutcome> = Vec::new();
    let ghost drows = rdvs.skip(1);
    proof {
        assert(drows.take(0) =~= Seq::<Seq<Seq<char>>>::empty());
        assert(creations_of(events@) =~= Seq::<EventKey>::empty());
        assert(assocs_of(associations@) =~= Seq::<(int, int)>::empty());
        assert(outcomes_of(outcomes@) =~= Seq::<RowOutcomeModel>::empty());
        assert(rows_fold(drows.take(0), schema@, people@, init_state()) == Ok::<
            (PipelineState, Seq<RowOutcomeModel>),
            ErrorModel,
        >((init_state(), Seq::<RowOutcomeModel>::empty())));
    }
    let mut i: usize = 1;
    while i < rows.len()
        invariant
            1 <= i <= rows@.len(),
            rows@.len() >= 1,
            rdvs == rows.deep_view(),
            drows == rdvs.skip(1),
            drows.len() == rows@.len() - 1,
            hcells == event_cells(rdvs[0]),
            header_fold(hcells) matches Some(hp) && hp.0 == schema@,
            forall|t: int| 1 <= t < rows@.len() ==> rows@[t]@.len() >= 2,
            rows_fold(drows.take(i - 1), schema@, people@, init_state()) == Ok::<
                (PipelineState, Seq<RowOutcomeModel>),
                ErrorModel,
            >(
                (
                    PipelineState {
                        cache: cache@,
                        events: creations_of(events@),
                        assocs: assocs_of(associations@),
                    },
                    outcomes_of(outcomes@),
                ),
            ),
        decreases rows@.len() - i,
    {
        proof {
            assert(drows.take(i as int).drop_last() =~= drows.take(i - 1));
            assert(drows.take(i as int).last() == drows[i - 1]);
            assert(drows[i - 1] == rdvs[i as int]);
            assert(rdvs[i as int] == rows@[i as int].deep_view());
        }
        let row: &Vec<String> = &rows[i];
        let ghost pre_outs = outcomes_of(outcomes@);
        match process_row(row, &schema, people, &mut cache, &mut events, &mut associations) {
            Ok(out) => {
                let ghost om = out.model();
                outcomes.push(out);
                proof {
                    assert(outcomes_of(outcomes@) =~= pre_outs.push(om));
                }
            },
            Err(e) => {
                proof {
                    lemma_rows_fold_err_persists(drows, schema@, people@, init_state(), i as int);
                }
                return Err(e);
            },
        }
        i += 1;
    }
    proof {
        assert(drows.take(rows@.len() - 1) =~= drows);
    }
    let plan = ImportPlan { events, associations, outcomes };
    proof {
        lemma_each_key_created_once(rdvs, people@);
        match run_spec(rdvs, people@) {
            Ok(res) => {
                assert forall|t: int| 0 <= t < plan.associations@.len() implies #[trigger] plan
                    .associations@[t].event_index < plan.events@.len() by {
                    assert(assocs_of(plan.associations@)[t] == (
                        plan.associations@[t].person_id as int,
                        plan.associations@[t].event_index as int,
                    ));
                    assert(0 <= res.0.assocs[t].1 < res.0.events.len());
                }
            },
            Err(_) => {
                assert(false);
            },
        }
    }
    Ok(plan)
}

/// A data row whose full name matches no directory entry contributes
/// nothing: the pipeline state is unchanged — no event creation, no
/// association — and the row's outcome is exactly the one skip diagnostic,
/// naming the row and the columns it would have been associated under.
pub proof fn lemma_unmatched_row_creates_nothing(
    row: Seq<Seq<char>>,
    schema: SchemaModel,
    people: DirectoryModel,
    st: PipelineState,
)
    requires
        Year::spec_parse(row[1]) is Some,
        person_lookup(people, row[0]) is None,
    ensures
        row_spec(row, schema, people, st) == Ok::<(PipelineState, RowOutcomeModel), ErrorModel>(
            (
                st,
                RowOutcomeModel::Skipped {
                    full_name: row[0],
                    intended_columns: nonempty_indices(event_cells(row)),
                },
            ),
        ),
{
}

} // verus!
