//! Header schema builder: turns the header row's event cells into an ordered
//! column schema. A cell whose trimmed text equals the sentinel
//! "YEAR SEPARATOR" advances the current band and contributes no column;
//! every other cell occupies one column, entered into the schema with the
//! current band if its trimmed text is non-empty and left without an event
//! otherwise.

use vstd::prelude::*;
use crate::error::ImportError;
use crate::text::{trim, trim_spec, str_eq};
use crate::year::{EventInfo, Year};

verus! {

/// Model of a column schema: one slot per data column, holding the event's
/// (name, band) identity where the header named one.
pub type SchemaModel = Seq<Option<(Seq<char>, Year)>>;

/// Model of a sequence of schema columns.
pub open spec fn schema_of(cols: Seq<Option<EventInfo>>) -> SchemaModel {
    Seq::new(
        cols.len(),
        |i: int|
            match cols[i] {
                Some(e) => Some(e.model()),
                None => None,
            },
    )
}

/// Read-only mapping from data-column index to event identity, built once
/// per run from the header row.
#[derive(Debug, PartialEq, Eq)]
pub struct ColumnSchema {
    pub cols: Vec<Option<EventInfo>>,
}

impl View for ColumnSchema {
    type V = SchemaModel;

    open spec fn view(&self) -> SchemaModel {
        schema_of(self.cols@)
    }
}

/// Scans the header's event cells left to right, carrying the schema built
/// so far and the number of sentinel markers consumed. `None` means the
/// sentinel sequence exhausted the bands.
pub open spec fn header_fold(cells: Seq<Seq<char>>) -> Option<(SchemaModel, int)>
    decreases cells.len(),
{
    if cells.len() == 0 {
        Some((Seq::empty(), 0))
    } else {
        match header_fold(cells.drop_last()) {
            None => None,
            Some((m, b)) => {
                let t = trim_spec(cells.last());
                if t == "YEAR SEPARATOR"@ {
                    if b >= 4 {
                        None
                    } else {
                        Some((m, b + 1))
                    }
                } else if t.len() == 0 {
                    Some((m.push(None), b))
                } else {
                    Some((m.push(Some((t, Year::spec_band_at(b)))), b))
                }
            },
        }
    }
}

/// How many cells of the header are sentinel markers.
pub open spec fn sep_count(cells: Seq<Seq<char>>) -> int
    decreases cells.len(),
{
    if cells.len() == 0 {
        0int
    } else {
        sep_count(cells.drop_last()) + if trim_spec(cells.last()) == "YEAR SEPARATOR"@ {
            1int
        } else {
            0int
        }
    }
}

/// For every valid header the number of sentinel markers consumed equals the
/// sentinel count of the cells and never exceeds one less than the number of
/// bands; a header with more markers than that always exhausts the sequence.
pub proof fn lemma_sentinel_bound(cells: Seq<Seq<char>>)
    ensures
        match header_fold(cells) {
            Some((m, b)) => b == sep_count(cells) && sep_count(cells) <= 4,
            None => true,
        },
        sep_count(cells) > 4 ==> header_fold(cells) is None,
    decreases cells.len(),
{
    if cells.len() > 0 {
        lemma_sentinel_bound(cells.drop_last());
    }
}

/// Once a prefix of the header exhausts the bands, the whole header does.
pub proof fn lemma_header_fold_none_persists(cells: Seq<Seq<char>>, i: int)
    requires
        0 <= i <= cells.len(),
        header_fold(cells.take(i)) is None,
    ensures
        header_fold(cells) is None,
    decreases cells.len() - i,
{
    if i == cells.len() {
        assert(cells.take(i) =~= cells);
    } else {
        assert(cells.take(i + 1).drop_last() =~= cells.take(i));
        lemma_header_fold_none_persists(cells, i + 1);
    }
}

/// Builds the column schema from the header's event cells (the header row
/// with its leading identity columns already removed).
pub fn build_schema(cells: &Vec<String>) -> (r: Result<ColumnSchema, ImportError>)
    ensures
        match header_fold(cells.deep_view()) {
            Some((m, b)) => match r {
                Ok(schema) => schema@ == m,
                Err(_) => false,
            },
            None => r == Err::<ColumnSchema, ImportError>(ImportError::HeaderSequenceExhausted),
        },
{
    let ghost all = cells.deep_view();
    let mut cols: Vec<Option<EventInfo>> = Vec::new();
    let mut band: usize = 0;
    let mut i: usize = 0;
    while i < cells.len()
        invariant
            i <= cells@.len(),
            all == cells.deep_view(),
            band <= 4,
            header_fold(all.take(i as int)) == Some((schema_of(cols@), band as int)),
        decreases cells@.len() - i,
    {
        proof {
            assert(all.take(i + 1).drop_last() =~= all.take(i as int));
            assert(all.take(i + 1).last() == cells@[i as int]@);
        }
        let cell: &String = &cells[i];
        let t = trim(cell.as_str());
        if str_eq(t, "YEAR SEPARATOR") {
            if band >= 4 {
                proof {
                    assert(header_fold(all.take(i + 1)) is None);
                    lemma_header_fold_none_persists(all, i + 1);
                }
                return Err(ImportError::HeaderSequenceExhausted);
            }
            band += 1;
        } else if t.unicode_len() == 0 {
            cols.push(None);
            proof {
                assert(schema_of(cols@) =~= schema_of(cols@.drop_last()).push(None));
            }
        } else {
            let info = EventInfo { name: t.to_owned(), event_year: Year::band_at(band) };
            proof {
                assert(info.model() == (trim_spec(cells@[i as int]@), Year::spec_band_at(
                    band as int,
                )));
            }
            cols.push(Some(info));
            proof {
                assert(schema_of(cols@) =~= schema_of(cols@.drop_last()).push(
                    Some((trim_spec(cells@[i as int]@), Year::spec_band_at(band as int))),
                ));
            }
        }
        i += 1;
    }
    proof {
        assert(all.take(i as int) =~= all);
    }
    Ok(ColumnSchema { cols })
}

} // verus!
