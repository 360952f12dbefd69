//! The printable status report: one row per registered application with
//! the four fields as they are shown to the user and the "up to date"
//! signal, which holds exactly when the snapshot value and the latest
//! value agree. Rendering (colors, table borders) is the caller's concern.

use vstd::prelude::*;

use crate::codec::{value_string, value_text};
use crate::registry::Registry;
use crate::text::str_eq;

verus! {

/// One row of the status report.
#[derive(Debug)]
pub struct ReportRow {
    pub name: String,
    pub snapshot: String,
    pub latest: String,
    pub script_path: String,
    pub up_to_date: bool,
}

/// Whether two optional values hold the same content.
pub fn opt_value_eq(a: &Option<String>, b: &Option<String>) -> (r: bool)
    ensures
        r == (a.deep_view() == b.deep_view()),
{
    match (a, b) {
        (None, None) => true,
        (Some(x), Some(y)) => str_eq(x.as_str(), y.as_str()),
        _ => false,
    }
}

impl Registry {
    /// The status report: one row per entry, in registry order, the
    /// sentinel token standing for an absent value, and per row the
    /// signal that snapshot and latest agree (an exact comparison, not a
    /// semantic version comparison).
    pub fn report(&self) -> (rows: Vec<ReportRow>)
        ensures
            rows@.len() == self@.len(),
            forall|i: int|
                0 <= i < rows@.len() ==> {
                    let e = self@[i];
                    let row = #[trigger] rows@[i];
                    &&& row.name@ == e.name
                    &&& row.snapshot@ == value_text(e.app.snapshot)
                    &&& row.latest@ == value_text(e.app.latest)
                    &&& row.script_path@ == e.app.path
                    &&& row.up_to_date == (e.app.snapshot == e.app.latest)
                },
    {
        let mut rows: Vec<ReportRow> = Vec::new();
        let n = self.entries.len();
        let mut i: usize = 0;
        while i < n
            invariant
                n == self.entries.len(),
                0 <= i <= n,
                rows@.len() == i,
                forall|k: int|
                    0 <= k < i ==> {
                        let e = self@[k];
                        let row = #[trigger] rows@[k];
                        &&& row.name@ == e.name
                        &&& row.snapshot@ == value_text(e.app.snapshot)
                        &&& row.latest@ == value_text(e.app.latest)
                        &&& row.script_path@ == e.app.path
                        &&& row.up_to_date == (e.app.snapshot == e.app.latest)
                    },
            decreases n - i,
        {
            let entry = &self.entries[i];
            let row = ReportRow {
                name: entry.name.clone(),
                snapshot: value_string(&entry.app.snapshot_value),
                latest: value_string(&entry.app.latest_value),
                script_path: entry.app.script_path.clone(),
                up_to_date: opt_value_eq(&entry.app.snapshot_value, &entry.app.latest_value),
            };
            rows.push(row);
            i += 1;
        }
        rows
    }
}

} // verus!
