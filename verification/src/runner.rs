//! Normalization of a checker script's outcome into a value-or-none
//! result. The script itself is an external process run by the caller;
//! this module decides, from the exit status and the captured standard
//! output, what value (if any) was observed.

use vstd::prelude::*;

use crate::registry::{has_app, lemma_set_both_lookup, lookup, set_both, AppModel, EntryModel};
use crate::text::{trim_str, trimmed};

verus! {

/// The value observed by one checker invocation: the trimmed standard
/// output when the process succeeded and that output is non-blank,
/// otherwise the "none" sentinel. A failure is a non-fatal outcome, so
/// that one broken checker never aborts the refresh of the others.
pub open spec fn observed_value(success: bool, out: Seq<char>) -> Option<Seq<char>> {
    if success && trimmed(out).len() > 0 {
        Some(trimmed(out))
    } else {
        None
    }
}

/// Turns one checker invocation's outcome (exit status and captured
/// standard output) into the observed value.
pub fn normalize_output(success: bool, out: &str) -> (r: Option<String>)
    ensures
        r.deep_view() == observed_value(success, out@),
{
    if !success {
        return None;
    }
    let t = trim_str(out);
    if t.as_str().unicode_len() == 0 {
        None
    } else {
        Some(t)
    }
}

/// After a snapshot of a registered `name` whose checker exited
/// successfully with an output that is non-blank once trimmed, both
/// stored values of `name` equal that trimmed output, and the script
/// path is kept.
pub proof fn lemma_snapshot_observes_output(
    entries: Seq<EntryModel>,
    name: Seq<char>,
    out: Seq<char>,
)
    requires
        has_app(entries, name),
        trimmed(out).len() > 0,
    ensures
        lookup(set_both(entries, name, observed_value(true, out)), name) == Some(
            AppModel {
                path: lookup(entries, name).unwrap().path,
                snapshot: Some(trimmed(out)),
                latest: Some(trimmed(out)),
            },
        ),
{
    lemma_set_both_lookup(entries, name, observed_value(true, out), name);
}

} // verus!
