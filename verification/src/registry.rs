//! The application registry: the in-memory mapping from application name
//! to tracked state (script location, snapshot value, latest value), with
//! its identity and mutation rules.

use vstd::prelude::*;

use crate::errors::UpsError;
use crate::text::str_eq;

verus! {

/// Mathematical state of one tracked application: the canonical script
/// path and the two observed values, where `None` is the "never observed
/// or observation failed" sentinel.
pub ghost struct AppModel {
    pub path: Seq<char>,
    pub snapshot: Option<Seq<char>>,
    pub latest: Option<Seq<char>>,
}

/// One registry entry: a name together with its application state.
pub ghost struct EntryModel {
    pub name: Seq<char>,
    pub app: AppModel,
}

/// The state a freshly inserted application starts in.
pub open spec fn fresh_app(path: Seq<char>) -> AppModel {
    AppModel { path, snapshot: None, latest: None }
}

/// The index of the first entry named `name`, or the length if absent.
pub open spec fn idx_of(entries: Seq<EntryModel>, name: Seq<char>) -> int
    decreases entries.len(),
{
    if entries.len() == 0 {
        0
    } else if entries[0].name == name {
        0
    } else {
        1 + idx_of(entries.drop_first(), name)
    }
}

/// Whether some entry is named `name`.
pub open spec fn has_app(entries: Seq<EntryModel>, name: Seq<char>) -> bool {
    idx_of(entries, name) < entries.len()
}

/// The state registered under `name`, if any.
pub open spec fn lookup(entries: Seq<EntryModel>, name: Seq<char>) -> Option<AppModel> {
    if has_app(entries, name) {
        Some(entries[idx_of(entries, name)].app)
    } else {
        None
    }
}

/// No two entries share a name.
pub open spec fn names_unique(entries: Seq<EntryModel>) -> bool {
    forall|i: int, j: int|
        0 <= i < j < entries.len() ==> entries[i].name != entries[j].name
}

/// Inserting `e`: replaces the entry with the same name, or appends.
pub open spec fn upsert(entries: Seq<EntryModel>, e: EntryModel) -> Seq<EntryModel> {
    if has_app(entries, e.name) {
        entries.update(idx_of(entries, e.name), e)
    } else {
        entries.push(e)
    }
}

/// Recording an observation: the latest value of `name` becomes `v`; an
/// absent name changes nothing.
pub open spec fn set_latest(
    entries: Seq<EntryModel>,
    name: Seq<char>,
    v: Option<Seq<char>>,
) -> Seq<EntryModel> {
    if has_app(entries, name) {
        let i = idx_of(entries, name);
        entries.update(
            i,
            EntryModel {
                name,
                app: AppModel { path: entries[i].app.path, snapshot: entries[i].app.snapshot, latest: v },
            },
        )
    } else {
        entries
    }
}

/// Taking a snapshot: both values of `name` become `v`; an absent name
/// changes nothing.
pub open spec fn set_both(
    entries: Seq<EntryModel>,
    name: Seq<char>,
    v: Option<Seq<char>>,
) -> Seq<EntryModel> {
    if has_app(entries, name) {
        let i = idx_of(entries, name);
        entries.update(
            i,
            EntryModel { name, app: AppModel { path: entries[i].app.path, snapshot: v, latest: v } },
        )
    } else {
        entries
    }
}

/// Removing `name`; an absent name changes nothing.
pub open spec fn remove_entry(entries: Seq<EntryModel>, name: Seq<char>) -> Seq<EntryModel> {
    if has_app(entries, name) {
        entries.remove(idx_of(entries, name))
    } else {
        entries
    }
}

/// Folding a batch of refresh results into the registry, first to last.
pub open spec fn apply_all(
    entries: Seq<EntryModel>,
    results: Seq<(Seq<char>, Option<Seq<char>>)>,
) -> Seq<EntryModel>
    decreases results.len(),
{
    if results.len() == 0 {
        entries
    } else {
        set_latest(apply_all(entries, results.drop_last()), results.last().0, results.last().1)
    }
}

pub proof fn lemma_idx_of(entries: Seq<EntryModel>, name: Seq<char>)
    ensures
        0 <= idx_of(entries, name) <= entries.len(),
        forall|k: int| 0 <= k < idx_of(entries, name) ==> entries[k].name != name,
        idx_of(entries, name) < entries.len() ==> entries[idx_of(entries, name)].name == name,
    decreases entries.len(),
{
    if entries.len() == 0 || entries[0].name == name {
    } else {
        lemma_idx_of(entries.drop_first(), name);
        assert forall|k: int| 0 <= k < idx_of(entries, name) implies entries[k].name != name by {
            if k > 0 {
                assert(entries.drop_first()[k - 1].name != name);
            }
        }
    }
}

/// Pins `idx_of` from an observed first occurrence of `name`.
pub proof fn lemma_idx_of_is(entries: Seq<EntryModel>, name: Seq<char>, i: int)
    requires
        0 <= i <= entries.len(),
        forall|k: int| 0 <= k < i ==> entries[k].name != name,
        i == entries.len() || entries[i].name == name,
    ensures
        idx_of(entries, name) == i,
    decreases entries.len(),
{
    if entries.len() == 0 {
    } else if i == 0 {
    } else {
        assert(entries[0].name != name);
        lemma_idx_of_is(entries.drop_first(), name, i - 1);
    }
}

/// Two entry sequences with the same names agree on every index lookup.
pub proof fn lemma_idx_of_same_names(s1: Seq<EntryModel>, s2: Seq<EntryModel>, name: Seq<char>)
    requires
        s1.len() == s2.len(),
        forall|k: int| 0 <= k < s1.len() ==> s1[k].name == s2[k].name,
    ensures
        idx_of(s1, name) == idx_of(s2, name),
{
    lemma_idx_of(s1, name);
    lemma_idx_of_is(s2, name, idx_of(s1, name));
}

/// A tracked application: the canonical location of its checker script
/// and the two stored values, `None` standing for "no value recorded".
#[derive(Debug)]
pub struct TrackedApp {
    pub script_path: String,
    pub snapshot_value: Option<String>,
    pub latest_value: Option<String>,
}

impl View for TrackedApp {
    type V = AppModel;

    open spec fn view(&self) -> AppModel {
        AppModel {
            path: self.script_path@,
            snapshot: self.snapshot_value.deep_view(),
            latest: self.latest_value.deep_view(),
        }
    }
}

/// A named registry entry.
#[derive(Debug)]
pub struct RegistryEntry {
    pub name: String,
    pub app: TrackedApp,
}

impl View for RegistryEntry {
    type V = EntryModel;

    open spec fn view(&self) -> EntryModel {
        EntryModel { name: self.name@, app: self.app@ }
    }
}

/// The in-memory registry of tracked applications.
#[derive(Debug)]
pub struct Registry {
    pub entries: Vec<RegistryEntry>,
}

impl View for Registry {
    type V = Seq<EntryModel>;

    open spec fn view(&self) -> Seq<EntryModel> {
        self.entries@.map_values(|e: RegistryEntry| e@)
    }
}

impl Registry {
    /// The registry's one invariant: application names are unique.
    pub open spec fn wf(&self) -> bool {
        names_unique(self@)
    }

    /// An empty registry.
    pub fn new() -> (r: Registry)
        ensures
            r@ == Seq::<EntryModel>::empty(),
            r.wf(),
    {
        let r = Registry { entries: Vec::new() };
        proof {
            assert(r@ =~= Seq::<EntryModel>::empty());
        }
        r
    }

    /// How many applications are registered.
    pub fn len(&self) -> (r: usize)
        ensures
            r == self@.len(),
    {
        self.entries.len()
    }

    /// The index of the entry named `name`, if one exists.
    fn find(&self, name: &str) -> (r: Option<usize>)
        ensures
            match r {
                Some(i) => i == idx_of(self@, name@) && i < self@.len(),
                None => idx_of(self@, name@) == self@.len(),
            },
    {
        let n = self.entries.len();
        let mut i: usize = 0;
        while i < n
            invariant
                n == self.entries.len(),
                n == self@.len(),
                0 <= i <= n,
                forall|k: int| 0 <= k < i ==> self@[k].name != name@,
            decreases n - i,
        {
            if str_eq(self.entries[i].name.as_str(), name) {
                proof {
                    lemma_idx_of_is(self@, name@, i as int);
                }
                return Some(i);
            }
            i += 1;
        }
        proof {
            lemma_idx_of_is(self@, name@, n as int);
        }
        None
    }

    /// Whether `name` is registered.
    pub fn contains(&self, name: &str) -> (r: bool)
        ensures
            r == has_app(self@, name@),
    {
        self.find(name).is_some()
    }

    /// Inserts `entry`, replacing any previous entry with the same name.
    pub(crate) fn upsert_entry(&mut self, entry: RegistryEntry)
        requires
            old(self).wf(),
        ensures
            final(self).wf(),
            final(self)@ == upsert(old(self)@, entry@),
    {
        proof {
            lemma_idx_of(self@, entry.name@);
        }
        let ghost old_entries = self@;
        match self.find(entry.name.as_str()) {
            Some(i) => {
                self.entries.set(i, entry);
                proof {
                    assert(self@ =~= upsert(old_entries, entry@));
                    assert forall|p: int, q: int|
                        0 <= p < q < self@.len() implies self@[p].name != self@[q].name by {
                        assert(old_entries[i as int].name == entry.name@);
                    }
                }
            },
            None => {
                self.entries.push(entry);
                proof {
                    assert(self@ =~= upsert(old_entries, entry@));
                    assert forall|p: int, q: int|
                        0 <= p < q < self@.len() implies self@[p].name != self@[q].name by {
                        if q == self@.len() - 1 {
                            assert(old_entries[p].name != entry.name@);
                        }
                    }
                }
            },
        }
    }

    /// Registers `name` with the resolved script path, replacing any prior
    /// entry and resetting both values to "none". A script path that could
    /// not be resolved (`None`) fails the insert and changes nothing.
    pub fn insert(&mut self, name: String, resolved_path: Option<String>) -> (r: Result<
        (),
        UpsError,
    >)
        requires
            old(self).wf(),
        ensures
            final(self).wf(),
            match resolved_path {
                Some(p) => r == Ok::<(), UpsError>(())
                    && final(self)@ == upsert(
                        old(self)@,
                        EntryModel { name: name@, app: fresh_app(p@) },
                    ),
                None => r == Err::<(), UpsError>(UpsError::ScriptPathUnresolved)
                    && final(self)@ == old(self)@,
            },
    {
        match resolved_path {
            None => Err(UpsError::ScriptPathUnresolved),
            Some(p) => {
                let entry = RegistryEntry {
                    name,
                    app: TrackedApp { script_path: p, snapshot_value: None, latest_value: None },
                };
                self.upsert_entry(entry);
                Ok(())
            },
        }
    }

    /// Removes `name`, reporting whether it was registered.
    pub fn remove(&mut self, name: &str) -> (r: bool)
        requires
            old(self).wf(),
        ensures
            final(self).wf(),
            final(self)@ == remove_entry(old(self)@, name@),
            r == has_app(old(self)@, name@),
    {
        let ghost old_entries = self@;
        match self.find(name) {
            Some(i) => {
                self.entries.remove(i);
                proof {
                    assert(self@ =~= remove_entry(old_entries, name@));
                    assert forall|p: int, q: int|
                        0 <= p < q < self@.len() implies self@[p].name != self@[q].name by {
                        let pp: int = if p < i as int { p } else { p + 1 };
                        let qq: int = if q < i as int { q } else { q + 1 };
                        assert(old_entries[pp].name != old_entries[qq].name);
                    }
                }
                true
            },
            None => false,
        }
    }

    /// The stored latest value of `name`; an unregistered name fails with
    /// a lookup error and changes nothing (in particular, no measurement
    /// is attempted).
    pub fn latest_value_of(&self, name: &str) -> (r: Result<Option<String>, UpsError>)
        ensures
            match lookup(self@, name@) {
                Some(app) => r matches Ok(v) && v.deep_view() == app.latest,
                None => r == Err::<Option<String>, UpsError>(UpsError::NotRegistered),
            },
    {
        match self.find(name) {
            Some(i) => Ok(clone_opt_string(&self.entries[i].app.latest_value)),
            None => Err(UpsError::NotRegistered),
        }
    }

    /// The stored snapshot value of `name`; fails if unregistered.
    pub fn snapshot_value_of(&self, name: &str) -> (r: Result<Option<String>, UpsError>)
        ensures
            match lookup(self@, name@) {
                Some(app) => r matches Ok(v) && v.deep_view() == app.snapshot,
                None => r == Err::<Option<String>, UpsError>(UpsError::NotRegistered),
            },
    {
        match self.find(name) {
            Some(i) => Ok(clone_opt_string(&self.entries[i].app.snapshot_value)),
            None => Err(UpsError::NotRegistered),
        }
    }

    /// The canonical script path of `name`; fails if unregistered.
    pub fn script_path_of(&self, name: &str) -> (r: Result<String, UpsError>)
        ensures
            match lookup(self@, name@) {
                Some(app) => r matches Ok(p) && p@ == app.path,
                None => r == Err::<String, UpsError>(UpsError::NotRegistered),
            },
    {
        match self.find(name) {
            Some(i) => Ok(self.entries[i].app.script_path.clone()),
            None => Err(UpsError::NotRegistered),
        }
    }

    /// Records a freshly observed value as both the snapshot and the
    /// latest value of `name`; an unregistered name fails with a lookup
    /// error and changes nothing.
    pub fn record_snapshot(&mut self, name: &str, observed: Option<String>) -> (r: Result<
        (),
        UpsError,
    >)
        requires
            old(self).wf(),
        ensures
            final(self).wf(),
            has_app(old(self)@, name@) ==> r == Ok::<(), UpsError>(())
                && final(self)@ == set_both(old(self)@, name@, observed.deep_view()),
            !has_app(old(self)@, name@) ==> r == Err::<(), UpsError>(UpsError::NotRegistered)
                && final(self)@ == old(self)@,
    {
        let ghost old_entries = self@;
        match self.find(name) {
            None => Err(UpsError::NotRegistered),
            Some(i) => {
                let nm = self.entries[i].name.clone();
                let path = self.entries[i].app.script_path.clone();
                let latest = clone_opt_string(&observed);
                let entry = RegistryEntry {
                    name: nm,
                    app: TrackedApp {
                        script_path: path,
                        snapshot_value: observed,
                        latest_value: latest,
                    },
                };
                self.entries.set(i, entry);
                proof {
                    lemma_idx_of(old_entries, name@);
                    assert(self@ =~= set_both(old_entries, name@, entry.app.snapshot_value.deep_view()));
                    assert forall|p: int, q: int|
                        0 <= p < q < self@.len() implies self@[p].name != self@[q].name by {
                        assert(old_entries[i as int].name == name@);
                    }
                }
                Ok(())
            },
        }
    }

    /// Stores an observed value as the latest value of `name`; a name that
    /// is not registered is ignored.
    pub fn record_latest(&mut self, name: &str, observed: Option<String>)
        requires
            old(self).wf(),
        ensures
            final(self).wf(),
            final(self)@ == set_latest(old(self)@, name@, observed.deep_view()),
    {
        let ghost old_entries = self@;
        match self.find(name) {
            None => {
            },
            Some(i) => {
                let nm = self.entries[i].name.clone();
                let path = self.entries[i].app.script_path.clone();
                let snap = clone_opt_string(&self.entries[i].app.snapshot_value);
                let entry = RegistryEntry {
                    name: nm,
                    app: TrackedApp {
                        script_path: path,
                        snapshot_value: snap,
                        latest_value: observed,
                    },
                };
                self.entries.set(i, entry);
                proof {
                    lemma_idx_of(old_entries, name@);
                    assert(self@ =~= set_latest(old_entries, name@, entry.app.latest_value.deep_view()));
                    assert forall|p: int, q: int|
                        0 <= p < q < self@.len() implies self@[p].name != self@[q].name by {
                        assert(old_entries[i as int].name == name@);
                    }
                }
            },
        }
    }

    /// Merges a batch of refresh results: each named application's latest
    /// value becomes its observed value, one application at a time, so one
    /// failed observation never affects any other application's result.
    pub fn apply_results(&mut self, results: &Vec<(String, Option<String>)>)
        requires
            old(self).wf(),
        ensures
            final(self).wf(),
            final(self)@ == apply_all(old(self)@, results.deep_view()),
    {
        let ghost old_entries = self@;
        let ghost rs = results.deep_view();
        let n = results.len();
        let mut i: usize = 0;
        while i < n
            invariant
                n == results.len(),
                n == rs.len(),
                rs == results.deep_view(),
                0 <= i <= n,
                self.wf(),
                self@ == apply_all(old_entries, rs.take(i as int)),
            decreases n - i,
        {
            let name = results[i].0.clone();
            let observed = clone_opt_string(&results[i].1);
            proof {
                assert(rs[i as int] == (results[i as int].0@, results[i as int].1.deep_view()));
            }
            self.record_latest(name.as_str(), observed);
            proof {
                assert(rs.take(i + 1).drop_last() =~= rs.take(i as int));
                assert(rs.take(i + 1).last() == rs[i as int]);
            }
            i += 1;
        }
        proof {
            assert(rs.take(n as int) =~= rs);
        }
    }
}

/// Replacing the entry at `name`'s index, keeping the name, moves that
/// name's lookup to the new state and leaves every other lookup unchanged.
proof fn lemma_lookup_update(entries: Seq<EntryModel>, name: Seq<char>, app: AppModel, m: Seq<char>)
    requires
        has_app(entries, name),
    ensures
        ({
            let u = entries.update(idx_of(entries, name), EntryModel { name, app });
            lookup(u, m) == if m == name {
                Some(app)
            } else {
                lookup(entries, m)
            }
        }),
{
    lemma_idx_of(entries, name);
    let i = idx_of(entries, name);
    let u = entries.update(i, EntryModel { name, app });
    assert(forall|k: int| 0 <= k < entries.len() ==> u[k].name == entries[k].name);
    lemma_idx_of_same_names(entries, u, m);
    lemma_idx_of(entries, m);
}

/// What a single recorded observation does to every lookup: `name` (if
/// registered) keeps its path and snapshot and takes `v` as its latest
/// value; every other name is untouched.
pub proof fn lemma_set_latest_lookup(
    entries: Seq<EntryModel>,
    name: Seq<char>,
    v: Option<Seq<char>>,
    m: Seq<char>,
)
    ensures
        lookup(set_latest(entries, name, v), m) == if m == name && has_app(entries, name) {
            Some(
                AppModel {
                    path: lookup(entries, name).unwrap().path,
                    snapshot: lookup(entries, name).unwrap().snapshot,
                    latest: v,
                },
            )
        } else {
            lookup(entries, m)
        },
{
    if has_app(entries, name) {
        lemma_idx_of(entries, name);
        let i = idx_of(entries, name);
        lemma_lookup_update(
            entries,
            name,
            AppModel { path: entries[i].app.path, snapshot: entries[i].app.snapshot, latest: v },
            m,
        );
    }
}

/// What a snapshot does to every lookup: `name` (if registered) keeps its
/// path and takes `v` as both stored values; every other name is
/// untouched.
pub proof fn lemma_set_both_lookup(
    entries: Seq<EntryModel>,
    name: Seq<char>,
    v: Option<Seq<char>>,
    m: Seq<char>,
)
    ensures
        lookup(set_both(entries, name, v), m) == if m == name && has_app(entries, name) {
            Some(AppModel { path: lookup(entries, name).unwrap().path, snapshot: v, latest: v })
        } else {
            lookup(entries, m)
        },
{
    if has_app(entries, name) {
        lemma_idx_of(entries, name);
        let i = idx_of(entries, name);
        lemma_lookup_update(
            entries,
            name,
            AppModel { path: entries[i].app.path, snapshot: v, latest: v },
            m,
        );
    }
}

/// After an insert of `e`, the registry maps `e.name` to exactly `e.app`.
pub proof fn lemma_upsert_lookup(entries: Seq<EntryModel>, e: EntryModel)
    ensures
        lookup(upsert(entries, e), e.name) == Some(e.app),
{
    lemma_idx_of(entries, e.name);
    if has_app(entries, e.name) {
        let i = idx_of(entries, e.name);
        let u = entries.update(i, e);
        lemma_idx_of_is(u, e.name, i);
    } else {
        let u = entries.push(e);
        lemma_idx_of_is(u, e.name, entries.len() as int);
    }
}

/// For every registry and every `(name, path)`, inserting `name` leaves
/// both its stored values at the "none" sentinel.
pub proof fn lemma_insert_resets_values(
    entries: Seq<EntryModel>,
    name: Seq<char>,
    path: Seq<char>,
)
    ensures
        ({
            let r = lookup(upsert(entries, EntryModel { name, app: fresh_app(path) }), name);
            &&& r == Some(fresh_app(path))
            &&& r.unwrap().snapshot is None
            &&& r.unwrap().latest is None
        }),
{
    lemma_upsert_lookup(entries, EntryModel { name, app: fresh_app(path) });
}

/// A batch of results never touches an application that none of them
/// names.
pub proof fn lemma_refresh_untouched(
    entries: Seq<EntryModel>,
    results: Seq<(Seq<char>, Option<Seq<char>>)>,
    name: Seq<char>,
)
    requires
        forall|j: int| 0 <= j < results.len() ==> results[j].0 != name,
    ensures
        lookup(apply_all(entries, results), name) == lookup(entries, name),
    decreases results.len(),
{
    if results.len() > 0 {
        lemma_refresh_untouched(entries, results.drop_last(), name);
        lemma_set_latest_lookup(
            apply_all(entries, results.drop_last()),
            results.last().0,
            results.last().1,
            name,
        );
    }
}

/// Failure isolation of a refresh: in a batch of results with distinct
/// names, every registered application named by the batch ends with
/// exactly its own observed value as its latest value — unaffected by any
/// other result, in particular by failures observed as `None` — while its
/// path and snapshot are kept; a name the registry does not know is
/// silently skipped.
pub proof fn lemma_refresh_isolated(
    entries: Seq<EntryModel>,
    results: Seq<(Seq<char>, Option<Seq<char>>)>,
    j: int,
)
    requires
        forall|p: int, q: int| 0 <= p < q < results.len() ==> results[p].0 != results[q].0,
        0 <= j < results.len(),
    ensures
        has_app(entries, results[j].0) ==> lookup(apply_all(entries, results), results[j].0)
            == Some(
            AppModel {
                path: lookup(entries, results[j].0).unwrap().path,
                snapshot: lookup(entries, results[j].0).unwrap().snapshot,
                latest: results[j].1,
            },
        ),
        !has_app(entries, results[j].0) ==> lookup(apply_all(entries, results), results[j].0)
            is None,
    decreases results.len(),
{
    let name = results[j].0;
    let inner = apply_all(entries, results.drop_last());
    if j == results.len() - 1 {
        assert(forall|k: int| 0 <= k < results.drop_last().len() ==> results.drop_last()[k].0 != name);
        lemma_refresh_untouched(entries, results.drop_last(), name);
        lemma_set_latest_lookup(inner, name, results.last().1, name);
    } else {
        lemma_refresh_isolated(entries, results.drop_last(), j);
        assert(results.drop_last()[j] == results[j]);
        lemma_set_latest_lookup(inner, results.last().0, results.last().1, name);
    }
}

/// Snapshotting the same observed value twice in a row yields the same
/// stored state as snapshotting it once.
pub proof fn lemma_snapshot_idempotent(
    entries: Seq<EntryModel>,
    name: Seq<char>,
    v: Option<Seq<char>>,
)
    ensures
        set_both(set_both(entries, name, v), name, v) == set_both(entries, name, v),
{
    if has_app(entries, name) {
        lemma_idx_of(entries, name);
        let i = idx_of(entries, name);
        let s1 = set_both(entries, name, v);
        assert(forall|k: int| 0 <= k < entries.len() ==> s1[k].name == entries[k].name);
        lemma_idx_of_same_names(entries, s1, name);
        assert(set_both(s1, name, v) =~= s1);
    }
}

/// A copy of an optional value, preserving its mathematical content.
pub fn clone_opt_string(v: &Option<String>) -> (r: Option<String>)
    ensures
        r.deep_view() == v.deep_view(),
{
    match v {
        Some(s) => Some(s.clone()),
        None => None,
    }
}

} // verus!
