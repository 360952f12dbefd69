//! The durable persistence format: one line per application, the four
//! fields name, snapshot value, latest value, script path in that fixed
//! order, each followed by a single horizontal tab, each line terminated
//! by a newline. The literal token `NONE` stands for an absent value.

use vstd::prelude::*;

use crate::errors::UpsError;
use crate::registry::{
    has_app, idx_of, lemma_idx_of, names_unique, upsert, AppModel, EntryModel, Registry,
    RegistryEntry, TrackedApp,
};
use crate::text::{
    lemma_split_char_peel, lemma_split_char_whole, split_char, split_str, str_eq,
};

verus! {

/// The on-disk token that stands for an absent value.
pub open spec fn none_token() -> Seq<char> {
    "NONE"@
}

/// How a stored value is written: the sentinel token for an absent value,
/// the value itself otherwise.
pub open spec fn value_text(v: Option<Seq<char>>) -> Seq<char> {
    match v {
        None => none_token(),
        Some(s) => s,
    }
}

/// How a field is read back: the sentinel token means an absent value,
/// any other token is taken verbatim.
pub open spec fn parse_value(tok: Seq<char>) -> Option<Seq<char>> {
    if tok == none_token() {
        None
    } else {
        Some(tok)
    }
}

/// One entry's line without its terminating newline: the four fields in
/// order, each followed by one tab (so the line ends with a trailing tab).
pub open spec fn line_body(e: EntryModel) -> Seq<char> {
    e.name + seq!['\t'] + value_text(e.app.snapshot) + seq!['\t'] + value_text(e.app.latest)
        + seq!['\t'] + e.app.path + seq!['\t']
}

/// The lines of a whole registry, in registry order.
pub open spec fn line_bodies(entries: Seq<EntryModel>) -> Seq<Seq<char>> {
    entries.map_values(|e: EntryModel| line_body(e))
}

/// The whole data file: one newline-terminated line per entry.
pub open spec fn render_entries(entries: Seq<EntryModel>) -> Seq<char>
    decreases entries.len(),
{
    if entries.len() == 0 {
        Seq::empty()
    } else {
        line_body(entries[0]) + seq!['\n'] + render_entries(entries.drop_first())
    }
}

/// One line read back: it must split on tabs into at least four fields,
/// in the fixed order; the trailing empty field that the trailing tab
/// makes, and anything after the fourth field, are tolerated.
pub open spec fn parse_line(line: Seq<char>) -> Option<EntryModel> {
    let fields = split_char(line, '\t');
    if fields.len() >= 4 {
        Some(
            EntryModel {
                name: fields[0],
                app: AppModel {
                    path: fields[3],
                    snapshot: parse_value(fields[1]),
                    latest: parse_value(fields[2]),
                },
            },
        )
    } else {
        None
    }
}

/// The lines read back first to last, a later entry replacing an earlier
/// one of the same name; one malformed line fails the whole load.
pub open spec fn parse_lines(lines: Seq<Seq<char>>) -> Option<Seq<EntryModel>>
    decreases lines.len(),
{
    if lines.len() == 0 {
        Some(Seq::empty())
    } else {
        match parse_lines(lines.drop_last()) {
            None => None,
            Some(entries) => match parse_line(lines.last()) {
                None => None,
                Some(e) => Some(upsert(entries, e)),
            },
        }
    }
}

/// A whole data file read back: its newline-separated lines, a single
/// final newline tolerated; the empty file is the empty registry.
pub open spec fn parse_data(s: Seq<char>) -> Option<Seq<EntryModel>> {
    let lines = split_char(s, '\n');
    let lines = if lines.len() > 0 && lines.last().len() == 0 {
        lines.drop_last()
    } else {
        lines
    };
    parse_lines(lines)
}

/// Writes one stored value as its on-disk token.
pub fn value_string(v: &Option<String>) -> (r: String)
    ensures
        r@ == value_text(v.deep_view()),
{
    match v {
        None => String::from_str("NONE"),
        Some(s) => s.clone(),
    }
}

/// Serializes the registry to the on-disk line format.
pub fn render_registry(reg: &Registry) -> (r: String)
    ensures
        r@ == render_entries(reg@),
{
    let mut out = String::new();
    let n = reg.entries.len();
    let mut i: usize = 0;
    while i < n
        invariant
            n == reg.entries.len(),
            0 <= i <= n,
            out@ == render_entries(reg@.take(i as int)),
        decreases n - i,
    {
        let entry = &reg.entries[i];
        out.append(entry.name.as_str());
        out.append("\t");
        let snap = value_string(&entry.app.snapshot_value);
        out.append(snap.as_str());
        out.append("\t");
        let latest = value_string(&entry.app.latest_value);
        out.append(latest.as_str());
        out.append("\t");
        out.append(entry.app.script_path.as_str());
        out.append("\t");
        out.append("\n");
        proof {
            reveal_strlit("\t");
            reveal_strlit("\n");
            assert("\t"@ =~= seq!['\t']);
            assert("\n"@ =~= seq!['\n']);
            lemma_render_snoc(reg@.take(i as int), reg@[i as int]);
            assert(reg@.take(i as int).push(reg@[i as int]) =~= reg@.take(i + 1));
            assert(out@ =~= render_entries(reg@.take(i as int)) + line_body(reg@[i as int])
                + seq!['\n']);
        }
        i += 1;
    }
    proof {
        assert(reg@.take(n as int) =~= reg@);
    }
    out
}

/// Appending an entry appends its newline-terminated line.
proof fn lemma_render_snoc(entries: Seq<EntryModel>, e: EntryModel)
    ensures
        render_entries(entries.push(e)) == render_entries(entries) + line_body(e) + seq!['\n'],
    decreases entries.len(),
{
    if entries.len() == 0 {
        assert(entries.push(e)[0] == e);
        assert(entries.push(e).drop_first() =~= Seq::<EntryModel>::empty());
        assert(render_entries(entries.push(e)) == line_body(e) + seq!['\n']
            + render_entries(Seq::<EntryModel>::empty()));
        assert(render_entries(Seq::<EntryModel>::empty()) == Seq::<char>::empty());
        assert(render_entries(entries) == Seq::<char>::empty());
        assert(line_body(e) + seq!['\n'] + Seq::<char>::empty() =~= Seq::<char>::empty()
            + line_body(e) + seq!['\n']);
    } else {
        lemma_render_snoc(entries.drop_first(), e);
        assert(entries.push(e)[0] == entries[0]);
        assert(entries.push(e).drop_first() =~= entries.drop_first().push(e));
        assert(render_entries(entries.push(e)) == line_body(entries[0]) + seq!['\n']
            + render_entries(entries.drop_first().push(e)));
        assert(render_entries(entries.drop_first().push(e)) == render_entries(entries.drop_first())
            + line_body(e) + seq!['\n']);
        assert(render_entries(entries) == line_body(entries[0]) + seq!['\n']
            + render_entries(entries.drop_first()));
        assert(line_body(entries[0]) + seq!['\n'] + (render_entries(entries.drop_first())
            + line_body(e) + seq!['\n']) =~= (line_body(entries[0]) + seq!['\n']
            + render_entries(entries.drop_first())) + line_body(e) + seq!['\n']);
    }
}

/// Reads one optional value field back from its on-disk token.
pub fn parse_value_string(tok: String) -> (r: Option<String>)
    ensures
        r.deep_view() == parse_value(tok@),
{
    if str_eq(tok.as_str(), "NONE") {
        None
    } else {
        Some(tok)
    }
}

/// Reads one line back into an entry, if it is well-formed.
fn parse_line_str(line: &str) -> (r: Option<RegistryEntry>)
    ensures
        match parse_line(line@) {
            Some(e) => r matches Some(re) && re@ == e,
            None => r is None,
        },
{
    let fields = split_str(line, '\t');
    if fields.len() < 4 {
        return None;
    }
    proof {
        assert(fields.deep_view()[0] == fields@[0]@);
        assert(fields.deep_view()[1] == fields@[1]@);
        assert(fields.deep_view()[2] == fields@[2]@);
        assert(fields.deep_view()[3] == fields@[3]@);
    }
    let name = fields[0].clone();
    let snapshot_value = parse_value_string(fields[1].clone());
    let latest_value = parse_value_string(fields[2].clone());
    let script_path = fields[3].clone();
    Some(
        RegistryEntry {
            name,
            app: TrackedApp { script_path, snapshot_value, latest_value },
        },
    )
}

/// One malformed line anywhere fails the whole read.
proof fn lemma_parse_lines_none(lines: Seq<Seq<char>>, i: int)
    requires
        0 <= i < lines.len(),
        parse_line(lines[i]) is None,
    ensures
        parse_lines(lines) is None,
    decreases lines.len(),
{
    if i < lines.len() - 1 {
        assert(lines.drop_last()[i] == lines[i]);
        lemma_parse_lines_none(lines.drop_last(), i);
    }
}

/// Deserializes a data file. A malformed line fails the whole load with a
/// parse error, and no partially populated registry is ever returned; a
/// well-formed file yields the registry it describes.
pub fn parse_registry(data: &str) -> (r: Result<Registry, UpsError>)
    ensures
        match parse_data(data@) {
            Some(entries) => r matches Ok(reg) && reg@ == entries && reg.wf(),
            None => r == Err::<Registry, UpsError>(UpsError::ParseError),
        },
{
    let mut lines = split_str(data, '\n');
    let m = lines.len();
    if m > 0 && lines[m - 1].as_str().unicode_len() == 0 {
        lines.pop();
        proof {
            assert(lines.deep_view() =~= split_char(data@, '\n').drop_last());
        }
    }
    let ghost ls = lines.deep_view();
    proof {
        assert(parse_data(data@) == parse_lines(ls));
    }
    let n = lines.len();
    let mut reg = Registry::new();
    let mut i: usize = 0;
    while i < n
        invariant
            n == lines.len(),
            n == ls.len(),
            ls == lines.deep_view(),
            0 <= i <= n,
            reg.wf(),
            parse_lines(ls.take(i as int)) == Some(reg@),
            parse_data(data@) == parse_lines(ls),
        decreases n - i,
    {
        proof {
            assert(ls[i as int] == lines@[i as int]@);
        }
        match parse_line_str(lines[i].as_str()) {
            None => {
                proof {
                    lemma_parse_lines_none(ls, i as int);
                }
                return Err(UpsError::ParseError);
            },
            Some(entry) => {
                proof {
                    assert(ls.take(i + 1).drop_last() =~= ls.take(i as int));
                    assert(ls.take(i + 1).last() == ls[i as int]);
                }
                reg.upsert_entry(entry);
            },
        }
        i += 1;
    }
    proof {
        assert(ls.take(n as int) =~= ls);
    }
    Ok(reg)
}

/// Text that may stand in a field: it contains no tab and no newline.
pub open spec fn text_valid(s: Seq<char>) -> bool {
    forall|k: int| 0 <= k < s.len() ==> s[k] != '\t' && s[k] != '\n'
}

/// A storable value: absent, or valid text other than the sentinel token
/// itself (a checker value spelled exactly like the sentinel could not be
/// told apart from an absent value when read back).
pub open spec fn value_valid(v: Option<Seq<char>>) -> bool {
    match v {
        None => true,
        Some(s) => text_valid(s) && s != none_token(),
    }
}

/// An entry the line format can carry faithfully.
pub open spec fn entry_valid(e: EntryModel) -> bool {
    text_valid(e.name) && text_valid(e.app.path) && value_valid(e.app.snapshot) && value_valid(
        e.app.latest,
    )
}

proof fn lemma_none_token_valid()
    ensures
        text_valid(none_token()),
        none_token().len() == 4,
{
    reveal_strlit("NONE");
}

/// Every character of a valid entry's line body, except the tabs the
/// format itself places, is a field character; none is a newline.
proof fn lemma_line_body_no_nl(e: EntryModel)
    requires
        entry_valid(e),
    ensures
        forall|k: int| 0 <= k < line_body(e).len() ==> line_body(e)[k] != '\n',
{
    lemma_none_token_valid();
    assert(text_valid(value_text(e.app.snapshot)));
    assert(text_valid(value_text(e.app.latest)));
}

/// A valid entry's line body parses back to exactly that entry.
proof fn lemma_parse_line_body(e: EntryModel)
    requires
        entry_valid(e),
    ensures
        parse_line(line_body(e)) == Some(e),
{
    lemma_none_token_valid();
    let f1 = value_text(e.app.snapshot);
    let f2 = value_text(e.app.latest);
    let t = seq!['\t'];
    let rest1 = f1 + t + f2 + t + e.app.path + t;
    let rest2 = f2 + t + e.app.path + t;
    let rest3 = e.app.path + t;
    let rest4 = Seq::<char>::empty();
    assert(line_body(e) =~= e.name + t + rest1);
    lemma_split_char_peel(e.name, rest1, '\t');
    assert(rest1 =~= f1 + t + rest2);
    lemma_split_char_peel(f1, rest2, '\t');
    assert(rest2 =~= f2 + t + rest3);
    lemma_split_char_peel(f2, rest3, '\t');
    assert(rest3 =~= e.app.path + t + rest4);
    lemma_split_char_peel(e.app.path, rest4, '\t');
    lemma_split_char_whole(rest4, '\t');
    let fields = split_char(line_body(e), '\t');
    assert(fields =~= seq![e.name, f1, f2, e.app.path, rest4]);
    assert(parse_value(f1) == e.app.snapshot);
    assert(parse_value(f2) == e.app.latest);
}

/// The rendered file splits on newlines into the entries' line bodies,
/// followed by the one empty segment the final newline makes.
proof fn lemma_render_lines(entries: Seq<EntryModel>)
    requires
        forall|i: int| 0 <= i < entries.len() ==> entry_valid(#[trigger] entries[i]),
    ensures
        split_char(render_entries(entries), '\n') == line_bodies(entries) + seq![
            Seq::<char>::empty(),
        ],
    decreases entries.len(),
{
    if entries.len() == 0 {
        lemma_split_char_whole(render_entries(entries), '\n');
        assert(split_char(render_entries(entries), '\n') =~= line_bodies(entries) + seq![
            Seq::<char>::empty(),
        ]);
    } else {
        let e = entries[0];
        let rest = entries.drop_first();
        assert(forall|i: int| 0 <= i < rest.len() ==> entry_valid(#[trigger] rest[i]));
        lemma_render_lines(rest);
        lemma_line_body_no_nl(e);
        assert(render_entries(entries) == line_body(e) + seq!['\n'] + render_entries(rest));
        lemma_split_char_peel(line_body(e), render_entries(rest), '\n');
        assert(line_bodies(rest) =~= line_bodies(entries).drop_first());
        assert(seq![line_body(e)] + (line_bodies(rest) + seq![Seq::<char>::empty()])
            =~= line_bodies(entries) + seq![Seq::<char>::empty()]);
    }
}

/// The line bodies of uniquely named valid entries read back to exactly
/// those entries, in order.
proof fn lemma_parse_rendered_lines(entries: Seq<EntryModel>)
    requires
        names_unique(entries),
        forall|i: int| 0 <= i < entries.len() ==> entry_valid(#[trigger] entries[i]),
    ensures
        parse_lines(line_bodies(entries)) == Some(entries),
    decreases entries.len(),
{
    if entries.len() == 0 {
        assert(line_bodies(entries) =~= Seq::<Seq<char>>::empty());
    } else {
        let prefix = entries.drop_last();
        let e = entries.last();
        assert(forall|i: int| 0 <= i < prefix.len() ==> entry_valid(#[trigger] prefix[i]));
        lemma_parse_rendered_lines(prefix);
        assert(line_bodies(prefix) =~= line_bodies(entries).drop_last());
        assert(line_bodies(entries).last() == line_body(e));
        lemma_parse_line_body(e);
        lemma_idx_of(prefix, e.name);
        if has_app(prefix, e.name) {
            let i = idx_of(prefix, e.name);
            assert(entries[i].name == entries[entries.len() - 1].name);
            assert(false);
        }
        assert(upsert(prefix, e) =~= entries);
    }
}

/// Round trip of the persistence format: a registry with unique names
/// whose fields are free of tabs and newlines and whose values are never
/// spelled like the sentinel token reads back, from its own rendering,
/// exactly as it was written — so saving, loading, and saving again
/// writes the same file twice.
pub proof fn lemma_save_load_round_trip(entries: Seq<EntryModel>)
    requires
        names_unique(entries),
        forall|i: int| 0 <= i < entries.len() ==> entry_valid(#[trigger] entries[i]),
    ensures
        parse_data(render_entries(entries)) == Some(entries),
{
    lemma_render_lines(entries);
    let lines = split_char(render_entries(entries), '\n');
    assert(lines.last() == Seq::<char>::empty());
    assert(lines.drop_last() =~= line_bodies(entries));
    lemma_parse_rendered_lines(entries);
}

} // verus!
