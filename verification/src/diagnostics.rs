//! Per-URI diagnostics produced by a compiler pass.
//!
//! A pass ends in a mapping from URIs to ordered lists of diagnostics,
//! replaced wholesale on publication.  Every file currently open in the
//! editor gets an entry even when it has no findings, so that stale
//! diagnostics from an earlier pass are cleared.

use vstd::prelude::*;

use crate::position::LspPosition;

verus! {

/// How severe a finding is, mirroring the editor protocol's four levels.
#[derive(Debug, Clone, Copy, PartialEq, Eq, Structural)]
pub enum DiagnosticSeverity {
    Error,
    Warning,
    Information,
    Hint,
}

/// One finding: where it is, how severe it is, and what it says.
#[derive(Debug, Clone, PartialEq, Eq)]
pub struct Diagnostic {
    pub severity: DiagnosticSeverity,
    pub start: LspPosition,
    pub end: LspPosition,
    pub message: String,
}

impl Diagnostic {
    /// An independent copy of the finding.
    pub fn duplicate(&self) -> (r: Diagnostic)
        ensures
            r@ == self@,
    {
        Diagnostic {
            severity: self.severity,
            start: self.start,
            end: self.end,
            message: self.message.clone(),
        }
    }
}

/// The mathematical value of a [`Diagnostic`].
pub ghost struct DiagnosticView {
    pub severity: DiagnosticSeverity,
    pub start: LspPosition,
    pub end: LspPosition,
    pub message: Seq<char>,
}

impl View for Diagnostic {
    type V = DiagnosticView;

    open spec fn view(&self) -> DiagnosticView {
        DiagnosticView {
            severity: self.severity,
            start: self.start,
            end: self.end,
            message: self.message@,
        }
    }
}

/// The mathematical value of one map entry: a URI and its findings.
pub ghost struct EntryView {
    pub uri: Seq<char>,
    pub diagnostics: Seq<DiagnosticView>,
}

/// Whether some entry is keyed by the URI.
pub open spec fn has_entry(entries: Seq<EntryView>, uri: Seq<char>) -> bool {
    exists|i: int| 0 <= i < entries.len() && (#[trigger] entries[i]).uri == uri
}

/// The index of the entry keyed by the URI; unique under [`entries_wf`].
pub open spec fn entry_index(entries: Seq<EntryView>, uri: Seq<char>) -> int {
    choose|i: int| 0 <= i < entries.len() && (#[trigger] entries[i]).uri == uri
}

/// No two entries share a URI.
pub open spec fn entries_wf(entries: Seq<EntryView>) -> bool {
    forall|i: int, j: int|
        0 <= i < j < entries.len() ==> (#[trigger] entries[i]).uri != (#[trigger] entries[j]).uri
}

/// The findings recorded for a URI, if it has an entry.
pub open spec fn diags_of(entries: Seq<EntryView>, uri: Seq<char>) -> Option<Seq<DiagnosticView>> {
    if has_entry(entries, uri) {
        Some(entries[entry_index(entries, uri)].diagnostics)
    } else {
        None
    }
}

/// An entry that carries the URI is the entry the URI resolves to.
pub proof fn lemma_entry_unique(entries: Seq<EntryView>, uri: Seq<char>, i: int)
    requires
        entries_wf(entries),
        0 <= i < entries.len(),
        entries[i].uri == uri,
    ensures
        has_entry(entries, uri),
        entry_index(entries, uri) == i,
{
    assert(has_entry(entries, uri));
    let j = entry_index(entries, uri);
    if i < j {
        assert(entries[i].uri != entries[j].uri);
    } else if j < i {
        assert(entries[j].uri != entries[i].uri);
    }
}

/// One entry of the map.
#[derive(Debug)]
struct DiagnosticsEntry {
    uri: String,
    diagnostics: Vec<Diagnostic>,
}

impl View for DiagnosticsEntry {
    type V = EntryView;

    closed spec fn view(&self) -> EntryView {
        EntryView {
            uri: self.uri@,
            diagnostics: self.diagnostics@.map_values(|d: Diagnostic| d@),
        }
    }
}

/// A mapping from URIs to their findings, with one entry per URI.
#[derive(Debug)]
pub struct DiagnosticsMap {
    entries: Vec<DiagnosticsEntry>,
}

impl View for DiagnosticsMap {
    type V = Seq<EntryView>;

    closed spec fn view(&self) -> Seq<EntryView> {
        self.entries@.map_values(|e: DiagnosticsEntry| e@)
    }
}

impl Default for DiagnosticsMap {
    /// A map with no entries.
    fn default() -> (r: Self)
        ensures
            r@ == Seq::<EntryView>::empty(),
            r.wf(),
    {
        let r = DiagnosticsMap { entries: Vec::new() };
        proof {
            assert(r@ =~= Seq::<EntryView>::empty());
        }
        r
    }
}

impl DiagnosticsMap {
    /// Every operation keeps one entry per URI.
    pub open spec fn wf(self) -> bool {
        entries_wf(self@)
    }

    /// Finds the entry keyed by the URI.
    fn find_entry(&self, uri: &String) -> (r: Option<usize>)
        requires
            self.wf(),
        ensures
            match r {
                Some(i) => has_entry(self@, uri@) && i == entry_index(self@, uri@) && i
                    < self@.len(),
                None => !has_entry(self@, uri@),
            },
    {
        let mut i: usize = 0;
        while i < self.entries.len()
            invariant
                self.wf(),
                i <= self@.len(),
                forall|k: int| 0 <= k < i ==> (#[trigger] self@[k]).uri != uri@,
            decreases self@.len() - i,
        {
            if self.entries[i].uri.eq(uri) {
                proof {
                    lemma_entry_unique(self@, uri@, i as int);
                }
                return Some(i);
            }
            i = i + 1;
        }
        proof {
            if has_entry(self@, uri@) {
                let k = choose|k: int| 0 <= k < self@.len() && (#[trigger] self@[k]).uri == uri@;
                assert(self@[k].uri != uri@);
            }
        }
        None
    }

    /// The findings recorded for a URI, if it has an entry.
    pub fn get(&self, uri: &String) -> (r: Option<&Vec<Diagnostic>>)
        requires
            self.wf(),
        ensures
            match r {
                Some(ds) => diags_of(self@, uri@) == Some(
                    ds@.map_values(|d: Diagnostic| d@),
                ),
                None => diags_of(self@, uri@) is None,
            },
    {
        match self.find_entry(uri) {
            Some(i) => Some(&self.entries[i].diagnostics),
            None => None,
        }
    }

    /// The number of entries.
    pub fn len(&self) -> (r: usize)
        ensures
            r == self@.len(),
    {
        self.entries.len()
    }

    /// The entries' URIs, in entry order, for whoever publishes the map.
    pub fn uris(&self) -> (r: Vec<String>)
        ensures
            r@.len() == self@.len(),
            forall|i: int| 0 <= i < r@.len() ==> (#[trigger] r@[i])@ == self@[i].uri,
    {
        let mut r: Vec<String> = Vec::new();
        let mut i: usize = 0;
        while i < self.entries.len()
            invariant
                i <= self@.len(),
                r@.len() == i,
                forall|k: int| 0 <= k < i ==> (#[trigger] r@[k])@ == self@[k].uri,
            decreases self@.len() - i,
        {
            r.push(self.entries[i].uri.clone());
            i = i + 1;
        }
        r
    }

    /// Appends one finding to the URI's entry, creating the entry if the
    /// URI has none yet.  Findings for other URIs are untouched.
    pub fn push_diagnostic(&mut self, uri: &String, diagnostic: Diagnostic)
        requires
            old(self).wf(),
        ensures
            final(self).wf(),
            diags_of(final(self)@, uri@) == Some(
                match diags_of(old(self)@, uri@) {
                    Some(ds) => ds.push(diagnostic@),
                    None => seq![diagnostic@],
                },
            ),
            forall|u: Seq<char>|
                u != uri@ ==> #[trigger] diags_of(final(self)@, u) == diags_of(old(self)@, u),
    {
        let ghost old_entries = self@;
        match self.find_entry(uri) {
            Some(i) => {
                let ghost oldv = self@[i as int];
                let entry = vstd::std_specs::vec::vec_index_mut(&mut self.entries, i);
                entry.diagnostics.push(diagnostic);
                proof {
                    let newv = EntryView {
                        uri: oldv.uri,
                        diagnostics: oldv.diagnostics.push(diagnostic@),
                    };
                    assert(entry@.diagnostics =~= newv.diagnostics);
                    assert(self@ =~= old_entries.update(i as int, newv));
                    lemma_lookup_after_update(old_entries, i as int, newv);
                    lemma_entry_unique(self@, uri@, i as int);
                }
            },
            None => {
                let entry = DiagnosticsEntry { uri: uri.clone(), diagnostics: vec![diagnostic] };
                let ghost newv = entry@;
                self.entries.push(entry);
                proof {
                    assert(newv.diagnostics =~= seq![diagnostic@]);
                    assert(self@ =~= old_entries.push(newv));
                    lemma_lookup_after_push(old_entries, newv);
                    lemma_entry_unique(self@, uri@, old_entries.len() as int);
                }
            },
        }
    }

    /// Gives every listed URI an entry: URIs that already have one keep it
    /// untouched, the rest get an empty one.  Entries of unlisted URIs are
    /// untouched too.  This is what clears stale findings of open files
    /// when a pass reports nothing for them.
    pub fn ensure_entries(&mut self, uris: &Vec<String>)
        requires
            old(self).wf(),
        ensures
            final(self).wf(),
            forall|k: int|
                0 <= k < uris@.len() ==> has_entry(final(self)@, (#[trigger] uris@[k])@),
            forall|u: Seq<char>|
                #[trigger] diags_of(final(self)@, u) == if diags_of(old(self)@, u) is Some {
                    diags_of(old(self)@, u)
                } else if exists|k: int| 0 <= k < uris@.len() && (#[trigger] uris@[k])@ == u {
                    Some(Seq::<DiagnosticView>::empty())
                } else {
                    None
                },
    {
        let ghost old_entries = self@;
        let mut j: usize = 0;
        while j < uris.len()
            invariant
                self.wf(),
                j <= uris@.len(),
                forall|k: int| 0 <= k < j ==> has_entry(self@, (#[trigger] uris@[k])@),
                forall|u: Seq<char>|
                    #[trigger] diags_of(self@, u) == if diags_of(old_entries, u) is Some {
                        diags_of(old_entries, u)
                    } else if exists|k: int| 0 <= k < j && (#[trigger] uris@[k])@ == u {
                        Some(Seq::<DiagnosticView>::empty())
                    } else {
                        None
                    },
            decreases uris@.len() - j,
    {
            let ghost before = self@;
            let uri = &uris[j];
            match self.find_entry(uri) {
                Some(_) => {},
                None => {
                    let entry = DiagnosticsEntry { uri: uri.clone(), diagnostics: Vec::new() };
                    let ghost newv = entry@;
                    self.entries.push(entry);
                    proof {
                        assert(newv.diagnostics =~= Seq::<DiagnosticView>::empty());
                        assert(self@ =~= before.push(newv));
                        lemma_lookup_after_push(before, newv);
                        lemma_entry_unique(self@, uri@, before.len() as int);
                    }
                },
            }
            proof {
                assert forall|u: Seq<char>| #[trigger] diags_of(self@, u) == if diags_of(
                    old_entries,
                    u,
                ) is Some {
                    diags_of(old_entries, u)
                } else if exists|k: int| 0 <= k < j + 1 && (#[trigger] uris@[k])@ == u {
                    Some(Seq::<DiagnosticView>::empty())
                } else {
                    None
                } by {
                    assert(diags_of(before, u) == if diags_of(old_entries, u) is Some {
                        diags_of(old_entries, u)
                    } else if exists|k: int| 0 <= k < j && (#[trigger] uris@[k])@ == u {
                        Some(Seq::<DiagnosticView>::empty())
                    } else {
                        None
                    });
                    if u == uris@[j as int]@ {
                    } else {
                        if exists|k: int| 0 <= k < j + 1 && (#[trigger] uris@[k])@ == u {
                            let k = choose|k: int| 0 <= k < j + 1 && (#[trigger] uris@[k])@ == u;
                            assert(0 <= k < j && uris@[k]@ == u);
                        }
                    }
                }
                assert forall|k: int| 0 <= k < j + 1 implies has_entry(
                    self@,
                    (#[trigger] uris@[k])@,
                ) by {
                    if k < j {
                        let u = uris@[k]@;
                        assert(diags_of(before, u) is Some);
                        assert(diags_of(self@, u) is Some);
                    }
                }
            }
            j = j + 1;
        }
    }
}

/// The findings of a pass as the model sees them: each tagged with the URI
/// it belongs to, in report order.
pub open spec fn findings_view(errors: Seq<(String, Diagnostic)>) -> Seq<(Seq<char>, DiagnosticView)> {
    errors.map_values(|p: (String, Diagnostic)| (p.0@, p.1@))
}

/// The findings among `errors` that belong to the URI, in report order.
pub open spec fn diags_for(errors: Seq<(Seq<char>, DiagnosticView)>, uri: Seq<char>) -> Seq<
    DiagnosticView,
>
    decreases errors.len(),
{
    if errors.len() == 0 {
        Seq::empty()
    } else {
        diags_for(errors.drop_last(), uri) + if errors.last().0 == uri {
            seq![errors.last().1]
        } else {
            Seq::empty()
        }
    }
}

/// Turns one pass's reported findings into the mapping to publish: the
/// findings grouped by URI in report order, plus an entry — an empty one if
/// need be — for every open file, so that stale findings of files a pass
/// reported nothing for are cleared on publication.
pub fn collect_diagnostics(errors: &Vec<(String, Diagnostic)>, open_uris: &Vec<String>) -> (m:
    DiagnosticsMap)
    ensures
        m.wf(),
        forall|u: Seq<char>|
            #[trigger] diags_of(m@, u) == ({
                let ds = diags_for(findings_view(errors@), u);
                if ds.len() > 0 {
                    Some(ds)
                } else if exists|k: int|
                    0 <= k < open_uris@.len() && (#[trigger] open_uris@[k])@ == u {
                    Some(Seq::<DiagnosticView>::empty())
                } else {
                    None
                }
            }),
{
    let ghost evs = findings_view(errors@);
    let mut m = DiagnosticsMap::default();
    let mut i: usize = 0;
    while i < errors.len()
        invariant
            m.wf(),
            i <= errors@.len(),
            evs == findings_view(errors@),
            evs.len() == errors@.len(),
            forall|u: Seq<char>|
                #[trigger] diags_of(m@, u) == ({
                    let ds = diags_for(evs.take(i as int), u);
                    if ds.len() > 0 {
                        Some(ds)
                    } else {
                        None
                    }
                }),
        decreases errors@.len() - i,
    {
        let ghost before = m@;
        let uri = &errors[i].0;
        let d = errors[i].1.duplicate();
        m.push_diagnostic(uri, d);
        proof {
            let cur = evs.take(i + 1 as int);
            let prev = evs.take(i as int);
            assert(cur.drop_last() =~= prev);
            assert(cur.last() == evs[i as int]);
            assert(evs[i as int].0 == uri@ && evs[i as int].1 == d@);
            assert forall|u: Seq<char>| #[trigger] diags_of(m@, u) == ({
                let ds = diags_for(cur, u);
                if ds.len() > 0 {
                    Some(ds)
                } else {
                    None
                }
            }) by {
                if u == uri@ {
                    assert(diags_for(cur, u) =~= diags_for(prev, u) + seq![d@]);
                    if diags_for(prev, u).len() > 0 {
                        assert(diags_of(before, u) == Some(diags_for(prev, u)));
                        assert(diags_of(m@, u) == Some(diags_for(prev, u).push(d@)));
                        assert(diags_for(prev, u).push(d@) =~= diags_for(prev, u) + seq![d@]);
                    } else {
                        assert(diags_for(prev, u) =~= Seq::<DiagnosticView>::empty());
                        assert(diags_of(before, u) is None);
                        assert(diags_of(m@, u) == Some(seq![d@]));
                        assert(diags_for(cur, u) =~= seq![d@]);
                    }
                } else {
                    assert(diags_for(cur, u) =~= diags_for(prev, u));
                    assert(diags_of(m@, u) == diags_of(before, u));
                }
            }
        }
        i = i + 1;
    }
    proof {
        assert(evs.take(evs.len() as int) =~= evs);
    }
    m.ensure_entries(open_uris);
    m
}

/// Replacing an entry by one with the same URI moves every lookup along:
/// the replaced URI now maps to the new findings, all others are unchanged.
proof fn lemma_lookup_after_update(entries: Seq<EntryView>, i: int, entry: EntryView)
    requires
        entries_wf(entries),
        0 <= i < entries.len(),
        entries[i].uri == entry.uri,
    ensures
        entries_wf(entries.update(i, entry)),
        diags_of(entries.update(i, entry), entry.uri) == Some(entry.diagnostics),
        forall|u: Seq<char>|
            u != entry.uri ==> #[trigger] diags_of(entries.update(i, entry), u) == diags_of(
                entries,
                u,
            ),
{
    let entries2 = entries.update(i, entry);
    assert forall|k: int, j: int| 0 <= k < j < entries2.len() implies (
    #[trigger] entries2[k]).uri != (#[trigger] entries2[j]).uri by {
        assert(entries[k].uri != entries[j].uri);
    }
    lemma_entry_unique(entries2, entry.uri, i);
    assert forall|u: Seq<char>| u != entry.uri implies #[trigger] diags_of(entries2, u)
        == diags_of(entries, u) by {
        if has_entry(entries, u) {
            let k = entry_index(entries, u);
            assert(entries2[k].uri == u);
            lemma_entry_unique(entries2, u, k);
        } else if has_entry(entries2, u) {
            let k = entry_index(entries2, u);
            assert(entries[k].uri == u);
            lemma_entry_unique(entries, u, k);
        }
    }
}

/// Appending an entry with a fresh URI adds exactly one lookup: the new
/// URI maps to the new findings, all others are unchanged.
proof fn lemma_lookup_after_push(entries: Seq<EntryView>, entry: EntryView)
    requires
        entries_wf(entries),
        !has_entry(entries, entry.uri),
    ensures
        entries_wf(entries.push(entry)),
        diags_of(entries.push(entry), entry.uri) == Some(entry.diagnostics),
        forall|u: Seq<char>|
            u != entry.uri ==> #[trigger] diags_of(entries.push(entry), u) == diags_of(entries, u),
{
    let entries2 = entries.push(entry);
    assert forall|k: int, j: int| 0 <= k < j < entries2.len() implies (
    #[trigger] entries2[k]).uri != (#[trigger] entries2[j]).uri by {
        if j < entries.len() {
            assert(entries[k].uri != entries[j].uri);
        } else {
            if entries2[k].uri == entry.uri {
                assert(entries[k].uri == entry.uri);
                assert(has_entry(entries, entry.uri));
            }
        }
    }
    lemma_entry_unique(entries2, entry.uri, entries.len() as int);
    assert forall|u: Seq<char>| u != entry.uri implies #[trigger] diags_of(entries2, u)
        == diags_of(entries, u) by {
        if has_entry(entries, u) {
            let k = entry_index(entries, u);
            assert(entries2[k].uri == u);
            lemma_entry_unique(entries2, u, k);
        } else if has_entry(entries2, u) {
            let k = entry_index(entries2, u);
            assert(k < entries.len());
            assert(entries[k].uri == u);
            lemma_entry_unique(entries, u, k);
        }
    }
}

} // verus!
