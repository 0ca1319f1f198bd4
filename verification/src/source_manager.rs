//! The table of known files and their cache states.
//!
//! The manager owns one slot per registered file.  A slot is in exactly one
//! of three states: open in the editor, closed but with trusted cached text,
//! or closed and presumed stale.  Slots are only ever appended, so a
//! [`SourceId`] handed out once stays valid forever and never moves to a
//! different URI.
//!
//! The manager itself never touches the disk.  Every operation that may
//! need file content takes the outcome of a disk read as an argument and
//! states exactly how the new state follows from the old state and that
//! outcome; the caller reads the disk only when [`SourceManager::stale_uri`]
//! says a reload is due.

use vstd::prelude::*;

use crate::FileError;
use crate::FileErrorView;
use crate::position::LspRange;
use crate::position::edited_text;
use crate::position::pos_le;
use crate::source::Source;
use crate::source::SourceView;

verus! {

/// Stable small-integer handle for one file: assigned on first registration,
/// never reused, never reassigned to a different URI.
#[derive(Debug, Clone, Copy, PartialEq, Eq, Structural)]
pub struct SourceId(u16);

impl View for SourceId {
    type V = int;

    closed spec fn view(&self) -> int {
        self.0 as int
    }
}

impl SourceId {
    /// Builds a handle from its raw value.
    pub fn from_u16(raw: u16) -> (r: SourceId)
        ensures
            r@ == raw as int,
    {
        SourceId(raw)
    }

    /// The raw value of the handle.
    pub fn into_u16(self) -> (r: u16)
        ensures
            r as int == self@,
    {
        self.0
    }
}

/// The mathematical state of one slot.
pub ghost enum SlotView {
    /// The editor has the file open; its text is authoritative.
    Open(SourceView),
    /// The editor does not have the file open, and the cached text is still
    /// trusted.
    ClosedUnmodified(SourceView),
    /// The editor does not have the file open and the on-disk content is
    /// presumed stale; no text is retained.
    ClosedModified { uri: Seq<char> },
}

impl SlotView {
    /// The URI the slot is keyed by.
    pub open spec fn uri(self) -> Seq<char> {
        match self {
            SlotView::Open(s) => s.uri,
            SlotView::ClosedUnmodified(s) => s.uri,
            SlotView::ClosedModified { uri } => uri,
        }
    }

    /// Whether the editor has the file open.
    pub open spec fn is_open(self) -> bool {
        self is Open
    }

    /// Whether the slot holds trusted text.
    pub open spec fn is_cached(self) -> bool {
        self is Open || self is ClosedUnmodified
    }

    /// The cached source; meaningful only when the slot is cached.
    pub open spec fn source(self) -> SourceView {
        match self {
            SlotView::Open(s) => s,
            SlotView::ClosedUnmodified(s) => s,
            SlotView::ClosedModified { uri } => SourceView { id: 0, uri, text: Seq::empty() },
        }
    }
}

/// Well-formedness of a slot table: a cached slot's source carries the
/// slot's own index as its id and the slot's URI, and no two slots share a
/// URI.
pub open spec fn slots_wf(slots: Seq<SlotView>) -> bool {
    &&& forall|i: int|
        0 <= i < slots.len() && (#[trigger] slots[i]).is_cached() ==> slots[i].source().id == i
            && slots[i].source().uri == slots[i].uri()
    &&& forall|i: int, j: int|
        0 <= i < j < slots.len() ==> #[trigger] slots[i].uri() != #[trigger] slots[j].uri()
}

/// Whether some slot is keyed by the URI.
pub open spec fn has_uri(slots: Seq<SlotView>, uri: Seq<char>) -> bool {
    exists|i: int| 0 <= i < slots.len() && (#[trigger] slots[i]).uri() == uri
}

/// The index of the slot keyed by the URI; unique under [`slots_wf`].
pub open spec fn index_of_uri(slots: Seq<SlotView>, uri: Seq<char>) -> int {
    choose|i: int| 0 <= i < slots.len() && (#[trigger] slots[i]).uri() == uri
}

/// In a well-formed table, a slot that carries the URI is the slot the URI
/// resolves to.
pub proof fn lemma_index_unique(slots: Seq<SlotView>, uri: Seq<char>, i: int)
    requires
        slots_wf(slots),
        0 <= i < slots.len(),
        slots[i].uri() == uri,
    ensures
        has_uri(slots, uri),
        index_of_uri(slots, uri) == i,
{
    assert(has_uri(slots, uri));
    let j = index_of_uri(slots, uri);
    if i < j {
        assert(slots[i].uri() != slots[j].uri());
    } else if j < i {
        assert(slots[j].uri() != slots[i].uri());
    }
}

/// The outcome of a disk read, at the level of the mathematical model.
pub open spec fn disk_view(disk: Result<String, FileError>) -> Result<Seq<char>, FileErrorView> {
    match disk {
        Ok(t) => Ok(t@),
        Err(e) => Err(e@),
    }
}

/// A registration result, at the level of the mathematical model.
pub open spec fn id_result_view(r: Result<SourceId, FileError>) -> Result<int, FileErrorView> {
    match r {
        Ok(id) => Ok(id@),
        Err(e) => Err(e@),
    }
}

/// A unit result, at the level of the mathematical model.
pub open spec fn unit_result_view(r: Result<(), FileError>) -> Result<(), FileErrorView> {
    match r {
        Ok(u) => Ok(u),
        Err(e) => Err(e@),
    }
}

/// The slot table after opening a file with editor-supplied text: the slot
/// keyed by the URI — a fresh one if the URI is new — holds exactly that
/// text, whatever it held before.
pub open spec fn open_spec(slots: Seq<SlotView>, uri: Seq<char>, text: Seq<char>) -> Seq<SlotView> {
    if has_uri(slots, uri) {
        let i = index_of_uri(slots, uri);
        slots.update(i, SlotView::Open(SourceView { id: i, uri, text }))
    } else {
        slots.push(SlotView::Open(SourceView { id: slots.len() as int, uri, text }))
    }
}

/// The id that opening a file returns.
pub open spec fn open_id_spec(slots: Seq<SlotView>, uri: Seq<char>) -> int {
    if has_uri(slots, uri) {
        index_of_uri(slots, uri)
    } else {
        slots.len() as int
    }
}

/// The slot table after closing a file: a known file becomes presumed
/// stale and its text is discarded; an unknown URI changes nothing.
///
/// Closing is pessimistic on purpose: the next read must reverify against
/// the disk, so an editor that wrote the file on close is never shadowed by
/// a cache.
pub open spec fn close_spec(slots: Seq<SlotView>, uri: Seq<char>) -> Seq<SlotView> {
    if has_uri(slots, uri) {
        slots.update(index_of_uri(slots, uri), SlotView::ClosedModified { uri })
    } else {
        slots
    }
}

/// The slot table after a file-watcher change notification: a known file
/// that is not open becomes presumed stale; an open file is
/// editor-authoritative and is left alone, as is an unknown URI.
pub open spec fn mark_changed_spec(slots: Seq<SlotView>, uri: Seq<char>) -> Seq<SlotView> {
    if has_uri(slots, uri) && !slots[index_of_uri(slots, uri)].is_open() {
        slots.update(index_of_uri(slots, uri), SlotView::ClosedModified { uri })
    } else {
        slots
    }
}

/// One slot after a cache fill: a stale slot takes the text the disk read
/// produced, or stays stale if the read failed; a cached slot is untouched,
/// whatever the read said.
pub open spec fn cache_slot_spec(
    slot: SlotView,
    id: int,
    disk: Result<Seq<char>, FileErrorView>,
) -> SlotView {
    match slot {
        SlotView::ClosedModified { uri } => match disk {
            Ok(t) => SlotView::ClosedUnmodified(SourceView { id, uri, text: t }),
            Err(_) => slot,
        },
        _ => slot,
    }
}

/// Whether a cache fill succeeds: it fails exactly when the slot was stale
/// and the disk read failed.
pub open spec fn cache_slot_ok(slot: SlotView, disk: Result<Seq<char>, FileErrorView>) -> Result<
    (),
    FileErrorView,
> {
    match slot {
        SlotView::ClosedModified { uri } => match disk {
            Ok(_) => Ok(()),
            Err(e) => Err(e),
        },
        _ => Ok(()),
    }
}

/// The slot table after a cache fill of one slot.
pub open spec fn cache_spec(
    slots: Seq<SlotView>,
    id: int,
    disk: Result<Seq<char>, FileErrorView>,
) -> Seq<SlotView> {
    slots.update(id, cache_slot_spec(slots[id], id, disk))
}

/// The slot table after registering a URI: a known URI changes nothing; a
/// new URI appends a trusted slot if the disk read succeeded and changes
/// nothing if it failed, so no id is ever allocated for a failed load.
pub open spec fn register_spec(
    slots: Seq<SlotView>,
    uri: Seq<char>,
    disk: Result<Seq<char>, FileErrorView>,
) -> Seq<SlotView> {
    if has_uri(slots, uri) {
        slots
    } else {
        match disk {
            Ok(t) => slots.push(
                SlotView::ClosedUnmodified(
                    SourceView { id: slots.len() as int, uri, text: t },
                ),
            ),
            Err(_) => slots,
        }
    }
}

/// The id (or error) that registering a URI returns.
pub open spec fn register_id_spec(
    slots: Seq<SlotView>,
    uri: Seq<char>,
    disk: Result<Seq<char>, FileErrorView>,
) -> Result<int, FileErrorView> {
    if has_uri(slots, uri) {
        Ok(index_of_uri(slots, uri))
    } else {
        match disk {
            Ok(_) => Ok(slots.len() as int),
            Err(e) => Err(e),
        }
    }
}

/// A cached slot after an editor edit of its text; a stale slot has no
/// text and is unchanged.
pub open spec fn edit_slot_spec(slot: SlotView, replace: LspRange, with: Seq<char>) -> SlotView {
    match slot {
        SlotView::Open(s) => SlotView::Open(
            SourceView { id: s.id, uri: s.uri, text: edited_text(s.text, replace, with) },
        ),
        SlotView::ClosedUnmodified(s) => SlotView::ClosedUnmodified(
            SourceView { id: s.id, uri: s.uri, text: edited_text(s.text, replace, with) },
        ),
        SlotView::ClosedModified { .. } => slot,
    }
}

/// A cached slot after a whole-text replacement; a stale slot is unchanged.
pub open spec fn replace_slot_spec(slot: SlotView, text: Seq<char>) -> SlotView {
    match slot {
        SlotView::Open(s) => SlotView::Open(SourceView { id: s.id, uri: s.uri, text }),
        SlotView::ClosedUnmodified(s) => SlotView::ClosedUnmodified(
            SourceView { id: s.id, uri: s.uri, text },
        ),
        SlotView::ClosedModified { .. } => slot,
    }
}

/// The URIs of the open slots, in slot order.
pub open spec fn open_uris_spec(slots: Seq<SlotView>) -> Seq<Seq<char>>
    decreases slots.len(),
{
    if slots.len() == 0 {
        Seq::empty()
    } else {
        open_uris_spec(slots.drop_last()) + if slots.last().is_open() {
            seq![slots.last().uri()]
        } else {
            Seq::empty()
        }
    }
}

/// One file for which a slot exists: either a cached [`Source`] or, for a
/// presumed-stale file, just its URI.
#[derive(Debug)]
pub enum CachedSource {
    /// Open in the editor; the held text is authoritative.
    Open(Source),
    /// Closed, last trusted text retained.
    ClosedUnmodified(Source),
    /// Closed and presumed stale; any prior text has been discarded.
    ClosedModified(String),
}

impl View for CachedSource {
    type V = SlotView;

    open spec fn view(&self) -> SlotView {
        match self {
            CachedSource::Open(s) => SlotView::Open(s@),
            CachedSource::ClosedUnmodified(s) => SlotView::ClosedUnmodified(s@),
            CachedSource::ClosedModified(uri) => SlotView::ClosedModified { uri: uri@ },
        }
    }
}

impl CachedSource {
    /// Builds a trusted slot from the outcome of a disk read, or passes the
    /// read's failure through; no slot exists on failure.
    pub fn new_cached(id: SourceId, uri: String, disk: Result<String, FileError>) -> (r: Result<
        CachedSource,
        FileError,
    >)
        ensures
            match disk_view(disk) {
                Ok(t) => r matches Ok(c) && c@ == SlotView::ClosedUnmodified(
                    SourceView { id: id@, uri: uri@, text: t },
                ),
                Err(e) => r matches Err(e2) && e2@ == e,
            },
    {
        match disk {
            Ok(text) => Ok(CachedSource::ClosedUnmodified(Source::new(id, uri, text))),
            Err(e) => Err(e),
        }
    }

    /// Builds an open slot from editor-supplied text.
    pub fn new_open(id: SourceId, uri: String, text: String) -> (r: CachedSource)
        ensures
            r@ == SlotView::Open(SourceView { id: id@, uri: uri@, text: text@ }),
    {
        CachedSource::Open(Source::new(id, uri, text))
    }

    /// Whether the editor has the file open.
    pub fn is_open(&self) -> (r: bool)
        ensures
            r == self@.is_open(),
    {
        match self {
            CachedSource::Open(_) => true,
            _ => false,
        }
    }

    /// The slot's URI.
    pub fn uri_ref(&self) -> (r: &String)
        ensures
            r@ == self@.uri(),
    {
        match self {
            CachedSource::Open(s) => s.uri(),
            CachedSource::ClosedUnmodified(s) => s.uri(),
            CachedSource::ClosedModified(uri) => uri,
        }
    }

    /// The cached source, if the slot holds one.
    pub fn get_cached_source(&self) -> (r: Option<&Source>)
        ensures
            match r {
                Some(s) => self@.is_cached() && s@ == self@.source(),
                None => !self@.is_cached(),
            },
    {
        match self {
            CachedSource::Open(s) => Some(s),
            CachedSource::ClosedUnmodified(s) => Some(s),
            CachedSource::ClosedModified(_) => None,
        }
    }

    /// The cached source, consuming the slot.
    pub fn take_cached_source(self) -> (r: Option<Source>)
        ensures
            match r {
                Some(s) => self@.is_cached() && s@ == self@.source(),
                None => !self@.is_cached(),
            },
    {
        match self {
            CachedSource::Open(s) => Some(s),
            CachedSource::ClosedUnmodified(s) => Some(s),
            CachedSource::ClosedModified(_) => None,
        }
    }

    /// Fills the cache from the given disk-read outcome if the slot is
    /// stale; never consults the outcome otherwise.
    pub fn cache(&mut self, id: SourceId, disk: Result<String, FileError>) -> (r: Result<
        (),
        FileError,
    >)
        ensures
            final(self)@ == cache_slot_spec(old(self)@, id@, disk_view(disk)),
            unit_result_view(r) == cache_slot_ok(old(self)@, disk_view(disk)),
    {
        let stale: Option<String> = match self {
            CachedSource::ClosedModified(uri) => Some(uri.clone()),
            _ => None,
        };
        match stale {
            Some(uri) => match disk {
                Ok(text) => {
                    *self = CachedSource::ClosedUnmodified(Source::new(id, uri, text));
                    Ok(())
                },
                Err(e) => Err(e),
            },
            None => Ok(()),
        }
    }
}

/// Owns, tracks, and caches source files and their ids.
///
/// Slots are append-only: an existing slot never moves, so every id handed
/// out stays valid.
pub struct SourceManager {
    sources: Vec<CachedSource>,
}

impl View for SourceManager {
    type V = Seq<SlotView>;

    closed spec fn view(&self) -> Seq<SlotView> {
        self.sources@.map_values(|c: CachedSource| c@)
    }
}

impl Default for SourceManager {
    /// An empty manager: no file is known yet.
    fn default() -> (r: Self)
        ensures
            r@ == Seq::<SlotView>::empty(),
            r.wf(),
    {
        let r = SourceManager { sources: Vec::new() };
        proof {
            assert(r@ =~= Seq::<SlotView>::empty());
        }
        r
    }
}

impl SourceManager {
    /// Every operation preserves this: slot ids and URIs are consistent and
    /// the table is small enough that the next id fits a handle.
    pub open spec fn wf(self) -> bool {
        slots_wf(self@) && self@.len() <= 0x10000
    }

    /// Finds the slot keyed by the URI.
    fn find_slot(&self, uri: &String) -> (r: Option<usize>)
        requires
            self.wf(),
        ensures
            match r {
                Some(i) => has_uri(self@, uri@) && i == index_of_uri(self@, uri@) && i
                    < self@.len(),
                None => !has_uri(self@, uri@),
            },
    {
        let mut i: usize = 0;
        while i < self.sources.len()
            invariant
                self.wf(),
                i <= self@.len(),
                forall|k: int| 0 <= k < i ==> (#[trigger] self@[k]).uri() != uri@,
            decreases self@.len() - i,
        {
            if self.sources[i].uri_ref().eq(uri) {
                proof {
                    lemma_index_unique(self@, uri@, i as int);
                }
                return Some(i);
            }
            i = i + 1;
        }
        proof {
            if has_uri(self@, uri@) {
                let k = choose|k: int|
                    0 <= k < self@.len() && (#[trigger] self@[k]).uri() == uri@;
                assert(self@[k].uri() != uri@);
            }
        }
        None
    }

    /// The id of the file the URI is registered under, if any; never touches
    /// the disk.
    pub fn lookup_id(&self, uri: &String) -> (r: Option<SourceId>)
        requires
            self.wf(),
        ensures
            match r {
                Some(id) => has_uri(self@, uri@) && id@ == index_of_uri(self@, uri@),
                None => !has_uri(self@, uri@),
            },
    {
        match self.find_slot(uri) {
            Some(i) => Some(SourceId(i as u16)),
            None => None,
        }
    }

    /// The URI to reload, if the slot is stale; `None` means the slot is
    /// cached and no disk read is due.
    pub fn stale_uri(&self, id: SourceId) -> (r: Option<String>)
        requires
            self.wf(),
            id@ < self@.len(),
        ensures
            match r {
                Some(u) => !self@[id@].is_cached() && u@ == self@[id@].uri(),
                None => self@[id@].is_cached(),
            },
    {
        let i = self.id_index(id);
        match &self.sources[i] {
            CachedSource::ClosedModified(uri) => Some(uri.clone()),
            _ => None,
        }
    }

    /// The slot index of an id.
    fn id_index(&self, id: SourceId) -> (r: usize)
        requires
            id@ < self@.len(),
        ensures
            r == id@,
            r < self@.len(),
    {
        id.0 as usize
    }

    /// Registers a URI, or returns the id it already has.  For a new URI the
    /// caller supplies the outcome of reading the file; on a failed read the
    /// error is returned and no id is allocated, so retrying is clean.  For
    /// a known URI the outcome is never consulted.
    pub fn get_id(&mut self, uri: String, disk: Result<String, FileError>) -> (r: Result<
        SourceId,
        FileError,
    >)
        requires
            old(self).wf(),
            old(self)@.len() < 0x10000,
        ensures
            final(self).wf(),
            final(self)@ == register_spec(old(self)@, uri@, disk_view(disk)),
            id_result_view(r) == register_id_spec(old(self)@, uri@, disk_view(disk)),
    {
        match self.find_slot(&uri) {
            Some(i) => Ok(SourceId(i as u16)),
            None => {
                let ghost old_slots = self@;
                let id = SourceId(self.sources.len() as u16);
                match CachedSource::new_cached(id, uri, disk) {
                    Ok(slot) => {
                        let ghost slotv = slot@;
                        self.sources.push(slot);
                        proof {
                            assert(self@ =~= old_slots.push(slotv));
                            lemma_register_preserves_wf(old_slots, uri@, disk_view(disk));
                        }
                        Ok(id)
                    },
                    Err(e) => Err(e),
                }
            },
        }
    }

    /// Opens a file with editor-supplied text.  Idempotent in the URI:
    /// a new URI gets a fresh slot, a known URI has its slot overwritten
    /// unconditionally — editor content always wins over any prior state.
    pub fn open(&mut self, uri: String, text: String) -> (r: SourceId)
        requires
            old(self).wf(),
            old(self)@.len() < 0x10000,
        ensures
            final(self).wf(),
            final(self)@ == open_spec(old(self)@, uri@, text@),
            r@ == open_id_spec(old(self)@, uri@),
    {
        let ghost old_slots = self@;
        match self.find_slot(&uri) {
            Some(i) => {
                let id = SourceId(i as u16);
                let slot = CachedSource::new_open(id, uri, text);
                let ghost slotv = slot@;
                self.sources[i] = slot;
                proof {
                    assert(self@ =~= old_slots.update(i as int, slotv));
                    lemma_open_preserves_wf(old_slots, uri@, text@);
                }
                id
            },
            None => {
                let id = SourceId(self.sources.len() as u16);
                let slot = CachedSource::new_open(id, uri, text);
                let ghost slotv = slot@;
                self.sources.push(slot);
                proof {
                    assert(self@ =~= old_slots.push(slotv));
                    lemma_open_preserves_wf(old_slots, uri@, text@);
                }
                id
            },
        }
    }

    /// Closes a file: a known file becomes presumed stale and its text is
    /// discarded; unknown URIs are ignored.  This is deliberately
    /// pessimistic — a close means the next read must reverify against the
    /// disk.
    pub fn close(&mut self, uri: &String)
        requires
            old(self).wf(),
        ensures
            final(self).wf(),
            final(self)@ == close_spec(old(self)@, uri@),
    {
        let ghost old_slots = self@;
        match self.find_slot(uri) {
            Some(i) => {
                let slot = CachedSource::ClosedModified(uri.clone());
                let ghost slotv = slot@;
                self.sources[i] = slot;
                proof {
                    assert(self@ =~= old_slots.update(i as int, slotv));
                    lemma_close_preserves_wf(old_slots, uri@);
                }
            },
            None => {},
        }
    }

    /// Records a file-watcher change: a known file that is not open becomes
    /// presumed stale.  Open files are editor-authoritative and unaffected.
    pub fn mark_changed(&mut self, uri: &String)
        requires
            old(self).wf(),
        ensures
            final(self).wf(),
            final(self)@ == mark_changed_spec(old(self)@, uri@),
    {
        let ghost old_slots = self@;
        match self.find_slot(uri) {
            Some(i) => {
                if !self.sources[i].is_open() {
                    let slot = CachedSource::ClosedModified(uri.clone());
                    let ghost slotv = slot@;
                    self.sources[i] = slot;
                    proof {
                        assert(self@ =~= old_slots.update(i as int, slotv));
                        lemma_update_same_uri_wf(old_slots, i as int, slotv);
                    }
                }
            },
            None => {},
        }
    }

    /// Fills one slot's cache from the given disk-read outcome.  Idempotent:
    /// on a cached slot this is a no-op that never consults the outcome, so
    /// a slot is reloaded at most once however many callers converge on it.
    pub fn cache_source(&mut self, id: SourceId, disk: Result<String, FileError>) -> (r: Result<
        (),
        FileError,
    >)
        requires
            old(self).wf(),
            id@ < old(self)@.len(),
        ensures
            final(self).wf(),
            final(self)@ == cache_spec(old(self)@, id@, disk_view(disk)),
            unit_result_view(r) == cache_slot_ok(old(self)@[id@], disk_view(disk)),
    {
        let ghost old_slots = self@;
        let i = self.id_index(id);
        let slot = vstd::std_specs::vec::vec_index_mut(&mut self.sources, i);
        let r = slot.cache(id, disk);
        proof {
            assert(self@ =~= cache_spec(old_slots, id@, disk_view(disk)));
            lemma_cache_preserves_wf(old_slots, id@, disk_view(disk));
        }
        r
    }

    /// Returns the file's current content, filling the cache from the given
    /// disk-read outcome first if the slot is stale.  A reload failure is
    /// returned without mutating anything.
    pub fn get_source(&mut self, id: SourceId, disk: Result<String, FileError>) -> (r: Result<
        Source,
        FileError,
    >)
        requires
            old(self).wf(),
            id@ < old(self)@.len(),
        ensures
            final(self).wf(),
            final(self)@ == cache_spec(old(self)@, id@, disk_view(disk)),
            match cache_slot_ok(old(self)@[id@], disk_view(disk)) {
                Ok(u) => r matches Ok(s) && s@ == cache_slot_spec(
                    old(self)@[id@],
                    id@,
                    disk_view(disk),
                ).source(),
                Err(e) => r matches Err(e2) && e2@ == e,
            },
    {
        match self.cache_source(id, disk) {
            Err(e) => Err(e),
            Ok(_) => {
                let i = self.id_index(id);
                proof {
                    assert(self@[id@] == cache_slot_spec(old(self)@[id@], id@, disk_view(disk)));
                    assert(self@[id@].is_cached());
                    assert(self@[i as int] == self.sources@[i as int]@);
                }
                match self.sources[i].get_cached_source() {
                    Some(s) => Ok(s.duplicate()),
                    None => vstd::pervasive::unreached(),
                }
            },
        }
    }

    /// Returns the file's current content by URI, registering the URI first
    /// if it is new.  One disk-read outcome serves both paths: a new URI is
    /// loaded from it, a known-but-stale slot is refilled from it, and a
    /// cached slot never consults it.
    pub fn get_source_by_uri(&mut self, uri: String, disk: Result<String, FileError>) -> (r:
        Result<Source, FileError>)
        requires
            old(self).wf(),
            old(self)@.len() < 0x10000,
        ensures
            final(self).wf(),
            ({
                let dv = disk_view(disk);
                let slots1 = register_spec(old(self)@, uri@, dv);
                match register_id_spec(old(self)@, uri@, dv) {
                    Ok(id) => final(self)@ == cache_spec(slots1, id, dv) && match cache_slot_ok(
                        slots1[id],
                        dv,
                    ) {
                        Ok(u) => r matches Ok(s) && s@ == cache_slot_spec(
                            slots1[id],
                            id,
                            dv,
                        ).source(),
                        Err(e) => r matches Err(e2) && e2@ == e,
                    },
                    Err(e) => final(self)@ == old(self)@ && (r matches Err(e2) && e2@ == e),
                }
            }),
    {
        let ghost old_slots = self@;
        match self.find_slot(&uri) {
            Some(i) => {
                proof {
                    assert(register_spec(old_slots, uri@, disk_view(disk)) =~= old_slots);
                }
                self.get_source(SourceId(i as u16), disk)
            },
            None => {
                match self.get_id(uri, disk) {
                    Ok(id) => {
                        let ghost slots1 = self@;
                        let r = self.get_source(id, Ok(String::new()));
                        proof {
                            let dv = disk_view(disk);
                            assert(slots1[id@].is_cached());
                            assert(self@ =~= cache_spec(slots1, id@, dv));
                        }
                        r
                    },
                    Err(e) => Err(e),
                }
            },
        }
    }

    /// How many files are registered; ids `0..len` are exactly the valid
    /// handles.
    pub fn len(&self) -> (r: usize)
        ensures
            r == self@.len(),
    {
        self.sources.len()
    }

    /// Applies an editor edit to a cached file's text, translating the
    /// editor range under its encoding first.  Returns whether the slot was
    /// cached; a stale slot has no text to edit and is left untouched.
    pub fn edit_source(&mut self, id: SourceId, replace: &LspRange, with: &str) -> (r: bool)
        requires
            old(self).wf(),
            id@ < old(self)@.len(),
            pos_le(replace.start, replace.end),
        ensures
            final(self).wf(),
            r == old(self)@[id@].is_cached(),
            final(self)@ == old(self)@.update(
                id@,
                edit_slot_spec(old(self)@[id@], *replace, with@),
            ),
    {
        let ghost old_slots = self@;
        let i = self.id_index(id);
        let slot = vstd::std_specs::vec::vec_index_mut(&mut self.sources, i);
        let r = match slot {
            CachedSource::Open(src) => {
                src.edit(replace, with);
                true
            },
            CachedSource::ClosedUnmodified(src) => {
                src.edit(replace, with);
                true
            },
            CachedSource::ClosedModified(_) => false,
        };
        proof {
            assert(self@ =~= old_slots.update(i as int, edit_slot_spec(old_slots[i as int], *replace, with@)));
            lemma_update_same_uri_wf(old_slots, i as int, edit_slot_spec(old_slots[i as int], *replace, with@));
        }
        r
    }

    /// Replaces a cached file's whole text, for when the editor sends no
    /// range.  Returns whether the slot was cached.
    pub fn replace_source(&mut self, id: SourceId, text: String) -> (r: bool)
        requires
            old(self).wf(),
            id@ < old(self)@.len(),
        ensures
            final(self).wf(),
            r == old(self)@[id@].is_cached(),
            final(self)@ == old(self)@.update(
                id@,
                replace_slot_spec(old(self)@[id@], text@),
            ),
    {
        let ghost old_slots = self@;
        let i = self.id_index(id);
        let slot = vstd::std_specs::vec::vec_index_mut(&mut self.sources, i);
        let r = match slot {
            CachedSource::Open(src) => {
                src.replace(text);
                true
            },
            CachedSource::ClosedUnmodified(src) => {
                src.replace(text);
                true
            },
            CachedSource::ClosedModified(_) => false,
        };
        proof {
            assert(self@ =~= old_slots.update(i as int, replace_slot_spec(old_slots[i as int], text@)));
            lemma_update_same_uri_wf(old_slots, i as int, replace_slot_spec(old_slots[i as int], text@));
        }
        r
    }

    /// The URIs of the files currently open in the editor, in slot order.
    pub fn open_uris(&self) -> (r: Vec<String>)
        requires
            self.wf(),
        ensures
            r@.map_values(|s: String| s@) == open_uris_spec(self@),
    {
        let mut r: Vec<String> = Vec::new();
        let mut i: usize = 0;
        while i < self.sources.len()
            invariant
                self.wf(),
                i <= self@.len(),
                r@.map_values(|s: String| s@) == open_uris_spec(self@.take(i as int)),
            decreases self@.len() - i,
        {
            let ghost prefix = self@.take(i as int);
            if self.sources[i].is_open() {
                let u = self.sources[i].uri_ref().clone();
                r.push(u);
            }
            proof {
                let next = self@.take(i + 1 as int);
                assert(next.drop_last() =~= prefix);
                assert(next.last() == self@[i as int]);
                if self@[i as int].is_open() {
                    assert(r@.map_values(|s: String| s@) =~= open_uris_spec(prefix) + seq![
                        self@[i as int].uri(),
                    ]);
                } else {
                    assert(r@.map_values(|s: String| s@) =~= open_uris_spec(prefix));
                }
            }
            i = i + 1;
        }
        proof {
            assert(self@.take(self@.len() as int) =~= self@);
        }
        r
    }
}

/// Appending a slot with a fresh URI keeps the table well-formed.
proof fn lemma_push_fresh_wf(slots: Seq<SlotView>, slot: SlotView)
    requires
        slots_wf(slots),
        !has_uri(slots, slot.uri()),
        slot.is_cached() ==> slot.source().id == slots.len() && slot.source().uri == slot.uri(),
    ensures
        slots_wf(slots.push(slot)),
{
    let slots2 = slots.push(slot);
    assert forall|i: int|
        0 <= i < slots2.len() && (#[trigger] slots2[i]).is_cached() implies slots2[i].source().id
        == i && slots2[i].source().uri == slots2[i].uri() by {
        if i < slots.len() {
            assert(slots2[i] == slots[i]);
        }
    }
    assert forall|i: int, j: int| 0 <= i < j < slots2.len() implies #[trigger] slots2[i].uri()
        != #[trigger] slots2[j].uri() by {
        if j < slots.len() {
            assert(slots[i].uri() != slots[j].uri());
        } else {
            assert(slots2[j] == slot);
            if slots2[i].uri() == slot.uri() {
                assert(slots[i].uri() == slot.uri());
                assert(has_uri(slots, slot.uri()));
            }
        }
    }
}

/// Replacing a slot by one with the same URI and the slot's own index as id
/// keeps the table well-formed.
proof fn lemma_update_same_uri_wf(slots: Seq<SlotView>, i: int, slot: SlotView)
    requires
        slots_wf(slots),
        0 <= i < slots.len(),
        slot.uri() == slots[i].uri(),
        slot.is_cached() ==> slot.source().id == i && slot.source().uri == slot.uri(),
    ensures
        slots_wf(slots.update(i, slot)),
{
    let slots2 = slots.update(i, slot);
    assert forall|k: int|
        0 <= k < slots2.len() && (#[trigger] slots2[k]).is_cached() implies slots2[k].source().id
        == k && slots2[k].source().uri == slots2[k].uri() by {
        if k != i {
            assert(slots2[k] == slots[k]);
        }
    }
    assert forall|k: int, j: int| 0 <= k < j < slots2.len() implies #[trigger] slots2[k].uri()
        != #[trigger] slots2[j].uri() by {
        assert(slots[k].uri() != slots[j].uri());
        assert(slots2[k].uri() == slots[k].uri());
        assert(slots2[j].uri() == slots[j].uri());
    }
}

/// Opening a file keeps the table well-formed.
pub proof fn lemma_open_preserves_wf(slots: Seq<SlotView>, uri: Seq<char>, text: Seq<char>)
    requires
        slots_wf(slots),
    ensures
        slots_wf(open_spec(slots, uri, text)),
{
    if has_uri(slots, uri) {
        let i = index_of_uri(slots, uri);
        assert(0 <= i < slots.len() && slots[i].uri() == uri);
        lemma_update_same_uri_wf(slots, i, SlotView::Open(SourceView { id: i, uri, text }));
    } else {
        lemma_push_fresh_wf(
            slots,
            SlotView::Open(SourceView { id: slots.len() as int, uri, text }),
        );
    }
}

/// Closing a file keeps the table well-formed.
pub proof fn lemma_close_preserves_wf(slots: Seq<SlotView>, uri: Seq<char>)
    requires
        slots_wf(slots),
    ensures
        slots_wf(close_spec(slots, uri)),
{
    if has_uri(slots, uri) {
        let i = index_of_uri(slots, uri);
        assert(0 <= i < slots.len() && slots[i].uri() == uri);
        lemma_update_same_uri_wf(slots, i, SlotView::ClosedModified { uri });
    }
}

/// Registering a URI keeps the table well-formed.
pub proof fn lemma_register_preserves_wf(
    slots: Seq<SlotView>,
    uri: Seq<char>,
    disk: Result<Seq<char>, FileErrorView>,
)
    requires
        slots_wf(slots),
    ensures
        slots_wf(register_spec(slots, uri, disk)),
{
    if !has_uri(slots, uri) && disk is Ok {
        lemma_push_fresh_wf(
            slots,
            SlotView::ClosedUnmodified(
                SourceView { id: slots.len() as int, uri, text: disk->Ok_0 },
            ),
        );
    }
}

/// Registering a URI is idempotent: once a registration has handed out an
/// id, registering the same URI again returns the same id and leaves every
/// slot unchanged, whatever a second disk read would have said — in
/// particular, no content is reloaded for an already-cached file.
pub proof fn lemma_register_idempotent(
    slots: Seq<SlotView>,
    uri: Seq<char>,
    d1: Result<Seq<char>, FileErrorView>,
    d2: Result<Seq<char>, FileErrorView>,
)
    requires
        slots_wf(slots),
        register_id_spec(slots, uri, d1) is Ok,
    ensures
        ({
            let slots1 = register_spec(slots, uri, d1);
            &&& register_spec(slots1, uri, d2) == slots1
            &&& register_id_spec(slots1, uri, d2) == register_id_spec(slots, uri, d1)
        }),
{
    let slots1 = register_spec(slots, uri, d1);
    if has_uri(slots, uri) {
        assert(slots1 == slots);
    } else {
        let t = d1->Ok_0;
        let slot = SlotView::ClosedUnmodified(SourceView { id: slots.len() as int, uri, text: t });
        assert(slots1 == slots.push(slot));
        assert(slots1[slots.len() as int].uri() == uri);
        lemma_push_fresh_wf(slots, slot);
        lemma_index_unique(slots1, uri, slots.len() as int);
    }
}

/// At most one reload: once a cache fill has succeeded on a slot, every
/// further fill leaves the slot exactly as it is and succeeds, whatever its
/// disk-read argument says — so among any number of fills that converge on
/// one stale slot, only the first consults the disk at all.
pub proof fn lemma_cache_at_most_one_reload(
    slot: SlotView,
    id: int,
    d1: Result<Seq<char>, FileErrorView>,
    d2: Result<Seq<char>, FileErrorView>,
)
    requires
        cache_slot_ok(slot, d1) is Ok,
    ensures
        ({
            let filled = cache_slot_spec(slot, id, d1);
            &&& filled.is_cached()
            &&& cache_slot_spec(filled, id, d2) == filled
            &&& cache_slot_ok(filled, d2) is Ok
        }),
{
}

/// A cache fill converges: a stale slot together with a successful disk
/// read always becomes a trusted slot holding exactly the text that was
/// read.
pub proof fn lemma_cache_converges(slot: SlotView, id: int, text: Seq<char>)
    requires
        !slot.is_cached(),
    ensures
        cache_slot_spec(slot, id, Ok(text)) == SlotView::ClosedUnmodified(
            SourceView { id, uri: slot.uri(), text },
        ),
        cache_slot_ok(slot, Ok(text)) is Ok,
{
}

/// Editor content always wins: opening a file with one text, closing it,
/// and opening it again with another text leaves the slot open under the
/// same id with exactly the second text, and a subsequent read returns that
/// text without consulting the disk.
pub proof fn lemma_editor_content_wins(
    slots: Seq<SlotView>,
    uri: Seq<char>,
    a: Seq<char>,
    b: Seq<char>,
    d: Result<Seq<char>, FileErrorView>,
)
    requires
        slots_wf(slots),
    ensures
        ({
            let s1 = open_spec(slots, uri, a);
            let s2 = close_spec(s1, uri);
            let s3 = open_spec(s2, uri, b);
            let id = open_id_spec(slots, uri);
            &&& open_id_spec(s2, uri) == id
            &&& 0 <= id < s3.len()
            &&& s3[id] == SlotView::Open(SourceView { id, uri, text: b })
            &&& cache_slot_spec(s3[id], id, d) == s3[id]
            &&& cache_slot_ok(s3[id], d) is Ok
            &&& cache_slot_spec(s3[id], id, d).source().text == b
        }),
{
    let s1 = open_spec(slots, uri, a);
    let id = open_id_spec(slots, uri);
    if has_uri(slots, uri) {
        assert(0 <= id < slots.len() && slots[id].uri() == uri);
    }
    lemma_open_preserves_wf(slots, uri, a);
    assert(s1[id] == SlotView::Open(SourceView { id, uri, text: a }));
    lemma_index_unique(s1, uri, id);
    let s2 = close_spec(s1, uri);
    assert(s2 == s1.update(id, SlotView::ClosedModified { uri }));
    lemma_update_same_uri_wf(s1, id, SlotView::ClosedModified { uri });
    lemma_index_unique(s2, uri, id);
    let s3 = open_spec(s2, uri, b);
    assert(s3[id] == SlotView::Open(SourceView { id, uri, text: b }));
}

/// A cache fill keeps the table well-formed.
proof fn lemma_cache_preserves_wf(
    slots: Seq<SlotView>,
    id: int,
    disk: Result<Seq<char>, FileErrorView>,
)
    requires
        slots_wf(slots),
        0 <= id < slots.len(),
    ensures
        slots_wf(cache_spec(slots, id, disk)),
{
    let slot = cache_slot_spec(slots[id], id, disk);
    assert(slot.uri() == slots[id].uri());
    lemma_update_same_uri_wf(slots, id, slot);
}

} // verus!
