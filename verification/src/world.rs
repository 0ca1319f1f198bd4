//! The manager's side of the compiler's synchronous query contract.
//!
//! A compiler pass queries files by path and by id.  Both queries may have
//! to fill a cache first; the caller performs the disk read and hands its
//! outcome in.  A path query that fails surfaces the error to the compiler,
//! which turns it into a diagnostic.  An id query, by contract, has no error
//! channel once a pass has begun: on failure it degrades to a detached empty
//! source and reports the error out of band, so one unreadable file cannot
//! abort compilation of unrelated files.

use vstd::prelude::*;

use crate::FileError;
use crate::source::Source;
use crate::source_manager::SourceId;
use crate::source_manager::SourceManager;
use crate::source_manager::cache_slot_ok;
use crate::source_manager::cache_slot_spec;
use crate::source_manager::cache_spec;
use crate::source_manager::disk_view;
use crate::source_manager::register_id_spec;
use crate::source_manager::register_spec;

verus! {

/// Resolves a URI to an id for a compiler pass, registering the URI and
/// filling the slot's cache as needed, so that later id queries of the same
/// pass need no further disk read.  One disk-read outcome serves every
/// path: a new URI is loaded from it, a known-but-stale slot is refilled
/// from it, and a cached slot never consults it.
pub fn resolve(manager: &mut SourceManager, uri: String, disk: Result<String, FileError>) -> (r:
    Result<SourceId, FileError>)
    requires
        old(manager).wf(),
        old(manager)@.len() < 0x10000,
    ensures
        final(manager).wf(),
        ({
            let dv = disk_view(disk);
            let slots1 = register_spec(old(manager)@, uri@, dv);
            match register_id_spec(old(manager)@, uri@, dv) {
                Ok(id) => final(manager)@ == cache_spec(slots1, id, dv) && match cache_slot_ok(
                    slots1[id],
                    dv,
                ) {
                    Ok(u) => r matches Ok(rid) && rid@ == id,
                    Err(e) => r matches Err(e2) && e2@ == e,
                },
                Err(e) => final(manager)@ == old(manager)@ && (r matches Err(e2) && e2@ == e),
            }
        }),
{
    let ghost old_slots = manager@;
    match manager.lookup_id(&uri) {
        Some(id) => {
            proof {
                assert(0 <= id@ < old_slots.len() && old_slots[id@].uri() == uri@);
                assert(register_spec(old_slots, uri@, disk_view(disk)) =~= old_slots);
            }
            match manager.cache_source(id, disk) {
                Ok(_) => Ok(id),
                Err(e) => Err(e),
            }
        },
        None => {
            match manager.get_id(uri, disk) {
                Ok(id) => {
                    proof {
                        let dv = disk_view(disk);
                        let slots1 = register_spec(old_slots, uri@, dv);
                        assert(slots1[id@].is_cached());
                        assert(manager@ =~= cache_spec(slots1, id@, dv));
                    }
                    Ok(id)
                },
                Err(e) => Err(e),
            }
        },
    }
}

/// Fetches the source a compiler pass queries by id, filling the cache
/// from the given disk-read outcome first if the slot is stale.  The query
/// contract has no error channel, so on a failed fill this returns a
/// detached empty source in its place and hands the error back separately
/// for out-of-band reporting.
pub fn fetch_source(manager: &mut SourceManager, id: SourceId, disk: Result<String, FileError>) -> (r: (
    Source,
    Option<FileError>,
))
    requires
        old(manager).wf(),
        id@ < old(manager)@.len(),
    ensures
        final(manager).wf(),
        final(manager)@ == cache_spec(old(manager)@, id@, disk_view(disk)),
        match cache_slot_ok(old(manager)@[id@], disk_view(disk)) {
            Ok(u) => r.1 is None && r.0@ == cache_slot_spec(
                old(manager)@[id@],
                id@,
                disk_view(disk),
            ).source(),
            Err(e) => (r.1 matches Some(e2) && e2@ == e) && r.0@.id == id@ && r.0@.uri
                == Seq::<char>::empty() && r.0@.text == Seq::<char>::empty(),
        },
{
    match manager.get_source(id, disk) {
        Ok(source) => (source, None),
        Err(e) => (Source::new(id, String::new(), String::new()), Some(e)),
    }
}

} // verus!
