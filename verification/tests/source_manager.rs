use typst_lsp::FileError;
use typst_lsp::position::LspPosition;
use typst_lsp::position::LspRange;
use typst_lsp::position::PositionEncoding;
use typst_lsp::source_manager::SourceId;
use typst_lsp::source_manager::SourceManager;

fn chars(s: &str) -> Vec<char> {
    s.chars().collect()
}

fn uri(s: &str) -> String {
    s.to_string()
}

#[test]
fn state_follows_each_operation() {
    let mut m = SourceManager::default();
    let u = uri("file:///doc.typ");

    let id = m.open(u.clone(), "one".to_string());
    assert_eq!(m.open_uris(), vec![u.clone()]);
    assert!(m.stale_uri(id).is_none());

    m.close(&u);
    assert!(m.open_uris().is_empty());
    assert_eq!(m.stale_uri(id), Some(u.clone()));

    m.cache_source(id, Ok("from disk".to_string())).unwrap();
    assert!(m.stale_uri(id).is_none());
    assert!(m.open_uris().is_empty());
    let s = m.get_source(id, Err(FileError::NotFound)).unwrap();
    assert_eq!(s.text(), &chars("from disk"));

    m.mark_changed(&u);
    assert_eq!(m.stale_uri(id), Some(u.clone()));
}

#[test]
fn cache_converges_stale_to_trusted() {
    let mut m = SourceManager::default();
    let u = uri("file:///doc.typ");
    let id = m.open(u.clone(), "editor".to_string());
    m.close(&u);
    assert!(m.stale_uri(id).is_some());
    m.cache_source(id, Ok("disk text".to_string())).unwrap();
    assert!(m.stale_uri(id).is_none());
    let s = m.get_source(id, Err(FileError::NotFound)).unwrap();
    assert_eq!(s.text(), &chars("disk text"));
    assert_eq!(s.uri(), &u);
    assert_eq!(s.id(), id);
}

#[test]
fn register_is_idempotent_and_does_not_reload() {
    let mut m = SourceManager::default();
    let u = uri("file:///doc.typ");
    let first = m.get_id(u.clone(), Ok("loaded once".to_string())).unwrap();
    // The second registration returns the same id; the failed disk outcome
    // proves the content is not reloaded for an already-cached file.
    let second = m.get_id(u.clone(), Err(FileError::NotFound)).unwrap();
    assert_eq!(first, second);
    let s = m.get_source(first, Err(FileError::NotFound)).unwrap();
    assert_eq!(s.text(), &chars("loaded once"));
}

#[test]
fn at_most_one_reload_for_converging_cache_calls() {
    let mut m = SourceManager::default();
    let u = uri("file:///doc.typ");
    let id = m.open(u.clone(), "editor".to_string());
    m.close(&u);

    // An instrumented file system: it counts how many reads the manager
    // asks for across five converging cache calls on the same stale slot.
    let mut reads: usize = 0;
    for _ in 0..5 {
        let outcome = match m.stale_uri(id) {
            Some(_) => {
                reads += 1;
                Ok("disk text".to_string())
            }
            None => Err(FileError::Other("no read requested".to_string())),
        };
        m.cache_source(id, outcome).unwrap();
    }
    assert_eq!(reads, 1);
    let s = m.get_source(id, Err(FileError::NotFound)).unwrap();
    assert_eq!(s.text(), &chars("disk text"));
}

#[test]
fn editor_content_always_wins() {
    let mut m = SourceManager::default();
    let u = uri("file:///doc.typ");
    m.open(u.clone(), "A".to_string());
    m.close(&u);
    let id = m.open(u.clone(), "B".to_string());
    let s = m.get_source(id, Err(FileError::NotFound)).unwrap();
    assert_eq!(s.text(), &chars("B"));
}

#[test]
fn open_files_ignore_watcher_notifications() {
    let mut m = SourceManager::default();
    let u = uri("file:///doc.typ");
    let id = m.open(u.clone(), "editor".to_string());
    m.mark_changed(&u);
    assert!(m.stale_uri(id).is_none());
    let s = m.get_source(id, Err(FileError::NotFound)).unwrap();
    assert_eq!(s.text(), &chars("editor"));
}

#[test]
fn failed_registration_allocates_no_id() {
    let mut m = SourceManager::default();
    let u = uri("file:///a.typ");
    let r = m.get_id(u.clone(), Err(FileError::NotFound));
    assert_eq!(r, Err(FileError::NotFound));
    assert!(m.lookup_id(&u).is_none());
    // Retrying is clean: the next registration gets the first id.
    let id = m.open(u.clone(), "content".to_string());
    assert_eq!(id.into_u16(), 0);
    let s = m.get_source(id, Err(FileError::NotFound)).unwrap();
    assert_eq!(s.text(), &chars("content"));
}

#[test]
fn ids_are_assigned_in_order_and_stay_stable() {
    let mut m = SourceManager::default();
    let a = m.open(uri("file:///a.typ"), "a".to_string());
    let b = m.open(uri("file:///b.typ"), "b".to_string());
    assert_eq!(a.into_u16(), 0);
    assert_eq!(b.into_u16(), 1);
    // Reopening an existing file keeps its id.
    let again = m.open(uri("file:///a.typ"), "a2".to_string());
    assert_eq!(again, a);
    assert_eq!(m.lookup_id(&uri("file:///b.typ")), Some(b));
    assert_eq!(SourceId::from_u16(1), b);
}

#[test]
fn reload_failure_is_returned_without_mutating() {
    let mut m = SourceManager::default();
    let u = uri("file:///doc.typ");
    let id = m.open(u.clone(), "editor".to_string());
    m.close(&u);
    let r = m.get_source(id, Err(FileError::PermissionDenied));
    assert!(matches!(r, Err(FileError::PermissionDenied)));
    // The slot is still stale, and a later successful read still converges.
    assert_eq!(m.stale_uri(id), Some(u.clone()));
    let e = m.cache_source(id, Err(FileError::Other("io".to_string())));
    assert_eq!(e, Err(FileError::Other("io".to_string())));
    m.cache_source(id, Ok("finally".to_string())).unwrap();
    let s = m.get_source(id, Err(FileError::NotFound)).unwrap();
    assert_eq!(s.text(), &chars("finally"));
}

#[test]
fn get_source_by_uri_serves_all_three_paths() {
    let mut m = SourceManager::default();
    let u = uri("file:///doc.typ");
    // Unknown URI: loaded from the supplied outcome.
    let s = m.get_source_by_uri(u.clone(), Ok("first".to_string())).unwrap();
    assert_eq!(s.text(), &chars("first"));
    // Known and cached: the outcome is not consulted.
    let s = m.get_source_by_uri(u.clone(), Err(FileError::NotFound)).unwrap();
    assert_eq!(s.text(), &chars("first"));
    // Known but stale: refilled from the outcome.
    m.close(&u);
    let s = m.get_source_by_uri(u.clone(), Ok("second".to_string())).unwrap();
    assert_eq!(s.text(), &chars("second"));
}

#[test]
fn open_uris_lists_exactly_the_open_files() {
    let mut m = SourceManager::default();
    let a = uri("file:///a.typ");
    let b = uri("file:///b.typ");
    let c = uri("file:///c.typ");
    m.open(a.clone(), "a".to_string());
    m.open(b.clone(), "b".to_string());
    m.get_id(c.clone(), Ok("c".to_string())).unwrap();
    assert_eq!(m.open_uris(), vec![a.clone(), b.clone()]);
    m.close(&a);
    assert_eq!(m.open_uris(), vec![b.clone()]);
}

#[test]
fn manager_edits_apply_to_the_stored_text() {
    let mut m = SourceManager::default();
    let u = uri("file:///doc.typ");
    let id = m.open(u.clone(), "héllo".to_string());
    assert_eq!(m.len(), 1);

    let replace = LspRange {
        start: LspPosition { line: 0, character: 1 },
        end: LspPosition { line: 0, character: 2 },
        encoding: PositionEncoding::Utf16,
    };
    assert!(m.edit_source(id, &replace, "e"));
    let s = m.get_source(id, Err(FileError::NotFound)).unwrap();
    assert_eq!(s.text(), &chars("hello"));

    assert!(m.replace_source(id, "fresh".to_string()));
    let s = m.get_source(id, Err(FileError::NotFound)).unwrap();
    assert_eq!(s.text(), &chars("fresh"));

    // A stale slot has no text to edit and reports so.
    m.close(&u);
    assert!(!m.edit_source(id, &replace, "x"));
    assert!(!m.replace_source(id, "y".to_string()));
    assert_eq!(m.stale_uri(id), Some(u.clone()));
}

#[test]
fn close_of_unknown_uri_is_a_no_op() {
    let mut m = SourceManager::default();
    m.close(&uri("file:///nowhere.typ"));
    m.mark_changed(&uri("file:///nowhere.typ"));
    assert!(m.open_uris().is_empty());
    assert!(m.lookup_id(&uri("file:///nowhere.typ")).is_none());
}
