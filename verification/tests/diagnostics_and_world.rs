use typst_lsp::FileError;
use typst_lsp::diagnostics::Diagnostic;
use typst_lsp::diagnostics::DiagnosticSeverity;
use typst_lsp::diagnostics::DiagnosticsMap;
use typst_lsp::diagnostics::collect_diagnostics;
use typst_lsp::position::LspPosition;
use typst_lsp::source_manager::SourceManager;
use typst_lsp::world::fetch_source;
use typst_lsp::world::resolve;

fn chars(s: &str) -> Vec<char> {
    s.chars().collect()
}

fn diag(message: &str) -> Diagnostic {
    Diagnostic {
        severity: DiagnosticSeverity::Error,
        start: LspPosition { line: 0, character: 0 },
        end: LspPosition { line: 0, character: 1 },
        message: message.to_string(),
    }
}

#[test]
fn push_groups_by_uri_in_order() {
    let a = "file:///a.typ".to_string();
    let b = "file:///b.typ".to_string();
    let mut m = DiagnosticsMap::default();
    m.push_diagnostic(&a, diag("first"));
    m.push_diagnostic(&b, diag("other"));
    m.push_diagnostic(&a, diag("second"));
    assert_eq!(m.len(), 2);
    let for_a = m.get(&a).unwrap();
    assert_eq!(for_a.len(), 2);
    assert_eq!(for_a[0].message, "first".to_string());
    assert_eq!(for_a[1].message, "second".to_string());
    assert_eq!(m.get(&b).unwrap().len(), 1);
    assert!(m.get(&"file:///c.typ".to_string()).is_none());
}

#[test]
fn ensure_entries_clears_open_files_without_touching_findings() {
    let a = "file:///a.typ".to_string();
    let b = "file:///b.typ".to_string();
    let mut m = DiagnosticsMap::default();
    m.push_diagnostic(&a, diag("kept"));
    m.ensure_entries(&vec![a.clone(), b.clone()]);
    assert_eq!(m.len(), 2);
    assert_eq!(m.get(&a).unwrap().len(), 1);
    assert_eq!(m.get(&b).unwrap().len(), 0);
}

#[test]
fn collect_diagnostics_groups_and_clears() {
    let a = "file:///a.typ".to_string();
    let b = "file:///b.typ".to_string();
    let c = "file:///c.typ".to_string();
    let errors = vec![
        (a.clone(), diag("one")),
        (b.clone(), diag("two")),
        (a.clone(), diag("three")),
    ];
    let m = collect_diagnostics(&errors, &vec![a.clone(), c.clone()]);
    assert_eq!(m.len(), 3);
    let for_a = m.get(&a).unwrap();
    assert_eq!(for_a[0].message, "one".to_string());
    assert_eq!(for_a[1].message, "three".to_string());
    assert_eq!(m.get(&b).unwrap().len(), 1);
    // The open file with no findings gets an empty entry, clearing stale
    // diagnostics on publication.
    assert_eq!(m.get(&c).unwrap().len(), 0);
}

#[test]
fn collect_diagnostics_of_a_clean_pass_only_clears() {
    let a = "file:///a.typ".to_string();
    let m = collect_diagnostics(&Vec::new(), &vec![a.clone()]);
    assert_eq!(m.len(), 1);
    assert_eq!(m.get(&a).unwrap().len(), 0);
}

#[test]
fn uris_lists_entries_in_insertion_order() {
    let a = "file:///a.typ".to_string();
    let b = "file:///b.typ".to_string();
    let mut m = DiagnosticsMap::default();
    m.push_diagnostic(&b, diag("first seen"));
    m.push_diagnostic(&a, diag("second seen"));
    m.push_diagnostic(&b, diag("again"));
    assert_eq!(m.uris(), vec![b.clone(), a.clone()]);
}

#[test]
fn resolve_registers_caches_and_reuses() {
    let mut m = SourceManager::default();
    let u = "file:///doc.typ".to_string();
    let id = resolve(&mut m, u.clone(), Ok("content".to_string())).unwrap();
    // Resolved and cached: a second resolve needs no disk at all.
    let again = resolve(&mut m, u.clone(), Err(FileError::NotFound)).unwrap();
    assert_eq!(id, again);
    // A failed resolve of an absent file surfaces the error.
    let missing = resolve(
        &mut m,
        "file:///absent.typ".to_string(),
        Err(FileError::NotFound),
    );
    assert_eq!(missing, Err(FileError::NotFound));
}

#[test]
fn fetch_source_degrades_to_a_detached_source() {
    let mut m = SourceManager::default();
    let u = "file:///doc.typ".to_string();
    let id = m.open(u.clone(), "fine".to_string());

    let (src, err) = fetch_source(&mut m, id, Err(FileError::NotFound));
    assert!(err.is_none());
    assert_eq!(src.text(), &chars("fine"));

    m.close(&u);
    let (src, err) = fetch_source(&mut m, id, Err(FileError::PermissionDenied));
    assert_eq!(err, Some(FileError::PermissionDenied));
    assert!(src.text().is_empty());
    assert_eq!(src.id(), id);
}
