use typst_lsp::FileError;
use typst_lsp::position::LspPosition;
use typst_lsp::position::LspRange;
use typst_lsp::position::PositionEncoding;
use typst_lsp::position::index_of_position;
use typst_lsp::source::Source;
use typst_lsp::source_manager::CachedSource;
use typst_lsp::source_manager::SourceId;

fn chars(s: &str) -> Vec<char> {
    s.chars().collect()
}

fn pos(line: u32, character: u32) -> LspPosition {
    LspPosition { line, character }
}

fn range(start: LspPosition, end: LspPosition, encoding: PositionEncoding) -> LspRange {
    LspRange { start, end, encoding }
}

fn source(text: &str) -> Source {
    Source::new(
        SourceId::from_u16(0),
        "file:///doc.typ".to_string(),
        text.to_string(),
    )
}

#[test]
fn edit_replaces_a_multibyte_character_by_utf16_units() {
    // In UTF-16 units, the é of "héllo" spans exactly offset 1..2; replacing
    // it must splice at the character, not at a byte.
    let mut s = source("héllo");
    s.edit(&range(pos(0, 1), pos(0, 2), PositionEncoding::Utf16), "e");
    assert_eq!(s.text(), &chars("hello"));
}

#[test]
fn edit_replaces_a_multibyte_character_by_utf8_units() {
    // In UTF-8 units the same é spans offset 1..3.
    let mut s = source("héllo");
    s.edit(&range(pos(0, 1), pos(0, 3), PositionEncoding::Utf8), "e");
    assert_eq!(s.text(), &chars("hello"));
}

#[test]
fn edit_handles_a_surrogate_pair_wide_character() {
    // 𐍈 is one character but two UTF-16 units, so "b" sits at offset 3.
    let mut s = source("a𐍈b");
    s.edit(&range(pos(0, 1), pos(0, 3), PositionEncoding::Utf16), "X");
    assert_eq!(s.text(), &chars("aXb"));
}

#[test]
fn edit_on_a_later_line_counts_units_within_that_line() {
    let mut s = source("ab\ncd");
    s.edit(&range(pos(1, 0), pos(1, 1), PositionEncoding::Utf16), "X");
    assert_eq!(s.text(), &chars("ab\nXd"));
}

#[test]
fn edit_offsets_clamp_to_line_and_text_ends() {
    // An offset past the end of a line stops at the line break, so this
    // range covers exactly the break between the two lines.
    let mut s = source("ab\ncd");
    s.edit(&range(pos(0, 99), pos(1, 0), PositionEncoding::Utf16), "");
    assert_eq!(s.text(), &chars("abcd"));

    // A line past the end of the text stops at the text end.
    let mut s = source("ab");
    s.edit(&range(pos(5, 0), pos(9, 9), PositionEncoding::Utf16), "!");
    assert_eq!(s.text(), &chars("ab!"));
}

#[test]
fn edit_can_insert_at_a_point() {
    let mut s = source("ac");
    s.edit(&range(pos(0, 1), pos(0, 1), PositionEncoding::Utf16), "b");
    assert_eq!(s.text(), &chars("abc"));
}

#[test]
fn replace_swaps_in_the_whole_text() {
    let mut s = source("old text");
    s.replace("new text".to_string());
    assert_eq!(s.text(), &chars("new text"));
    assert_eq!(s.uri(), &"file:///doc.typ".to_string());
}

#[test]
fn position_translation_counts_units_exactly() {
    let text = chars("héllo");
    assert_eq!(index_of_position(&text, pos(0, 0), PositionEncoding::Utf16), 0);
    assert_eq!(index_of_position(&text, pos(0, 2), PositionEncoding::Utf16), 2);
    // In UTF-8 units the é occupies two, so offset 3 lands after it.
    assert_eq!(index_of_position(&text, pos(0, 3), PositionEncoding::Utf8), 2);
    // An offset inside a wide character stops at that character.
    let wide = chars("𐍈x");
    assert_eq!(index_of_position(&wide, pos(0, 1), PositionEncoding::Utf16), 0);
    assert_eq!(index_of_position(&wide, pos(0, 2), PositionEncoding::Utf16), 1);
}

#[test]
fn cached_source_states_carry_and_release_text() {
    let id = SourceId::from_u16(7);
    let u = "file:///doc.typ".to_string();

    let open = CachedSource::new_open(id, u.clone(), "abc".to_string());
    assert!(open.is_open());
    assert_eq!(open.uri_ref(), &u);
    assert_eq!(open.get_cached_source().unwrap().text(), &chars("abc"));

    let trusted = CachedSource::new_cached(id, u.clone(), Ok("abc".to_string())).unwrap();
    assert!(!trusted.is_open());
    assert_eq!(trusted.take_cached_source().unwrap().text(), &chars("abc"));

    let failed = CachedSource::new_cached(id, u.clone(), Err(FileError::NotFound));
    assert!(matches!(failed, Err(FileError::NotFound)));

    let mut stale = CachedSource::ClosedModified(u.clone());
    assert!(stale.get_cached_source().is_none());
    stale.cache(id, Ok("filled".to_string())).unwrap();
    assert_eq!(stale.get_cached_source().unwrap().text(), &chars("filled"));
    // A second fill never consults the outcome.
    stale.cache(id, Err(FileError::PermissionDenied)).unwrap();
    assert_eq!(stale.take_cached_source().unwrap().text(), &chars("filled"));
}

#[test]
fn duplicate_is_an_independent_equal_copy() {
    let s = source("text");
    let d = s.duplicate();
    assert_eq!(d.text(), s.text());
    assert_eq!(d.uri(), s.uri());
    assert_eq!(d.id(), s.id());
}
