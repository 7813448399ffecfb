use tsgo_wasm::diagnostic::{enrich, is_locatable, locate, position_at};
use tsgo_wasm::files::Files;
use tsgo_wasm::{Category, Diagnostic, Position, Range};

fn at(line: u32, column: u32) -> Position {
    Position { line, column }
}

fn diagnostic(file_name: Option<&str>, pos: i64, end: i64) -> Diagnostic {
    Diagnostic {
        file_name: file_name.map(|name| name.to_string()),
        pos,
        end,
        range: None,
        code: 2322,
        category: Category::default(),
        text: "text".to_string(),
        message_chain: Vec::new(),
        related_information: Vec::new(),
    }
}

#[test]
fn offsets_become_lines_and_columns() {
    let source = "ab\ncd\n";
    assert_eq!(position_at(source, 0), at(1, 1));
    assert_eq!(position_at(source, 1), at(1, 2));
    assert_eq!(position_at(source, 2), at(1, 3));
    assert_eq!(position_at(source, 3), at(2, 1));
    assert_eq!(position_at(source, 5), at(2, 3));
    assert_eq!(position_at(source, 6), at(3, 1));
}

#[test]
fn offsets_count_utf16_units() {
    let source = "\u{1F600}x\u{e4}y";
    assert_eq!(position_at(source, 2), at(1, 3));
    assert_eq!(position_at(source, 3), at(1, 4));
    assert_eq!(position_at(source, 4), at(1, 5));
}

#[test]
fn offset_inside_a_pair_is_behind_it() {
    assert_eq!(position_at("\u{1F600}x", 1), at(1, 3));
}

#[test]
fn offsets_outside_the_source_are_moved_in() {
    assert_eq!(position_at("ab", -5), at(1, 1));
    assert_eq!(position_at("ab", 99), at(1, 3));
    assert_eq!(position_at("", 7), at(1, 1));
    assert_eq!(locate("a\nb", i64::MAX), Some(at(2, 2)));
}

#[test]
fn later_offsets_are_not_earlier_places() {
    let source = "a\u{1F600}\n\nb\r\nc\u{e4}";
    let mut last = at(1, 1);
    for offset in -1..20 {
        let place = position_at(source, offset);
        assert!((place.line, place.column) >= (last.line, last.column));
        last = place;
    }
}

#[test]
fn diagnostics_are_located_and_their_names_made_local() {
    let mut files = Files::new();
    files.insert(
        "/app/main.ts".to_string(),
        "import { User } from './lib/user';\nconst u: User = { id: 'x' };\n".to_string(),
    );
    let mut found = diagnostic(Some("/app/main.ts"), 53, 55);
    found.message_chain.push(diagnostic(None, 0, 0));
    found.related_information.push(diagnostic(Some("/app/lib/user.ts"), 1, 2));
    found.related_information.push(diagnostic(Some("/lib/lib.d.ts"), 1, 2));
    let mut inner = diagnostic(Some("/app/x.ts"), 0, 0);
    inner.message_chain.push(diagnostic(Some("/app/main.ts"), 0, 6));
    found.message_chain.push(inner);

    assert!(is_locatable(&found, &files));
    enrich(&mut found, &files);

    assert_eq!(found.file_name.as_deref(), Some("main.ts"));
    assert_eq!(found.range, Some(Range { start: at(2, 19), end: at(2, 21) }));
    assert_eq!(found.message_chain[0].file_name, None);
    assert_eq!(found.message_chain[0].range, None);
    assert_eq!(found.related_information[0].file_name.as_deref(), Some("lib/user.ts"));
    assert_eq!(found.related_information[0].range, None);
    assert_eq!(found.related_information[1].file_name.as_deref(), Some("/lib/lib.d.ts"));
    let deep = &found.message_chain[1].message_chain[0];
    assert_eq!(deep.file_name.as_deref(), Some("main.ts"));
    assert_eq!(deep.range, Some(Range { start: at(1, 1), end: at(1, 7) }));
    assert_eq!(found.code, 2322);
    assert_eq!(found.text, "text");
}

#[test]
fn categories_have_numbers() {
    assert_eq!(Category::from_code(0), Category::Warning);
    assert_eq!(Category::from_code(1), Category::Error);
    assert_eq!(Category::from_code(2), Category::Suggestion);
    assert_eq!(Category::from_code(3), Category::Message);
    assert_eq!(Category::from_code(-1), Category::Message);
}

#[test]
fn only_errors_are_errors() {
    assert_eq!(Category::default(), Category::Error);
    assert!(Category::Error.is_error());
    for category in [Category::Warning, Category::Suggestion, Category::Message] {
        assert!(!category.is_error());
        let mut other = diagnostic(None, 0, 0);
        assert!(other.is_error());
        other.category = category;
        assert!(!other.is_error());
    }
}

#[test]
fn clones_keep_everything() {
    let mut found = diagnostic(Some("a.ts"), 1, 2);
    found.message_chain.push(diagnostic(None, 3, 4));
    found.related_information.push(diagnostic(Some("b.ts"), 5, 6));
    assert_eq!(format!("{:?}", found.clone()), format!("{found:?}"));
}
