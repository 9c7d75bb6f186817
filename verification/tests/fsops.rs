use notewatch::fsops::{create_file, is_markdown_file, make_file_item, sort_file_items, FileItem};

fn item(name: &str, is_directory: bool) -> FileItem {
    make_file_item(name.to_string(), format!("/base/{}", name), is_directory)
}

#[test]
fn test_is_markdown_file() {
    assert!(is_markdown_file("README.md"));
    assert!(is_markdown_file("notes.markdown"));
    assert!(is_markdown_file("doc.mdown"));
    assert!(is_markdown_file("FILE.MD")); // Case insensitive
    assert!(!is_markdown_file("notes.txt"));
    assert!(!is_markdown_file("image.png"));
}

#[test]
fn markdown_detection_folds_the_whole_of_unicode() {
    // U+212A KELVIN SIGN lowercases to 'k', so this name ends in ".markdown"
    assert!(is_markdown_file("notes.mar\u{212A}down"));
    // U+0130 LATIN CAPITAL LETTER I WITH DOT ABOVE lowercases to two
    // characters, not to a plain 'i': no markdown suffix appears
    assert!(!is_markdown_file("notes.\u{130}md"));
}

#[test]
fn markdown_extension_must_be_a_suffix() {
    assert!(!is_markdown_file("md"));
    assert!(!is_markdown_file(""));
    assert!(!is_markdown_file("archive.md.bak"));
    assert!(is_markdown_file(".md"));
    assert!(is_markdown_file("a.Markdown"));
}

#[test]
fn file_item_marks_markdown_files_only() {
    let item = make_file_item("a.md".to_string(), "/notes/a.md".to_string(), false);
    assert_eq!(item.name, "a.md");
    assert_eq!(item.path, "/notes/a.md");
    assert!(!item.is_directory);
    assert!(item.is_markdown);

    let dir = make_file_item("b.md".to_string(), "/notes/b.md".to_string(), true);
    assert!(dir.is_directory);
    assert!(!dir.is_markdown);

    let txt = make_file_item("c.txt".to_string(), "/notes/c.txt".to_string(), false);
    assert!(!txt.is_markdown);
}

#[test]
fn listing_sorts_directories_first_then_case_insensitive() {
    let items = vec![
        item("zeta.md", false),
        item("Alpha.md", false),
        item("notes", true),
        item("beta.txt", false),
        item("Archive", true),
    ];
    let sorted = sort_file_items(items);
    let names: Vec<&str> = sorted.iter().map(|i| i.name.as_str()).collect();
    assert_eq!(names, vec!["Archive", "notes", "Alpha.md", "beta.txt", "zeta.md"]);
}

#[test]
fn listing_order_ignores_case_beyond_ascii() {
    // folded, o-umlaut (U+00F6) sorts after a-umlaut (U+00E4); unfolded, the
    // capital O-umlaut (U+00D6) would wrongly come first
    let items = vec![item("\u{D6}a.md", false), item("\u{E4}x.md", false)];
    let sorted = sort_file_items(items);
    assert_eq!(sorted[0].name, "\u{E4}x.md");
    assert_eq!(sorted[1].name, "\u{D6}a.md");
}

#[test]
fn sorting_keeps_every_entry() {
    let items = vec![item("b.md", false), item("a.md", false), item("b.md", false)];
    let sorted = sort_file_items(items);
    assert_eq!(sorted.len(), 3);
    assert_eq!(sorted[0].name, "a.md");
    assert_eq!(sorted[1].name, "b.md");
    assert_eq!(sorted[2].name, "b.md");
}

#[test]
fn create_file_requests_an_empty_write() {
    let req = create_file("/notes/new.md");
    assert_eq!(req.path, "/notes/new.md");
    assert_eq!(req.content, "");
}
