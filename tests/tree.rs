use choad::naming::{is_markup_file_name, page_file_name};
use choad::page::render_page;
use choad::walker::{plan_directory, step_for, Entry, EntryKind, Step};

fn entry(name: &str, kind: EntryKind) -> Entry {
    Entry { name: name.to_string(), exact_name: true, kind }
}

fn page_of(step: &Step) -> Option<(usize, String)> {
    match step {
        Step::Render { index, page } => Some((*index, page.clone())),
        _ => None,
    }
}

#[test]
fn recognized_names() {
    assert!(is_markup_file_name("test.md"));
    assert!(is_markup_file_name("x.tar.md"));
    assert!(is_markup_file_name("..md"));
    assert!(!is_markup_file_name(".md"));
    assert!(!is_markup_file_name("md"));
    assert!(!is_markup_file_name("test.txt"));
    assert!(!is_markup_file_name("test.MD"));
    assert!(!is_markup_file_name("README"));
    assert!(!is_markup_file_name(""));
}

#[test]
fn page_names() {
    assert_eq!(page_file_name("test.md"), "test.html");
    assert_eq!(page_file_name("x.tar.md"), "x.tar.html");
    assert_eq!(page_file_name("..md"), "..html");
}

#[test]
fn tree_mirroring_plan() {
    let root = vec![
        entry("test.md", EntryKind::File),
        entry("test.txt", EntryKind::File),
        entry("nested", EntryKind::Dir),
    ];
    let steps = plan_directory(&root);
    assert_eq!(steps.len(), 3);
    assert_eq!(page_of(&steps[0]), Some((0, "test.html".to_string())));
    assert!(matches!(steps[1], Step::Copy { index: 1 }));
    assert!(matches!(steps[2], Step::Descend { index: 2 }));

    let nested = vec![entry("nested.md", EntryKind::File)];
    let steps = plan_directory(&nested);
    assert_eq!(page_of(&steps[0]), Some((0, "nested.html".to_string())));

    let page = render_page("# Nested\n\nThis is a [link](../test.md).\n");
    assert!(page.contains("<a href=\"../test.html\">link</a>"));
    let page = render_page("# Test\n\nThis is a [link](other.md).\n");
    assert!(page.contains("<a href=\"other.html\">link</a>"));
}

#[test]
fn files_without_extension_are_copied() {
    assert!(matches!(step_for(&entry("Makefile", EntryKind::File), 4), Step::Copy { index: 4 }));
    assert!(matches!(step_for(&entry(".md", EntryKind::File), 0), Step::Copy { index: 0 }));
}

#[test]
fn unrepresentable_names_are_skipped() {
    let bad_page = Entry { name: "\u{FFFD}.md".to_string(), exact_name: false, kind: EntryKind::File };
    assert!(matches!(step_for(&bad_page, 0), Step::Skip { index: 0 }));
    let bad_copy = Entry { name: "\u{FFFD}.txt".to_string(), exact_name: false, kind: EntryKind::File };
    assert!(matches!(step_for(&bad_copy, 1), Step::Copy { index: 1 }));
    let bad_dir = Entry { name: "\u{FFFD}".to_string(), exact_name: false, kind: EntryKind::Dir };
    assert!(matches!(step_for(&bad_dir, 2), Step::Skip { index: 2 }));
}

#[test]
fn other_entries_are_ignored() {
    assert!(matches!(step_for(&entry("sock", EntryKind::Other), 3), Step::Ignore { index: 3 }));
    assert!(plan_directory(&Vec::new()).is_empty());
}

#[test]
fn plan_follows_listing_order() {
    let a = vec![
        entry("a.md", EntryKind::File),
        entry("b.png", EntryKind::File),
        entry("sub", EntryKind::Dir),
    ];
    let b = vec![a[2].clone(), a[0].clone(), a[1].clone()];
    let pa = plan_directory(&a);
    let pb = plan_directory(&b);
    assert!(matches!(pb[0], Step::Descend { index: 0 }));
    assert!(matches!(pa[2], Step::Descend { index: 2 }));
    assert_eq!(page_of(&pb[1]), page_of(&pa[0]).map(|(_, p)| (1, p)));
    assert!(matches!(pb[2], Step::Copy { index: 2 }));
}

#[test]
fn planning_twice_gives_the_same_steps() {
    let a = vec![entry("a.md", EntryKind::File), entry("z", EntryKind::File)];
    let first = plan_directory(&a);
    let second = plan_directory(&a);
    assert_eq!(page_of(&first[0]), page_of(&second[0]));
    assert!(matches!(second[1], Step::Copy { index: 1 }));
}
