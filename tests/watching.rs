use choad::watch::{first_trigger, path_triggers, ChangedPath, Coordinator, Phase, Reaction};

fn changed(name: &str, is_file: bool) -> ChangedPath {
    ChangedPath { name: name.to_string(), is_file }
}

#[test]
fn non_markup_batch_is_discarded() {
    let mut c = Coordinator::new();
    assert!(c.is_idle());
    let r = c.on_batch(&vec![changed("image.png", true)]);
    assert_eq!(r, Reaction::Discard);
    assert_eq!(c.phase, Phase::Idle);
}

#[test]
fn markup_batch_rebuilds_once() {
    let mut c = Coordinator::new();
    let batch = vec![
        changed("a.txt", true),
        changed("b.md", true),
        changed("c.md", true),
    ];
    let r = c.on_batch(&batch);
    assert_eq!(r, Reaction::Rebuild { trigger: 1 });
    assert_eq!(c.phase, Phase::Rebuilding);
    assert!(!c.is_idle());
    c.finish_rebuild();
    assert!(c.is_idle());
}

#[test]
fn removed_or_directory_paths_do_not_trigger() {
    assert!(!path_triggers(&changed("gone.md", false)));
    assert!(!path_triggers(&changed(".md", true)));
    assert!(path_triggers(&changed("x.md", true)));
    assert_eq!(first_trigger(&vec![changed("d.md", false), changed("e", true)]), None);
    assert_eq!(first_trigger(&Vec::new()), None);
}
