//! Priorities and their slugs.
use tt_cli::priority::{
    add_priority, change_priority, priority_index, render_ls, resolve_slug, slug_from_lowercase,
    slug_from_title, status_label, validate_explicit_slug, AddOptions, Diagnostic, FileLine,
    Priority, PriorityChange, PriorityItem, PriorityStatus,
};

fn line(item: PriorityItem, line_ending: &str) -> FileLine {
    FileLine { item, line_ending: line_ending.to_string() }
}

fn priority(title: &str, slug: &str, value: i32, status: PriorityStatus) -> FileLine {
    let item = PriorityItem::Priority(Priority {
        title: title.to_string(),
        slug: slug.to_string(),
        value,
        status,
    });
    line(item, "\r\n")
}

fn other() -> FileLine {
    line(PriorityItem::Other("# What matters".to_string()), "\n")
}

fn store() -> Vec<FileLine> {
    vec![
        other(),
        priority("IPI launch", "ipi", 9, PriorityStatus::Active),
        priority("Admin", "admin", 1, PriorityStatus::Done),
    ]
}

#[test]
fn priority_ls_snapshots() {
    assert_eq!(
        render_ls(&store(), &Vec::new()),
        "PRIORITIES
- IPI launch [ipi] value=9 status=active
- Admin [admin] value=1 status=done
"
    );
}

#[test]
fn an_empty_listing_says_so_and_faults_of_the_file_follow() {
    assert_eq!(
        render_ls(&vec![other()], &Vec::new()),
        "PRIORITIES\nNo priorities yet.\n"
    );
    let fault = |in_priorities: bool, line_number: usize| Diagnostic {
        in_priorities,
        file: "priorities.md".to_string(),
        line_number,
        reason: "no metadata".to_string(),
    };
    assert_eq!(
        render_ls(&Vec::new(), &vec![fault(false, 1), fault(true, 12)]),
        "PRIORITIES
No priorities yet.

DIAGNOSTICS
- priorities.md line 12: no metadata
"
    );
    assert_eq!(
        render_ls(&Vec::new(), &vec![fault(false, 1)]),
        "PRIORITIES\nNo priorities yet.\n"
    );
}

#[test]
fn statuses_have_labels() {
    assert_eq!(status_label(PriorityStatus::Active), "active");
    assert_eq!(status_label(PriorityStatus::Done), "done");
    assert_eq!(status_label(PriorityStatus::Dropped), "dropped");
}

#[test]
fn slugs_are_made_of_titles() {
    assert_eq!(slug_from_title("IPI launch").unwrap(), "ipi-launch");
    assert_eq!(slug_from_title("  --Fix #42: the *thing*!  ").unwrap(), "fix-42-the-thing");
    assert_eq!(
        slug_from_title("ABCDEFGHIJKLMNOPQRSTUVWXYZ @[`{").unwrap(),
        "abcdefghijklmnopqrstuvwxyz"
    );
    // The Kelvin sign is a letter whose lower case is the ASCII `k`.
    assert_eq!(slug_from_title("\u{212A}\u{212A}").unwrap(), "kk");
    assert_eq!(slug_from_title("É-é").unwrap_err(), "priority title must contain at least one ASCII letter or digit");
    assert_eq!(slug_from_title("").unwrap_err(), "priority title must contain at least one ASCII letter or digit");
    assert_eq!(slug_from_lowercase(&"a  b".chars().collect()), Some("a-b".to_string()));
    assert_eq!(slug_from_lowercase(&" - ".chars().collect()), None);
}

#[test]
fn made_slugs_are_accepted_as_slugs() {
    for title in ["IPI launch", "  --Fix #42: the *thing*!  ", "x", "\u{130}B \u{212A}"] {
        let slug = slug_from_title(title).unwrap();
        assert_eq!(slug_from_title(&slug), Ok(slug.clone()));
        assert_eq!(validate_explicit_slug(&slug), Ok(slug));
    }
}

#[test]
fn given_slugs_are_checked() {
    assert_eq!(validate_explicit_slug("a-1").unwrap(), "a-1");
    assert_eq!(validate_explicit_slug("").unwrap_err(), "priority slug must not be empty");
    for slug in ["Ab", "a b", "é", "a_b"] {
        assert_eq!(
            validate_explicit_slug(slug).unwrap_err(),
            "priority slug must contain only lowercase ASCII letters, digits, or '-'"
        );
    }
    assert_eq!(resolve_slug("A title", Some("other")).unwrap(), "other");
    assert_eq!(resolve_slug("A title", None).unwrap(), "a-title");
}

fn options(title: &str, slug: Option<&str>, value: i32) -> AddOptions {
    AddOptions { title: title.to_string(), slug: slug.map(str::to_string), value }
}

#[test]
fn an_added_priority_is_found_and_not_added_twice() {
    let mut items = store();
    assert_eq!(add_priority(&mut items, options("New work", None, 5)).unwrap(), "new-work");
    assert_eq!(priority_index(&items, "new-work"), Some(3));
    assert_eq!(
        add_priority(&mut items, options("Other", Some("new-work"), 5)).unwrap_err(),
        "priority 'new-work' already exists"
    );
    assert_eq!(items.len(), 4);
    assert_eq!(priority_index(&items, "admin"), Some(2));
    assert_eq!(items[3].line_ending, "\n");
    match &items[3].item {
        PriorityItem::Priority(p) => {
            assert_eq!((p.title.as_str(), p.value), ("New work", 5));
            assert_eq!(p.status, PriorityStatus::Active);
        }
        PriorityItem::Other(_) => panic!("no priority"),
    }
    assert!(add_priority(&mut items, options("!", None, 5)).is_err());
}

#[test]
fn a_priority_is_changed_by_its_slug() {
    let mut items = store();
    assert_eq!(priority_index(&items, "ipi"), Some(1));
    assert_eq!(priority_index(&items, "none"), None);
    change_priority(&mut items, "ipi", PriorityChange::Value(-3)).unwrap();
    change_priority(&mut items, "ipi", PriorityChange::Done).unwrap();
    assert_eq!(
        render_ls(&items, &Vec::new()),
        "PRIORITIES
- IPI launch [ipi] value=-3 status=done
- Admin [admin] value=1 status=done
"
    );
    assert_eq!(priority_index(&items, "ipi"), Some(1));
    assert_eq!(priority_index(&items, "admin"), Some(2));
    assert_eq!(items[1].line_ending, "\r\n");
    match &items[0].item {
        PriorityItem::Other(text) => assert_eq!(text, "# What matters"),
        PriorityItem::Priority(_) => panic!("a priority"),
    }
    assert_eq!(
        change_priority(&mut items, "none", PriorityChange::Done).unwrap_err(),
        "priority 'none' not found"
    );
}

#[test]
fn lower_case_has_no_capitals_of_ascii() {
    for c in '\0'..=char::MAX {
        assert!(!c.to_lowercase().any(|lower| lower.is_ascii_uppercase()), "{c:?}");
        if c.is_ascii() {
            assert!(c.to_lowercase().eq([c.to_ascii_lowercase()]), "{c:?}");
        }
    }
}
