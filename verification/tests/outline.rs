use std::path::{Path, PathBuf};

use tree_create::line::{entry_name, is_directory_name, line_depth, root_name};
use tree_create::text::{chars_of, clone_strings, is_whitespace_char, split_lines};
use tree_create::{
    create_tree, entry_action, root_action, Action, Entry, EntryKind, Target, TreeError,
    TreePlan, TreeState,
};

fn place(entry: &Entry) -> PathBuf {
    let mut path = PathBuf::new();
    for name in entry.path() {
        path.push(name);
    }
    path
}

fn holds(plan: &TreePlan, place_of: &str, kind: EntryKind) -> bool {
    plan.entries
        .iter()
        .any(|e| e.kind == kind && place(e).as_path() == Path::new(place_of))
}

fn is_dir(plan: &TreePlan, place_of: &str) -> bool {
    holds(plan, place_of, EntryKind::Directory)
}

fn is_file(plan: &TreePlan, place_of: &str) -> bool {
    holds(plan, place_of, EntryKind::File)
}

fn names(list: &[&str]) -> Vec<String> {
    list.iter().map(|s| s.to_string()).collect()
}

#[test]
fn test_create_simple_structure() {
    let input = "
test_project/
    src/
        main.rs
    Cargo.toml
";
    let plan = create_tree(input).unwrap();

    assert!(is_dir(&plan, "test_project"));
    assert!(is_dir(&plan, "test_project/src"));
    assert!(is_file(&plan, "test_project/src/main.rs"));
    assert!(is_file(&plan, "test_project/Cargo.toml"));
    assert_eq!(plan.entries.len(), 4);
}

#[test]
fn test_create_nested_structure() {
    let input = "
nested_project/
    src/
        module1/
            mod.rs
        module2/
            submodule/
                mod.rs
    tests/
        integration_tests.rs
    Cargo.toml
";
    let plan = create_tree(input).unwrap();

    assert!(is_dir(&plan, "nested_project"));
    assert!(is_dir(&plan, "nested_project/src"));
    assert!(is_dir(&plan, "nested_project/src/module1"));
    assert!(is_file(&plan, "nested_project/src/module1/mod.rs"));
    assert!(is_dir(&plan, "nested_project/src/module2/submodule"));
    assert!(is_file(&plan, "nested_project/src/module2/submodule/mod.rs"));
    assert!(is_dir(&plan, "nested_project/tests"));
    assert!(is_file(&plan, "nested_project/tests/integration_tests.rs"));
    assert!(is_file(&plan, "nested_project/Cargo.toml"));
}

#[test]
fn test_create_existing_structure() {
    let existing = ["existing_project", "existing_project/src", "existing_project/src/main.rs"];
    let input = "
existing_project/
    src/
        main.rs
    Cargo.toml
";
    let plan = create_tree(input).unwrap();

    assert!(is_dir(&plan, "existing_project"));
    assert!(is_dir(&plan, "existing_project/src"));
    assert!(is_file(&plan, "existing_project/src/main.rs"));
    assert!(is_file(&plan, "existing_project/Cargo.toml"));

    let made: Vec<PathBuf> = plan
        .entries
        .iter()
        .filter(|e| {
            let at = place(e);
            let exists = existing.iter().any(|p| Path::new(p) == at.as_path());
            entry_action(e.kind, exists).create
        })
        .map(|e| place(e))
        .collect();
    assert_eq!(made, vec![PathBuf::from("existing_project/Cargo.toml")]);
}

#[test]
fn plan_lists_entries_in_line_order() {
    let plan = create_tree("test_project/\n    src/\n        main.rs\n    Cargo.toml\n").unwrap();
    assert_eq!(plan.root, "test_project");
    assert_eq!(plan.entries.len(), 3);

    assert_eq!(plan.entries[0].name, "src/");
    assert_eq!(plan.entries[0].depth, 1);
    assert_eq!(plan.entries[0].kind, EntryKind::Directory);
    assert_eq!(plan.entries[0].parent, names(&["test_project"]));

    assert_eq!(plan.entries[1].name, "main.rs");
    assert_eq!(plan.entries[1].depth, 2);
    assert_eq!(plan.entries[1].kind, EntryKind::File);
    assert_eq!(plan.entries[1].parent, names(&["test_project", "src/"]));

    assert_eq!(plan.entries[2].name, "Cargo.toml");
    assert_eq!(plan.entries[2].depth, 1);
    assert_eq!(plan.entries[2].kind, EntryKind::File);
    assert_eq!(plan.entries[2].parent, names(&["test_project"]));
}

#[test]
fn path_ends_in_the_entry() {
    let plan = create_tree("root/\n    a/\n        b.txt\n").unwrap();
    assert_eq!(plan.entries[0].path(), names(&["root", "a/"]));
    assert_eq!(plan.entries[1].path(), names(&["root", "a/", "b.txt"]));
}

#[test]
fn empty_outline_is_refused() {
    let result = create_tree("");
    assert!(matches!(result, Err(TreeError::InvalidInput)));
    assert_eq!(TreeError::InvalidInput.message(), "Input is empty");
}

#[test]
fn single_line_gives_root_only() {
    let plan = create_tree("root/").unwrap();
    assert_eq!(plan.root, "root");
    assert!(plan.entries.is_empty());

    let plan = create_tree("root").unwrap();
    assert_eq!(plan.root, "root");
    assert!(plan.entries.is_empty());
}

#[test]
fn blank_first_line_names_the_root() {
    let plan = create_tree("\nroot/\n").unwrap();
    assert_eq!(plan.root, "");
    assert_eq!(plan.entries.len(), 1);
    assert_eq!(plan.entries[0].name, "root/");
    assert_eq!(plan.entries[0].parent, names(&[""]));
    assert_eq!(plan.entries[0].kind, EntryKind::Directory);
}

#[test]
fn shallower_line_closes_one_directory_per_level() {
    let plan = create_tree("root/\n    a/\n        b/\n    c.txt\n").unwrap();
    assert_eq!(plan.root, "root");
    assert!(is_dir(&plan, "root/a"));
    assert!(is_dir(&plan, "root/a/b"));
    assert_eq!(plan.entries[1].parent, names(&["root", "a/"]));
    // One level up from `b/` closes one directory, `b/` itself.
    assert_eq!(plan.entries[2].name, "c.txt");
    assert_eq!(plan.entries[2].kind, EntryKind::File);
    assert_eq!(plan.entries[2].depth, 1);
    assert_eq!(plan.entries[2].parent, names(&["root", "a/"]));
}

#[test]
fn file_between_levels_brings_the_next_line_back() {
    let plan = create_tree("root/\n    a/\n        b.txt\n    c.txt\n").unwrap();
    assert!(is_file(&plan, "root/a/b.txt"));
    assert!(is_file(&plan, "root/c.txt"));
}

#[test]
fn trailing_slash_decides_the_kind() {
    let plan = create_tree("root/\n    notes.txt/\n    src\n    a.b.c\n").unwrap();
    assert_eq!(plan.entries[0].kind, EntryKind::Directory);
    assert_eq!(plan.entries[1].kind, EntryKind::File);
    assert_eq!(plan.entries[2].kind, EntryKind::File);
    assert!(is_directory_name("src/"));
    assert!(is_directory_name("/"));
    assert!(!is_directory_name("src"));
    assert!(!is_directory_name(""));
    assert!(!is_directory_name("a/b"));
}

#[test]
fn depth_jump_attaches_to_open_directory() {
    let plan = create_tree("root/\n            deep.txt\n").unwrap();
    assert_eq!(plan.entries.len(), 1);
    assert_eq!(plan.entries[0].depth, 3);
    assert_eq!(plan.entries[0].parent, names(&["root"]));
    assert_eq!(plan.entries[0].kind, EntryKind::File);

    let plan = create_tree("root/\n            deep/\n                x\n").unwrap();
    assert_eq!(plan.entries[0].depth, 3);
    assert_eq!(plan.entries[0].parent, names(&["root"]));
    assert_eq!(plan.entries[1].depth, 4);
    assert_eq!(plan.entries[1].parent, names(&["root", "deep/"]));
}

#[test]
fn emptied_stack_attaches_to_base() {
    let plan = create_tree("root/\n            deep.txt\nnext/\n    in.txt\n").unwrap();
    assert_eq!(plan.entries[1].name, "next/");
    assert_eq!(plan.entries[1].depth, 0);
    assert_eq!(plan.entries[1].parent, names(&[]));
    assert_eq!(plan.entries[2].parent, names(&["next/"]));
}

#[test]
fn depth_counts_four_units_to_a_level() {
    assert_eq!(line_depth(""), 0);
    assert_eq!(line_depth("name"), 0);
    assert_eq!(line_depth("   name"), 0);
    assert_eq!(line_depth("    name"), 1);
    assert_eq!(line_depth("       name"), 1);
    assert_eq!(line_depth("        name"), 2);
    assert_eq!(line_depth("        "), 2);
    assert_eq!(line_depth("\tname"), 0);
}

#[test]
fn connectors_count_as_one_unit_each() {
    assert_eq!(line_depth("├── src/"), 0);
    assert_eq!(line_depth("│   ├── main.rs"), 1);
    assert_eq!(line_depth("│   │   └── mod.rs"), 2);
    assert_eq!(line_depth("└───name"), 0);
    assert_eq!(line_depth("│└├ name"), 1);
    assert_eq!(line_depth("────name"), 0);
}

#[test]
fn name_drops_padding_and_connectors() {
    assert_eq!(entry_name("    src/"), "src/");
    assert_eq!(entry_name("│   ├── main.rs"), "main.rs");
    assert_eq!(entry_name("\t \u{a0}\u{3000}name with space "), "name with space ");
    assert_eq!(entry_name("└── "), "");
    assert_eq!(entry_name(""), "");
    assert_eq!(entry_name("a ├── b"), "a ├── b");
}

#[test]
fn connector_outline_gives_the_same_plan() {
    let plan = create_tree("proj/\n├── src/\n│   ├── main.rs\n└── Cargo.toml\n").unwrap();
    assert_eq!(plan.root, "proj");
    assert_eq!(plan.entries[0].name, "src/");
    assert_eq!(plan.entries[0].depth, 0);
    assert_eq!(plan.entries[1].name, "main.rs");
    assert_eq!(plan.entries[1].depth, 1);
    assert_eq!(plan.entries[1].parent, names(&["proj", "src/"]));
    assert_eq!(plan.entries[2].name, "Cargo.toml");
    assert_eq!(plan.entries[2].depth, 0);
    assert_eq!(plan.entries[2].parent, names(&["proj"]));
}

#[test]
fn root_name_loses_every_trailing_slash() {
    assert_eq!(root_name("root/"), "root");
    assert_eq!(root_name("root///"), "root");
    assert_eq!(root_name("root"), "root");
    assert_eq!(root_name("a/b/"), "a/b");
    assert_eq!(root_name("/"), "");
    assert_eq!(root_name(""), "");
    assert_eq!(root_name("  root/ "), "  root/ ");
}

#[test]
fn lines_end_at_line_feeds() {
    assert_eq!(split_lines(""), names(&[]));
    assert_eq!(split_lines("\n"), names(&[""]));
    assert_eq!(split_lines("a"), names(&["a"]));
    assert_eq!(split_lines("a\n"), names(&["a"]));
    assert_eq!(split_lines("a\nb"), names(&["a", "b"]));
    assert_eq!(split_lines("a\n\nb\n"), names(&["a", "", "b"]));
    assert_eq!(split_lines("a\r\nb\r\n"), names(&["a", "b"]));
    assert_eq!(split_lines("a\r\r\nb\r"), names(&["a\r", "b\r"]));
    assert_eq!(split_lines("│ é\nz"), names(&["│ é", "z"]));
}

#[test]
fn lines_agree_with_std() {
    let samples = ["", "\n", "\n\n", "a", "a\nb", "a\r\nb\r", "\r\n", "\r", "x\n\r\ny\n", "é\n│"];
    for s in samples {
        let expected: Vec<String> = s.lines().map(|l| l.to_string()).collect();
        assert_eq!(split_lines(s), expected);
    }
}

#[test]
fn white_space_agrees_with_std() {
    for n in 0u32..=0x10FFFF {
        if let Some(c) = char::from_u32(n) {
            assert_eq!(is_whitespace_char(c), c.is_whitespace(), "U+{:04X}", n);
        }
    }
}

#[test]
fn chars_and_copies_keep_their_items() {
    assert_eq!(chars_of("a│é"), vec!['a', '│', 'é']);
    assert_eq!(chars_of(""), Vec::<char>::new());
    let list = names(&["x", "", "y/"]);
    assert_eq!(clone_strings(&list), list);
}

#[test]
fn state_steps_one_line_at_a_time() {
    let mut state = TreeState::new("root".to_string());
    assert_eq!(state.stack, names(&["root"]));
    assert_eq!(state.depth, 0);

    let entry = state.step("    a/");
    assert_eq!(entry.parent, names(&["root"]));
    assert_eq!(state.stack, names(&["root", "a/"]));
    assert_eq!(state.depth, 1);

    let entry = state.step("                f");
    assert_eq!(entry.depth, 4);
    assert_eq!(entry.parent, names(&["root", "a/"]));
    assert_eq!(state.stack, names(&["root", "a/"]));
    assert_eq!(state.depth, 4);

    let entry = state.step("            g/");
    assert_eq!(entry.depth, 3);
    assert_eq!(entry.parent, names(&["root"]));
    assert_eq!(state.stack, names(&["root", "g/"]));
    assert_eq!(state.depth, 3);

    let entry = state.step("h");
    assert_eq!(entry.parent, names(&[]));
    assert_eq!(state.stack, names(&[]));
    assert_eq!(state.depth, 0);
}

#[test]
fn existing_places_are_left_alone() {
    assert_eq!(root_action(false), Action { target: Target::Root, create: true });
    assert_eq!(root_action(true), Action { target: Target::Root, create: false });
    assert_eq!(
        entry_action(EntryKind::Directory, false),
        Action { target: Target::Directory, create: true }
    );
    assert_eq!(
        entry_action(EntryKind::Directory, true),
        Action { target: Target::Directory, create: false }
    );
    assert_eq!(
        entry_action(EntryKind::File, false),
        Action { target: Target::File, create: true }
    );
    assert_eq!(
        entry_action(EntryKind::File, true),
        Action { target: Target::File, create: false }
    );
}

#[test]
fn actions_report_in_words() {
    assert_eq!(root_action(false).report(), "Created root directory");
    assert_eq!(root_action(true).report(), "Root directory already exists");
    assert_eq!(entry_action(EntryKind::Directory, false).report(), "Created directory");
    assert_eq!(entry_action(EntryKind::Directory, true).report(), "Directory already exists");
    assert_eq!(entry_action(EntryKind::File, false).report(), "Created file");
    assert_eq!(entry_action(EntryKind::File, true).report(), "File already exists");
}

#[test]
fn second_run_creates_nothing() {
    let input = "root/\n    a/\n        b.txt\n    c.txt\n";
    let first = create_tree(input).unwrap();
    let mut existing: Vec<PathBuf> = Vec::new();
    let root = PathBuf::from(&first.root);
    assert!(root_action(existing.contains(&root)).create);
    existing.push(root);
    for e in &first.entries {
        let at = place(e);
        if entry_action(e.kind, existing.contains(&at)).create {
            existing.push(at);
        }
    }
    let after_first = existing.clone();

    let second = create_tree(input).unwrap();
    assert!(!root_action(existing.contains(&PathBuf::from(&second.root))).create);
    for e in &second.entries {
        let at = place(e);
        assert!(!entry_action(e.kind, existing.contains(&at)).create);
    }
    assert_eq!(existing, after_first);
    assert_eq!(after_first.len(), 4);
}
