use file_search::args::Argument;
use file_search::args::check_search_param;
use file_search::args::resolve_target;
use file_search::matching::do_search_item;
use file_search::tree::Entry;
use file_search::tree::TreeNode;
use file_search::tree::search;
use file_search::tree::search_files;
use file_search::tree::walk;

fn file(path: &str, name: &str) -> TreeNode {
    TreeNode { path: path.to_string(), name: name.to_string(), is_dir: false, children: vec![] }
}

fn dir(path: &str, name: &str, children: Vec<TreeNode>) -> TreeNode {
    TreeNode { path: path.to_string(), name: name.to_string(), is_dir: true, children }
}

fn args(name: &str) -> Argument {
    Argument {
        name: name.to_string(),
        target: String::new(),
        search_hidden: false,
        file_only: false,
        strict_mode: false,
        case_miss: false,
        suffix: String::new(),
    }
}

/// The tree `root/{a.txt, .hidden/b.txt, sub/c.TXT}`.
fn sample_tree() -> TreeNode {
    dir(
        "root",
        "root",
        vec![
            file("root/a.txt", "a.txt"),
            dir("root/.hidden", ".hidden", vec![file("root/.hidden/b.txt", "b.txt")]),
            dir("root/sub", "sub", vec![file("root/sub/c.TXT", "c.TXT")]),
        ],
    )
}

#[test]
fn pruning_hides_hidden_subtrees() {
    let tree = sample_tree();
    let mut q = args("b.txt");
    q.search_hidden = false;
    assert_eq!(search(&tree, &q), Vec::<String>::new());
    q.search_hidden = true;
    assert_eq!(search(&tree, &q), vec!["root/.hidden/b.txt".to_string()]);
}

#[test]
fn unpruned_walk_is_complete() {
    let tree = sample_tree();
    let paths: Vec<String> = walk(&tree, false).into_iter().map(|e| e.path).collect();
    assert_eq!(
        paths,
        vec![
            "root".to_string(),
            "root/a.txt".to_string(),
            "root/.hidden".to_string(),
            "root/.hidden/b.txt".to_string(),
            "root/sub".to_string(),
            "root/sub/c.TXT".to_string(),
        ]
    );
}

#[test]
fn walk_root_is_yielded_even_when_hidden() {
    let tree = dir(".", ".", vec![file("./a.txt", "a.txt")]);
    let paths: Vec<String> = walk(&tree, true).into_iter().map(|e| e.path).collect();
    assert_eq!(paths, vec![".".to_string(), "./a.txt".to_string()]);
}

#[test]
fn file_only_excludes_directories() {
    let tree = dir(
        "root",
        "root",
        vec![dir("root/match", "match", vec![]), file("root/match.txt", "match.txt")],
    );
    let mut q = args("match");
    q.file_only = true;
    assert_eq!(search(&tree, &q), vec!["root/match.txt".to_string()]);
    q.file_only = false;
    assert_eq!(
        search(&tree, &q),
        vec!["root/match".to_string(), "root/match.txt".to_string()]
    );
}

#[test]
fn strict_and_substring_modes() {
    let foo = Entry { path: "foo".to_string(), name: "foo".to_string(), is_dir: false };
    let foobar = Entry { path: "foobar".to_string(), name: "foobar".to_string(), is_dir: false };
    let cap = Entry { path: "Foo".to_string(), name: "Foo".to_string(), is_dir: false };

    let substring = args("foo");
    let mut strict = args("foo");
    strict.strict_mode = true;

    assert!(do_search_item(&foo, &substring));
    assert!(do_search_item(&foo, &strict));
    assert!(do_search_item(&foobar, &substring));
    assert!(!do_search_item(&foobar, &strict));

    assert!(!do_search_item(&cap, &strict));
    let mut strict_fold = args("foo");
    strict_fold.strict_mode = true;
    strict_fold.case_miss = true;
    assert!(do_search_item(&cap, &strict_fold));
}

#[test]
fn case_folding_in_substring_mode() {
    let entry = Entry { path: "FOObar".to_string(), name: "FOObar".to_string(), is_dir: false };
    let plain = args("foo");
    assert!(!do_search_item(&entry, &plain));
    let mut folded = args("foo");
    folded.case_miss = true;
    assert!(do_search_item(&entry, &folded));
}

#[test]
fn suffix_set_semantics() {
    let mut q = args("");
    q.suffix = "txt, md".to_string();
    let report = Entry { path: "report.txt".to_string(), name: "report.txt".to_string(), is_dir: false };
    let notes = Entry { path: "notes.md".to_string(), name: "notes.md".to_string(), is_dir: false };
    let image = Entry { path: "image.png".to_string(), name: "image.png".to_string(), is_dir: false };
    assert!(do_search_item(&report, &q));
    assert!(do_search_item(&notes, &q));
    assert!(!do_search_item(&image, &q));
}

#[test]
fn empty_suffix_never_excludes() {
    let q = args("name");
    let with_ext = Entry { path: "name.png".to_string(), name: "name.png".to_string(), is_dir: false };
    let without_ext = Entry { path: "name".to_string(), name: "name".to_string(), is_dir: false };
    assert!(do_search_item(&with_ext, &q));
    assert!(do_search_item(&without_ext, &q));
}

#[test]
fn dotless_name_fails_a_requested_suffix_filter() {
    let mut q = args("");
    q.suffix = "txt".to_string();
    let dotless = Entry { path: "txt".to_string(), name: "txt".to_string(), is_dir: false };
    assert!(!do_search_item(&dotless, &q));
}

#[test]
fn suffix_matching_folds_case_and_trims_tokens() {
    let mut q = args("");
    q.suffix = "  TXT ,md".to_string();
    let upper = Entry { path: "c.TXT".to_string(), name: "c.TXT".to_string(), is_dir: false };
    let lower = Entry { path: "a.txt".to_string(), name: "a.txt".to_string(), is_dir: false };
    assert!(do_search_item(&upper, &q));
    assert!(do_search_item(&lower, &q));
}

#[test]
fn empty_target_defaults_to_current_directory() {
    assert_eq!(resolve_target(""), ".");
    assert_eq!(resolve_target("."), ".");
    assert_eq!(resolve_target("root"), "root");
}

#[test]
fn same_query_twice_yields_same_paths() {
    let tree = sample_tree();
    let mut q = args("");
    q.suffix = "txt".to_string();
    let first = search(&tree, &q);
    let second = search(&tree, &q);
    assert_eq!(first, second);
}

#[test]
fn scenario_suffix_query_with_pruning() {
    let tree = sample_tree();
    let mut q = args("");
    q.suffix = "txt".to_string();
    q.search_hidden = false;
    q.strict_mode = false;
    assert_eq!(
        search(&tree, &q),
        vec!["root/a.txt".to_string(), "root/sub/c.TXT".to_string()]
    );
}

#[test]
fn empty_name_matches_everything() {
    let tree = sample_tree();
    let q = args("");
    assert_eq!(
        search(&tree, &q),
        vec![
            "root".to_string(),
            "root/a.txt".to_string(),
            "root/sub".to_string(),
            "root/sub/c.TXT".to_string(),
        ]
    );
}

#[test]
fn search_files_prunes_and_contains() {
    let tree = sample_tree();
    assert_eq!(
        search_files(&tree, "txt"),
        vec!["root/a.txt".to_string()]
    );
    assert_eq!(
        search_files(&tree, ""),
        vec![
            "root".to_string(),
            "root/a.txt".to_string(),
            "root/sub".to_string(),
            "root/sub/c.TXT".to_string(),
        ]
    );
}

#[test]
fn check_search_param_rejects_empty_name() {
    let bad = check_search_param("");
    assert_eq!(bad.status, 1);
    assert_eq!(bad.message, "搜索关键字不能为空");
    let good = check_search_param("foo");
    assert_eq!(good.status, 2);
    assert_eq!(good.message, "");
}
