use dirsummary::collect::collect_files;
use dirsummary::fsnode::FsNode;
use dirsummary::rules::RuleSet;
use dirsummary::tree::build_tree;

fn tvec(xs: &[&str]) -> Vec<String> {
    xs.iter().map(|s| s.to_string()).collect()
}

fn open_rules() -> RuleSet {
    RuleSet {
        allowed_extensions: Vec::new(),
        ignored_extensions: Vec::new(),
        ignored_directory_names: tvec(&["build", "node_modules"]),
        whitelisted_filenames: tvec(&["Dockerfile"]),
        ignored_filenames: Vec::new(),
        max_file_size_bytes: 1 << 20,
    }
}

fn file(name: &str, data: &[u8]) -> FsNode {
    FsNode::File { name: name.to_string(), data: data.to_vec() }
}

fn dir(name: &str, children: Vec<FsNode>) -> FsNode {
    FsNode::Dir { name: name.to_string(), children }
}

fn paths(root: &FsNode, rules: &RuleSet) -> Vec<String> {
    collect_files(root, rules).iter().map(|p| p.join("/")).collect()
}

#[test]
fn collect_is_sorted_and_order_independent() {
    let rules = open_rules();
    let one = dir(
        "r",
        vec![
            file("z.txt", b"z"),
            dir("a", vec![file("inner.txt", b"i")]),
            file("a.txt", b"a"),
        ],
    );
    let other = dir(
        "r",
        vec![
            file("a.txt", b"a"),
            file("z.txt", b"z"),
            dir("a", vec![file("inner.txt", b"i")]),
        ],
    );
    let p1 = paths(&one, &rules);
    let p2 = paths(&other, &rules);
    assert_eq!(p1, p2);
    assert_eq!(p1, vec!["a/inner.txt", "a.txt", "z.txt"]);
}

#[test]
fn collect_excludes_ignored_dir_even_with_whitelisted_file() {
    let rules = open_rules();
    let root = dir(
        "r",
        vec![
            dir("build", vec![file("Dockerfile", b"FROM x"), file("out.txt", b"o")]),
            file("keep.txt", b"k"),
        ],
    );
    assert_eq!(paths(&root, &rules), vec!["keep.txt"]);
}

#[test]
fn collect_of_root_with_ignored_name_is_empty() {
    let rules = open_rules();
    let root = dir("build", vec![file("keep.txt", b"k")]);
    assert!(paths(&root, &rules).is_empty());
}

#[test]
fn tree_connectors_and_ordering() {
    let rules = open_rules();
    let root = dir(
        "proj",
        vec![
            file("a.py", b"pa"),
            dir("src", vec![file("main.rs", b"m")]),
            file("Dockerfile", b"FROM x"),
        ],
    );
    let expected = "proj\n\
                    \u{251c}\u{2500}\u{2500} src\n\
                    \u{2502}   \u{2514}\u{2500}\u{2500} main.rs\n\
                    \u{251c}\u{2500}\u{2500} Dockerfile\n\
                    \u{2514}\u{2500}\u{2500} a.py";
    assert_eq!(build_tree(&root, &rules), expected);
}

#[test]
fn tree_prunes_ignored_dirs_whole() {
    let rules = open_rules();
    let root = dir(
        "proj",
        vec![
            dir("build", vec![file("Dockerfile", b"FROM x")]),
            file("a.txt", b"a"),
        ],
    );
    let tree = build_tree(&root, &rules);
    assert!(!tree.contains("build"));
    assert!(!tree.contains("Dockerfile"));
    assert_eq!(tree, "proj\n\u{2514}\u{2500}\u{2500} a.txt");
}

#[test]
fn tree_renders_dirs_before_files_per_level() {
    let rules = open_rules();
    let root = dir(
        "r",
        vec![
            file("aaa.txt", b"a"),
            dir("zzz", vec![file("f.txt", b"f")]),
        ],
    );
    let tree = build_tree(&root, &rules);
    let zzz_pos = tree.find("zzz").unwrap();
    let aaa_pos = tree.find("aaa.txt").unwrap();
    assert!(zzz_pos < aaa_pos);
}

#[test]
fn empty_directories_still_rendered() {
    let rules = open_rules();
    let root = dir("r", vec![dir("sub", vec![])]);
    assert_eq!(build_tree(&root, &rules), "r\n\u{2514}\u{2500}\u{2500} sub");
    assert!(paths(&root, &rules).is_empty());
}

#[test]
fn filter_applies_during_collection() {
    let rules = RuleSet {
        allowed_extensions: tvec(&[".py"]),
        ignored_extensions: tvec(&[".pyc"]),
        ignored_directory_names: Vec::new(),
        whitelisted_filenames: tvec(&["Dockerfile"]),
        ignored_filenames: tvec(&["skip.py"]),
        max_file_size_bytes: 1 << 20,
    };
    let root = dir(
        "r",
        vec![
            file("keep.py", b"k"),
            file("skip.py", b"s"),
            file("a.pyc", b"c"),
            file("other.txt", b"o"),
            file("Dockerfile", b"d"),
        ],
    );
    assert_eq!(paths(&root, &rules), vec!["Dockerfile", "keep.py"]);
}
