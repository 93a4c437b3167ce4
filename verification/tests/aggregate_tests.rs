use dirsummary::aggregate::aggregate;
use dirsummary::fsnode::FsNode;
use dirsummary::rules::{default_rules, RuleSet};

fn afile(name: &str, data: &[u8]) -> FsNode {
    FsNode::File { name: name.to_string(), data: data.to_vec() }
}

fn adir(name: &str, children: Vec<FsNode>) -> FsNode {
    FsNode::Dir { name: name.to_string(), children }
}

fn bare_rules() -> RuleSet {
    RuleSet {
        allowed_extensions: Vec::new(),
        ignored_extensions: Vec::new(),
        ignored_directory_names: Vec::new(),
        whitelisted_filenames: Vec::new(),
        ignored_filenames: Vec::new(),
        max_file_size_bytes: 1 << 20,
    }
}

#[test]
fn document_exact_for_one_file() {
    let roots = vec![adir("r", vec![afile("f.txt", b"hi")])];
    let doc = aggregate(&roots, &bare_rules());
    let dash = "-".repeat(80);
    let expected = format!(
        "\u{ff1c}Directory Structure\u{ff1e}\n\n\
         === Tree for r ===\n\
         r\n\
         \u{2514}\u{2500}\u{2500} f.txt\n\n\
         \u{ff1c}File Contents\u{ff1e}\n\n\
         {dash}\n\
         f.txt (in r):\n\
         {dash}\n\
         hi"
    );
    assert_eq!(doc, expected);
}

#[test]
fn nested_file_headers_use_relative_paths() {
    let roots = vec![adir("r", vec![adir("sub", vec![afile("f.txt", b"x")])])];
    let doc = aggregate(&roots, &bare_rules());
    assert!(doc.contains("sub/f.txt (in r):"));
}

#[test]
fn end_to_end_with_default_rules() {
    let mut png = vec![0u8; 500];
    png[0] = 0x89;
    let roots = vec![adir(
        "proj",
        vec![
            afile("a.py", b"print(42)\n"),
            afile("img.png", &png),
            adir("build", vec![afile("out.txt", b"built")]),
            afile("Dockerfile", b"FROM scratch\n"),
        ],
    )];
    let doc = aggregate(&roots, &default_rules());
    let structure = &doc[..doc.find("\u{ff1c}File Contents\u{ff1e}").unwrap()];
    let contents = &doc[doc.find("\u{ff1c}File Contents\u{ff1e}").unwrap()..];
    assert!(structure.contains("a.py"));
    assert!(structure.contains("Dockerfile"));
    assert!(!structure.contains("build"));
    assert!(!structure.contains("img.png"));
    assert!(contents.contains("a.py (in proj):"));
    assert!(contents.contains("print(42)"));
    assert!(contents.contains("Dockerfile (in proj):"));
    assert!(contents.contains("FROM scratch"));
    assert!(!contents.contains("img.png"));
    assert!(!contents.contains("out.txt"));
    assert!(!contents.contains("built"));
}

#[test]
fn two_roots_keep_input_order_and_labels() {
    let roots = vec![
        adir("A", vec![afile("a.txt", b"aaa")]),
        adir("B", vec![afile("b.txt", b"bbb")]),
    ];
    let doc = aggregate(&roots, &bare_rules());
    let tree_a = doc.find("=== Tree for A ===").unwrap();
    let tree_b = doc.find("=== Tree for B ===").unwrap();
    assert!(tree_a < tree_b);
    let unit_a = doc.find("a.txt (in A):").unwrap();
    let unit_b = doc.find("b.txt (in B):").unwrap();
    assert!(unit_a < unit_b);
    let contents_banner = doc.find("\u{ff1c}File Contents\u{ff1e}").unwrap();
    assert!(tree_b < contents_banner);
    assert!(contents_banner < unit_a);
}

#[test]
fn oversize_and_binary_files_become_placeholders() {
    let mut rules = bare_rules();
    rules.max_file_size_bytes = 4;
    let roots = vec![adir(
        "r",
        vec![
            afile("big.txt", b"abcdefgh"),
            afile("bin.dat", &[0u8, 1, 2]),
            afile("ok.txt", b"ok"),
        ],
    )];
    let doc = aggregate(&roots, &rules);
    assert!(doc.contains("[File size exceeds limit; skipped]"));
    assert!(doc.contains("[Binary file skipped]"));
    assert!(doc.contains("ok"));
    assert!(!doc.contains("abcdefgh"));
}

#[test]
fn root_with_no_kept_files_has_empty_contents_block() {
    let rules = default_rules();
    let roots = vec![adir("proj", vec![afile("img.png", b"x")])];
    let doc = aggregate(&roots, &rules);
    let expected = "\u{ff1c}Directory Structure\u{ff1e}\n\n\
                    === Tree for proj ===\n\
                    proj\n\n\
                    \u{ff1c}File Contents\u{ff1e}\n\n";
    assert_eq!(doc, expected);
}
