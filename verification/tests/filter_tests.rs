use dirsummary::filter::decide;
use dirsummary::rules::{default_rules, RuleSet};

fn svec(xs: &[&str]) -> Vec<String> {
    xs.iter().map(|s| s.to_string()).collect()
}

fn mk_rules(
    allowed: &[&str],
    ignored_exts: &[&str],
    ignored_dirs: &[&str],
    whitelist: &[&str],
    ignored_files: &[&str],
) -> RuleSet {
    RuleSet {
        allowed_extensions: svec(allowed),
        ignored_extensions: svec(ignored_exts),
        ignored_directory_names: svec(ignored_dirs),
        whitelisted_filenames: svec(whitelist),
        ignored_filenames: svec(ignored_files),
        max_file_size_bytes: 1024,
    }
}

#[test]
fn whitelist_overrides_all_rules() {
    let rules = mk_rules(&[".md"], &[".png"], &[], &["logo.png"], &["logo.png"]);
    assert!(decide(&"logo.png".to_string(), false, &rules));
}

#[test]
fn ignored_extension_beats_allowed() {
    let rules = mk_rules(&[".png", ".md"], &[".png"], &[], &[], &[]);
    assert!(!decide(&"img.png".to_string(), false, &rules));
    assert!(decide(&"doc.md".to_string(), false, &rules));
}

#[test]
fn extension_case_normalized() {
    let rules = mk_rules(&[], &[".png"], &[], &[], &[]);
    assert!(!decide(&"IMG.PNG".to_string(), false, &rules));
    let restricted = mk_rules(&[".md"], &[], &[], &[], &[]);
    assert!(decide(&"README.MD".to_string(), false, &restricted));
}

#[test]
fn ignored_filename_excluded() {
    let rules = mk_rules(&[], &[], &[], &[], &["setup.py"]);
    assert!(!decide(&"setup.py".to_string(), false, &rules));
    assert!(decide(&"other.py".to_string(), false, &rules));
}

#[test]
fn allowed_extension_restriction() {
    let rules = mk_rules(&[".rs"], &[], &[], &[], &[]);
    assert!(decide(&"main.rs".to_string(), false, &rules));
    assert!(!decide(&"main.go".to_string(), false, &rules));
}

#[test]
fn extensionless_conventional_names_accepted() {
    let rules = mk_rules(&[".rs"], &[], &[], &[], &[]);
    assert!(decide(&"README".to_string(), false, &rules));
    assert!(decide(&"Makefile".to_string(), false, &rules));
    assert!(decide(&".gitignore".to_string(), false, &rules));
    assert!(!decide(&"notes".to_string(), false, &rules));
}

#[test]
fn extensionless_included_without_restriction() {
    let rules = mk_rules(&[], &[], &[], &[], &[]);
    assert!(decide(&"notes".to_string(), false, &rules));
}

#[test]
fn directory_decision_by_name() {
    let rules = mk_rules(&[], &[], &["node_modules"], &[], &[]);
    assert!(!decide(&"node_modules".to_string(), true, &rules));
    assert!(decide(&"src".to_string(), true, &rules));
}

#[test]
fn directory_name_rules_do_not_touch_files() {
    let rules = mk_rules(&[], &[], &["env"], &[], &[]);
    assert!(decide(&"env".to_string(), false, &rules));
}

#[test]
fn only_final_extension_counts() {
    let rules = mk_rules(&[".gz"], &[], &[], &[], &[]);
    assert!(decide(&"archive.tar.gz".to_string(), false, &rules));
    let tar_only = mk_rules(&[".tar"], &[], &[], &[], &[]);
    assert!(!decide(&"archive.tar.gz".to_string(), false, &tar_only));
}

#[test]
fn trailing_dot_is_an_empty_extension() {
    let rules = mk_rules(&[".py"], &[], &[], &[], &[]);
    assert!(!decide(&"weird.".to_string(), false, &rules));
    let none = mk_rules(&[], &[], &[], &[], &[]);
    assert!(decide(&"weird.".to_string(), false, &none));
}

#[test]
fn default_rules_shape() {
    let rules = default_rules();
    assert_eq!(rules.max_file_size_bytes, 10485760);
    assert!(rules.ignored_extensions.contains(&".png".to_string()));
    assert!(rules.ignored_directory_names.contains(&"build".to_string()));
    assert!(rules.whitelisted_filenames.contains(&"Dockerfile".to_string()));
    assert!(rules.allowed_extensions.contains(&".py".to_string()));
    assert!(rules.ignored_filenames.is_empty());
}
