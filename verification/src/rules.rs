//! The rule set: the immutable configuration consumed by the entry filter.

use vstd::prelude::*;

verus! {

/// Inclusion/exclusion configuration for one run.
///
/// Extension lists are expected in normalized form (lower-case, leading dot);
/// the defaults below are already normalized.  An empty `allowed_extensions`
/// means "no extension restriction".
pub struct RuleSet {
    pub allowed_extensions: Vec<String>,
    pub ignored_extensions: Vec<String>,
    pub ignored_directory_names: Vec<String>,
    pub whitelisted_filenames: Vec<String>,
    pub ignored_filenames: Vec<String>,
    pub max_file_size_bytes: u64,
}

/// Mathematical form of a rule set: each name list as a sequence of
/// character sequences.  Membership, not order, is what the filter reads.
pub struct RulesView {
    pub allowed_extensions: Seq<Seq<char>>,
    pub ignored_extensions: Seq<Seq<char>>,
    pub ignored_directory_names: Seq<Seq<char>>,
    pub whitelisted_filenames: Seq<Seq<char>>,
    pub ignored_filenames: Seq<Seq<char>>,
    pub max_file_size_bytes: u64,
}

impl View for RuleSet {
    type V = RulesView;

    open spec fn view(&self) -> RulesView {
        RulesView {
            allowed_extensions: self.allowed_extensions.deep_view(),
            ignored_extensions: self.ignored_extensions.deep_view(),
            ignored_directory_names: self.ignored_directory_names.deep_view(),
            whitelisted_filenames: self.whitelisted_filenames.deep_view(),
            ignored_filenames: self.ignored_filenames.deep_view(),
            max_file_size_bytes: self.max_file_size_bytes,
        }
    }
}

/// The built-in allowed extensions: common source-code extensions.
pub open spec fn spec_default_allowed_extensions() -> Seq<Seq<char>> {
    seq![
        ".txt"@, ".md"@, ".py"@, ".js"@, ".java"@, ".cpp"@, ".c"@, ".cs"@, ".rb"@, ".go"@,
        ".rs"@, ".hpp"@, ".ts"@, ".tsx"@, ".d.ts"@, ".jsx"@, ".toml"@,
    ]
}

/// The built-in ignored extensions: archives, binaries, build artifacts
/// and images.
pub open spec fn spec_default_ignored_extensions() -> Seq<Seq<char>> {
    seq![
        ".bin"@, ".zip"@, ".tar"@, ".gz"@, ".7z"@, ".rar"@, ".exe"@, ".dll"@, ".so"@, ".dylib"@,
        ".a"@, ".lib"@, ".obj"@, ".o"@, ".class"@, ".jar"@, ".war"@, ".ear"@, ".ipynb"@, ".jpg"@,
        ".jpeg"@, ".png"@, ".gif"@,
    ]
}

/// The built-in ignored directory names: VCS, build, cache and environment
/// directories.
pub open spec fn spec_default_ignored_directory_names() -> Seq<Seq<char>> {
    seq![
        ".git"@, ".vscode"@, "target"@, "node_modules"@, "__pycache__"@, ".idea"@, "build"@,
        "dist"@, ".ruff_cache"@, ".cache"@, ".tox"@, ".nox"@, ".pytest_cache"@, "htmlcov"@,
        "instance"@, ".env"@, ".venv"@, "env"@, "venv"@, "ENV"@, "site"@, ".mypy_cache"@,
        "debug"@,
    ]
}

/// The built-in whitelisted filenames.
pub open spec fn spec_default_whitelisted_filenames() -> Seq<Seq<char>> {
    seq!["Dockerfile"@, "Makefile"@, "justfile"@]
}

/// The built-in maximum file size in bytes (10 MiB).
pub open spec fn spec_default_max_file_size_bytes() -> u64 {
    10485760
}

pub fn default_allowed_extensions() -> (r: Vec<String>)
    ensures
        r.deep_view() =~= spec_default_allowed_extensions(),
{
    let mut v: Vec<String> = Vec::new();
    v.push(String::from_str(".txt"));
    v.push(String::from_str(".md"));
    v.push(String::from_str(".py"));
    v.push(String::from_str(".js"));
    v.push(String::from_str(".java"));
    v.push(String::from_str(".cpp"));
    v.push(String::from_str(".c"));
    v.push(String::from_str(".cs"));
    v.push(String::from_str(".rb"));
    v.push(String::from_str(".go"));
    v.push(String::from_str(".rs"));
    v.push(String::from_str(".hpp"));
    v.push(String::from_str(".ts"));
    v.push(String::from_str(".tsx"));
    v.push(String::from_str(".d.ts"));
    v.push(String::from_str(".jsx"));
    v.push(String::from_str(".toml"));
    v
}

pub fn default_ignored_extensions() -> (r: Vec<String>)
    ensures
        r.deep_view() =~= spec_default_ignored_extensions(),
{
    let mut v: Vec<String> = Vec::new();
    v.push(String::from_str(".bin"));
    v.push(String::from_str(".zip"));
    v.push(String::from_str(".tar"));
    v.push(String::from_str(".gz"));
    v.push(String::from_str(".7z"));
    v.push(String::from_str(".rar"));
    v.push(String::from_str(".exe"));
    v.push(String::from_str(".dll"));
    v.push(String::from_str(".so"));
    v.push(String::from_str(".dylib"));
    v.push(String::from_str(".a"));
    v.push(String::from_str(".lib"));
    v.push(String::from_str(".obj"));
    v.push(String::from_str(".o"));
    v.push(String::from_str(".class"));
    v.push(String::from_str(".jar"));
    v.push(String::from_str(".war"));
    v.push(String::from_str(".ear"));
    v.push(String::from_str(".ipynb"));
    v.push(String::from_str(".jpg"));
    v.push(String::from_str(".jpeg"));
    v.push(String::from_str(".png"));
    v.push(String::from_str(".gif"));
    v
}

pub fn default_ignored_directory_names() -> (r: Vec<String>)
    ensures
        r.deep_view() =~= spec_default_ignored_directory_names(),
{
    let mut v: Vec<String> = Vec::new();
    v.push(String::from_str(".git"));
    v.push(String::from_str(".vscode"));
    v.push(String::from_str("target"));
    v.push(String::from_str("node_modules"));
    v.push(String::from_str("__pycache__"));
    v.push(String::from_str(".idea"));
    v.push(String::from_str("build"));
    v.push(String::from_str("dist"));
    v.push(String::from_str(".ruff_cache"));
    v.push(String::from_str(".cache"));
    v.push(String::from_str(".tox"));
    v.push(String::from_str(".nox"));
    v.push(String::from_str(".pytest_cache"));
    v.push(String::from_str("htmlcov"));
    v.push(String::from_str("instance"));
    v.push(String::from_str(".env"));
    v.push(String::from_str(".venv"));
    v.push(String::from_str("env"));
    v.push(String::from_str("venv"));
    v.push(String::from_str("ENV"));
    v.push(String::from_str("site"));
    v.push(String::from_str(".mypy_cache"));
    v.push(String::from_str("debug"));
    v
}

pub fn default_whitelisted_filenames() -> (r: Vec<String>)
    ensures
        r.deep_view() =~= spec_default_whitelisted_filenames(),
{
    let mut v: Vec<String> = Vec::new();
    v.push(String::from_str("Dockerfile"));
    v.push(String::from_str("Makefile"));
    v.push(String::from_str("justfile"));
    v
}

/// The rule set a run starts from when the caller overrides nothing.
pub fn default_rules() -> (r: RuleSet)
    ensures
        r@.allowed_extensions =~= spec_default_allowed_extensions(),
        r@.ignored_extensions =~= spec_default_ignored_extensions(),
        r@.ignored_directory_names =~= spec_default_ignored_directory_names(),
        r@.whitelisted_filenames =~= spec_default_whitelisted_filenames(),
        r@.ignored_filenames =~= Seq::<Seq<char>>::empty(),
        r@.max_file_size_bytes == spec_default_max_file_size_bytes(),
{
    RuleSet {
        allowed_extensions: default_allowed_extensions(),
        ignored_extensions: default_ignored_extensions(),
        ignored_directory_names: default_ignored_directory_names(),
        whitelisted_filenames: default_whitelisted_filenames(),
        ignored_filenames: Vec::new(),
        max_file_size_bytes: 10485760,
    }
}

/// True iff `s` equals one of the strings of `v`.
pub fn contains_string(v: &Vec<String>, s: &String) -> (r: bool)
    ensures
        r == v.deep_view().contains(s@),
{
    let mut i: usize = 0;
    while i < v.len()
        invariant
            0 <= i <= v.len(),
            forall|j: int| 0 <= j < i ==> v.deep_view()[j] != s@,
        decreases v.len() - i,
    {
        if v[i].eq(s) {
            assert(v.deep_view()[i as int] == s@);
            return true;
        }
        i += 1;
    }
    false
}

} // verus!
