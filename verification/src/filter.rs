//! The entry filter: decides, from a basename and its kind, whether an
//! entry is kept under a rule set.

use vstd::prelude::*;
use vstd::string::*;
use crate::rules::{contains_string, RuleSet, RulesView};
use crate::strutil::{lower_of, to_lower};

verus! {

/// Index of the last `'.'` of `s`, or `-1` when `s` holds none.
pub open spec fn spec_last_dot(s: Seq<char>) -> int
    decreases s.len(),
{
    if s.len() == 0 {
        -1
    } else if s.last() == '.' {
        s.len() - 1
    } else {
        spec_last_dot(s.drop_last())
    }
}

/// The extension of a basename, by the usual path convention: the part
/// after the final dot.  A name without a dot, or whose only dot is its
/// leading character (such as `.gitignore`), has none.
pub open spec fn spec_extension(name: Seq<char>) -> Option<Seq<char>> {
    let i = spec_last_dot(name);
    if i <= 0 {
        None
    } else {
        Some(name.subrange(i + 1, name.len() as int))
    }
}

/// A file's extension normalized for rule lookup: lower-cased, with a
/// leading dot.
pub open spec fn spec_norm_ext(name: Seq<char>) -> Option<Seq<char>> {
    match spec_extension(name) {
        Some(e) => Some(seq!['.'] + lower_of(e)),
        None => None,
    }
}

/// Extracts the extension of a basename, as [`spec_extension`] describes.
pub fn extension_of(name: &String) -> (r: Option<String>)
    ensures
        r.deep_view() == spec_extension(name@),
{
    let len = name.as_str().unicode_len();
    let mut j: usize = len;
    proof {
        assert(name@.take(len as int) =~= name@);
    }
    while j > 0
        invariant
            0 <= j <= len,
            len == name@.len(),
            spec_last_dot(name@) == spec_last_dot(name@.take(j as int)),
        decreases j,
    {
        let c = name.as_str().get_char(j - 1);
        proof {
            assert(name@.take(j as int).last() == name@[j - 1]);
        }
        if c == '.' {
            if j == 1 {
                return None;
            }
            let ext = name.as_str().substring_char(j, len).to_owned();
            proof {
                assert(spec_last_dot(name@) == j - 1);
                assert(ext@ == spec_extension(name@).unwrap());
            }
            return Some(ext);
        }
        proof {
            assert(name@.take(j as int).drop_last() =~= name@.take(j - 1));
        }
        j = j - 1;
    }
    proof {
        assert(name@.take(0).len() == 0);
        assert(spec_last_dot(name@) == -1);
    }
    None
}

/// Basenames that are conventionally extensionless and accepted even under
/// an extension restriction.
pub open spec fn spec_extensionless_ok(name: Seq<char>) -> bool {
    ||| name == "Makefile"@
    ||| name == "Dockerfile"@
    ||| name == "LICENSE"@
    ||| name == "README"@
    ||| name == ".gitignore"@
    ||| name == ".gitattributes"@
    ||| name == "justfile"@
}

fn extensionless_ok(name: &String) -> (r: bool)
    ensures
        r == spec_extensionless_ok(name@),
{
    let mut r = name.eq(&String::from_str("Makefile"));
    r = r || name.eq(&String::from_str("Dockerfile"));
    r = r || name.eq(&String::from_str("LICENSE"));
    r = r || name.eq(&String::from_str("README"));
    r = r || name.eq(&String::from_str(".gitignore"));
    r = r || name.eq(&String::from_str(".gitattributes"));
    r = r || name.eq(&String::from_str("justfile"));
    r
}

/// Whether a file with basename `name` is included, in strict precedence
/// order: whitelist, then ignored filenames, then extension rules.
pub open spec fn spec_file_included(name: Seq<char>, r: RulesView) -> bool {
    if r.whitelisted_filenames.contains(name) {
        true
    } else if r.ignored_filenames.contains(name) {
        false
    } else {
        match spec_norm_ext(name) {
            Some(e) => if r.ignored_extensions.contains(e) {
                false
            } else {
                r.allowed_extensions.len() == 0 || r.allowed_extensions.contains(e)
            },
            None => r.allowed_extensions.len() == 0 || spec_extensionless_ok(name),
        }
    }
}

/// Whether the filter keeps one entry: a directory is kept unless its
/// basename is an ignored directory name; a file is kept iff
/// [`spec_file_included`] holds.
pub open spec fn spec_entry_included(name: Seq<char>, is_dir: bool, r: RulesView) -> bool {
    if is_dir {
        !r.ignored_directory_names.contains(name)
    } else {
        spec_file_included(name, r)
    }
}

/// The entry filter: a pure decision from one entry and the rule set.
pub fn decide(name: &String, is_dir: bool, rules: &RuleSet) -> (r: bool)
    ensures
        r == spec_entry_included(name@, is_dir, rules@),
{
    if is_dir {
        return !contains_string(&rules.ignored_directory_names, name);
    }
    if contains_string(&rules.whitelisted_filenames, name) {
        return true;
    }
    if contains_string(&rules.ignored_filenames, name) {
        return false;
    }
    match extension_of(name) {
        Some(e) => {
            let le = to_lower(e.as_str());
            let mut ne = String::from_str(".");
            ne.append(le.as_str());
            proof {
                reveal_strlit(".");
                assert(ne@ =~= seq!['.'] + lower_of(e@));
            }
            if contains_string(&rules.ignored_extensions, &ne) {
                false
            } else {
                rules.allowed_extensions.len() == 0 || contains_string(
                    &rules.allowed_extensions,
                    &ne,
                )
            }
        },
        None => rules.allowed_extensions.len() == 0 || extensionless_ok(name),
    }
}

/// Law: a whitelisted basename is always included, regardless of its
/// extension, of ignored extensions, and of any allowed-extension
/// restriction.
pub proof fn lemma_whitelist_always_included(name: Seq<char>, r: RulesView)
    requires
        r.whitelisted_filenames.contains(name),
    ensures
        spec_file_included(name, r),
{
}

/// Law: a file that is not whitelisted and whose normalized extension is
/// among the ignored extensions is excluded, even when that extension is
/// also among the allowed ones.
pub proof fn lemma_ignored_extension_excluded(name: Seq<char>, r: RulesView)
    requires
        !r.whitelisted_filenames.contains(name),
        spec_norm_ext(name) is Some,
        r.ignored_extensions.contains(spec_norm_ext(name)->Some_0),
    ensures
        !spec_file_included(name, r),
{
}

} // verus!
