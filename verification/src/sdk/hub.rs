//! The pack hub's decisions: pack references and keys, keyword search and
//! the results of installing and publishing.

use vstd::prelude::*;

use crate::kernel::error::{AnamError, Result};
use crate::text::{
    chars_of, contains, contains_exec, push_all, push_str, split, split_exec, split_once,
    split_once_exec, str_lowercase, string_of, to_lowercase,
};

verus! {

/// A Datalog rule file within a pack descriptor.
#[derive(Debug, Clone)]
pub struct PackRule {
    /// Rule set name.
    pub name: String,
    /// Relative path to the `.dl` file within the pack.
    pub path: String,
    /// Short description of what the rules enforce.
    pub description: String,
}

/// Result of an install.
#[derive(Debug, Clone)]
pub struct InstallResult {
    /// The pack reference string that was installed.
    pub pack_ref: String,
    /// Whether the pack was newly installed (`false` if already present).
    pub installed: bool,
    /// Human-readable status message.
    pub message: String,
}

/// Result of a publish.
#[derive(Debug, Clone)]
pub struct PublishResult {
    /// Package name.
    pub name: String,
    /// Package version.
    pub version: String,
    /// Registry key (`name@version`).
    pub key: String,
    /// Human-readable status message.
    pub message: String,
}

/// The name and version a reference names: `name@version`, or a bare
/// name for the latest version.
pub open spec fn pack_ref_spec(r: Seq<char>) -> (Seq<char>, Seq<char>) {
    match split_once(r, seq!['@']) {
        Some((n, v)) => (n, v),
        None => (r, "latest"@),
    }
}

/// Parse a pack reference into `(name, version)` (see [`pack_ref_spec`]);
/// every reference parses.
pub fn parse_pack_ref(pack_ref: &str) -> (r: Result<(String, String)>)
    ensures
        r matches Ok((n, v)) && (n@, v@) == pack_ref_spec(pack_ref@),
{
    let v = chars_of(pack_ref);
    let at = vec!['@'];
    assert(at@ =~= seq!['@']);
    match split_once_exec(&v, &at) {
        Some((n, ver)) => Ok((string_of(&n), string_of(&ver))),
        None => Ok((string_of(&v), string_of(&chars_of("latest")))),
    }
}

/// The index key of a pack: `name@version`.
pub fn pack_key(name: &str, version: &str) -> (r: String)
    ensures
        r@ == name@ + "@"@ + version@,
{
    let mut v = chars_of(name);
    push_str(&mut v, "@");
    push_str(&mut v, version);
    string_of(&v)
}

/// The tag a placeholder pack descriptor gets: the last `/`-separated piece of
/// the pack's name.
pub fn default_tag(name: &str) -> (r: String)
    ensures
        r@ == split(name@, seq!['/']).last(),
{
    let slash = vec!['/'];
    assert(slash@ =~= seq!['/']);
    let pieces = split_exec(&chars_of(name), &slash);
    assert(pieces@.len() > 0) by {
        crate::text::lemma_split_nonempty(name@, seq!['/']);
    }
    string_of(&pieces[pieces.len() - 1])
}

/// Some tag contains `kw` once lowercased.
pub open spec fn tag_matches(tags: Seq<Seq<char>>, kw: Seq<char>) -> bool {
    exists|i: int| 0 <= i < tags.len() && contains(str_lowercase(#[trigger] tags[i]), kw)
}

/// Whether a pack matches a search keyword: its name, its description or
/// one of its tags contains the keyword, case-insensitively.
pub open spec fn search_match(
    name: Seq<char>,
    description: Seq<char>,
    tags: Seq<Seq<char>>,
    keyword: Seq<char>,
) -> bool {
    let kw = str_lowercase(keyword);
    contains(str_lowercase(name), kw) || contains(str_lowercase(description), kw) || tag_matches(
        tags,
        kw,
    )
}

/// Whether a pack matches a search keyword (see [`search_match`]).
pub fn matches_keyword(name: &str, description: &str, tags: &Vec<String>, keyword: &str) -> (b: bool)
    ensures
        b == search_match(name@, description@, tags@.map_values(|t: String| t@), keyword@),
{
    let kw = to_lowercase(&chars_of(keyword));
    if contains_exec(&to_lowercase(&chars_of(name)), &kw) || contains_exec(
        &to_lowercase(&chars_of(description)),
        &kw,
    ) {
        return true;
    }
    let ghost tv = tags@.map_values(|t: String| t@);
    let mut i: usize = 0;
    while i < tags.len()
        invariant
            i <= tags.len(),
            tv == tags@.map_values(|t: String| t@),
            kw@ == str_lowercase(keyword@),
            !contains(str_lowercase(name@), kw@),
            !contains(str_lowercase(description@), kw@),
            forall|k: int| 0 <= k < i ==> !contains(str_lowercase(#[trigger] tv[k]), kw@),
        decreases tags.len() - i,
    {
        assert(tv[i as int] == tags@[i as int]@);
        if contains_exec(&to_lowercase(&chars_of(tags[i].as_str())), &kw) {
            assert(tag_matches(tv, kw@));
            return true;
        }
        i += 1;
    }
    false
}

/// The result of installing `pack_ref`: nothing happens when it is
/// already installed; otherwise it is installed.
pub fn install_result(pack_ref: &str, already_installed: bool) -> (r: InstallResult)
    ensures
        r.pack_ref@ == pack_ref@,
        r.installed == !already_installed,
        r.message@ == if already_installed {
            "'"@ + pack_ref@ + "' is already installed"@
        } else {
            "'"@ + pack_ref@ + "' installed successfully"@
        },
{
    let mut m = chars_of("'");
    push_str(&mut m, pack_ref);
    if already_installed {
        push_str(&mut m, "' is already installed");
    } else {
        push_str(&mut m, "' installed successfully");
    }
    InstallResult {
        pack_ref: string_of(&chars_of(pack_ref)),
        installed: !already_installed,
        message: string_of(&m),
    }
}

/// The result of publishing a pack `name` at `version`.
pub fn publish_result(name: &str, version: &str) -> (r: PublishResult)
    ensures
        r.name@ == name@,
        r.version@ == version@,
        r.key@ == name@ + "@"@ + version@,
        r.message@ == "Pack published successfully"@,
{
    PublishResult {
        name: string_of(&chars_of(name)),
        version: string_of(&chars_of(version)),
        key: pack_key(name, version),
        message: string_of(&chars_of("Pack published successfully")),
    }
}

} // verus!
