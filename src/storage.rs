//! How profiles are named on disk: one `<name>.toml` file per profile, the
//! name not being part of the stored content.
use vstd::prelude::*;

use crate::policy::Policy;
use crate::text::same_text;

verus! {

pub open spec fn profile_extension() -> Seq<char> {
    ".toml"@
}

/// The profile a stored file stands for: the file's stem when its extension
/// is `toml` and the stem is not empty.
pub open spec fn stored_name(file_name: Seq<char>) -> Option<Seq<char>> {
    let n = file_name.len();
    if n > 5 && file_name.subrange(n - 5, n as int) == profile_extension() {
        Some(file_name.take(n - 5))
    } else {
        None
    }
}

/// The file name a profile called `name` is saved under.
pub fn profile_file_name(name: &str) -> (r: String)
    ensures
        r@ == name@ + profile_extension(),
{
    String::from_str(name).concat(".toml")
}

/// The profile name that file `file_name` holds, if it holds one.
pub fn stored_profile_name(file_name: &str) -> (r: Option<String>)
    ensures
        r matches Some(s) ==> stored_name(file_name@) == Some(s@),
        r is None ==> stored_name(file_name@) is None,
{
    let n = file_name.unicode_len();
    if n > 5 && same_text(file_name.substring_char(n - 5, n), ".toml") {
        Some(String::from_str(file_name.substring_char(0, n - 5)))
    } else {
        None
    }
}

/// A policy read from file `file_name`, named after the file; `None` when
/// the file does not hold a profile or the policy repeats a filesystem flag,
/// variable name or metadata key.
pub fn adopt_stored_profile(file_name: &str, policy: Policy) -> (r: Option<Policy>)
    ensures
        match stored_name(file_name@) {
            Some(name) => if policy.wf() {
                r matches Some(p) && p@ == policy@.renamed(name) && p.wf()
            } else {
                r is None
            },
            None => r is None,
        },
{
    if !policy.is_well_formed() {
        return None;
    }
    match stored_profile_name(file_name) {
        Some(name) => Some(policy.with_name(name)),
        None => None,
    }
}

/// Saving a profile under a non-empty name and listing the stored files
/// gives that name back: the file name leads to the same key.
pub proof fn lemma_storage_key_round_trip(name: Seq<char>)
    requires
        name.len() > 0,
    ensures
        stored_name(name + profile_extension()) == Some(name),
{
    reveal_strlit(".toml");
    let f = name + profile_extension();
    let n = f.len();
    assert(f.subrange(n - 5, n as int) =~= profile_extension());
    assert(f.take(n - 5) =~= name);
}

} // verus!
