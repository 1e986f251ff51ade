//! Product identity and OTA channel helpers.
use vstd::prelude::*;
use crate::text::{
    chars_eq, chars_of, contains, contains_exec, lower, to_lower, trim, trim_end, trim_exec,
    trim_start,
};

verus! {

/// Stable OTA channel's git branch.
pub const PRODUCT_OTA_BRANCH_STABLE: &'static str = "main";

/// Beta OTA channel's git branch.
pub const PRODUCT_OTA_BRANCH_BETA: &'static str = "beta";

/// Public source repository of the product.
pub const PRODUCT_REPO_URL: &'static str = "https://github.com/Aitorrio/bost-flowstation";

/// The channel id a dashboard value selects: `"beta"` when the value is `beta` in any
/// ASCII case with surrounding whitespace ignored, `"stable"` for anything else.
pub open spec fn spec_normalize_ota_channel(channel: Seq<char>) -> Seq<char> {
    if lower(trim(channel)) == "beta"@ {
        "beta"@
    } else {
        "stable"@
    }
}

/// Git branch of a channel: `beta` for the beta channel, `main` otherwise.
pub open spec fn spec_ota_branch_for_channel(channel: Seq<char>) -> Seq<char> {
    if lower(trim(channel)) == "beta"@ {
        "beta"@
    } else {
        "main"@
    }
}

/// The URL names this product's repository: compared ASCII-case-insensitively, it contains
/// the owner/repo slug `aitorrio/bost-flowstation` or, after the rebrand, `aitorrio/ptbs`.
pub open spec fn spec_is_product_repo_url(url: Seq<char>) -> bool {
    contains(lower(url), "aitorrio/bost-flowstation"@) || contains(lower(url), "aitorrio/ptbs"@)
}

/// `lower(trim(s)) == "beta"`.
fn is_beta(channel: &str) -> (r: bool)
    ensures
        r == (lower(trim(channel@)) == "beta"@),
{
    let c = chars_of(channel);
    let t = trim_exec(c.as_slice());
    let l = to_lower(t.as_slice());
    let beta = chars_of("beta");
    chars_eq(l.as_slice(), beta.as_slice())
}

/// Normalize a dashboard channel id to `"stable"` or `"beta"`.
pub fn normalize_ota_channel(channel: &str) -> (r: &'static str)
    ensures
        r@ == spec_normalize_ota_channel(channel@),
{
    if is_beta(channel) {
        "beta"
    } else {
        "stable"
    }
}

/// Git branch for an OTA channel (`stable` → `main`, `beta` → `beta`).
pub fn ota_branch_for_channel(channel: &str) -> (r: &'static str)
    ensures
        r@ == spec_ota_branch_for_channel(channel@),
{
    if is_beta(channel) {
        PRODUCT_OTA_BRANCH_BETA
    } else {
        PRODUCT_OTA_BRANCH_STABLE
    }
}

/// True if `url` points at this product's GitHub repository, current or post-rebrand slug
/// (see [`spec_is_product_repo_url`]).
pub fn is_product_repo_url(url: &str) -> (r: bool)
    ensures
        r == spec_is_product_repo_url(url@),
{
    let u = to_lower(chars_of(url).as_slice());
    contains_exec(u.as_slice(), chars_of("aitorrio/bost-flowstation").as_slice())
        || contains_exec(u.as_slice(), chars_of("aitorrio/ptbs").as_slice())
}

/// Normalizing twice is normalizing once, and a normalized channel keeps its branch.
pub proof fn lemma_normalize_idempotent(channel: Seq<char>)
    ensures
        spec_normalize_ota_channel(spec_normalize_ota_channel(channel)) == spec_normalize_ota_channel(channel),
        spec_ota_branch_for_channel(spec_normalize_ota_channel(channel)) == spec_ota_branch_for_channel(channel),
{
    reveal_strlit("beta");
    reveal_strlit("stable");
    let b = "beta"@;
    let s = "stable"@;
    assert(trim_start(b) == b) by { reveal_with_fuel(trim_start, 2); }
    assert(trim_end(b) == b) by { reveal_with_fuel(trim_end, 2); }
    assert(lower(b) =~= b);
    assert(trim_start(s) == s) by { reveal_with_fuel(trim_start, 2); }
    assert(trim_end(s) == s) by { reveal_with_fuel(trim_end, 2); }
    assert(lower(s) =~= s);
    assert(s[0] != b[0]);
}

} // verus!
