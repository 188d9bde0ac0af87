//! Cache key construction.
//!
//! Template records are cached under `template:<code>:<version>:<language>`
//! with `latest` in place of a version for the unversioned entry; rendered
//! outputs live under `rendered:<code>:<version>:<language>:<fingerprint>`,
//! whose language-level prefix is what invalidation sweeps.

use vstd::prelude::*;
use crate::text::{int_str, i64_to_string};

verus! {

/// The record cache key for one exact version.
pub open spec fn spec_tkey_exact(code: Seq<char>, version: int, language: Seq<char>) -> Seq<char> {
    "template:"@ + code + seq![':'] + int_str(version) + seq![':'] + language
}

/// The record cache key for the unversioned, "latest" entry.
pub open spec fn spec_tkey_latest(code: Seq<char>, language: Seq<char>) -> Seq<char> {
    "template:"@ + code + seq![':'] + "latest"@ + seq![':'] + language
}

/// The common prefix of every rendered-output key of one
/// `(code, version, language)`.
pub open spec fn spec_rkey_prefix(code: Seq<char>, version: int, language: Seq<char>) -> Seq<
    char,
> {
    "rendered:"@ + code + seq![':'] + int_str(version) + seq![':'] + language + seq![':']
}

/// One rendered-output key: the prefix plus the variables' fingerprint.
pub open spec fn spec_rkey(
    code: Seq<char>,
    version: int,
    language: Seq<char>,
    fingerprint: Seq<char>,
) -> Seq<char> {
    spec_rkey_prefix(code, version, language) + fingerprint
}

/// Builds the exact-version record key.
pub fn tkey_exact(code: &str, version: i32, language: &str) -> (r: String)
    ensures
        r@ == spec_tkey_exact(code@, version as int, language@),
{
    proof {
        reveal_strlit("template:");
        reveal_strlit(":");
        assert(":"@ =~= seq![':']);
    }
    let mut s = "template:".to_owned();
    s.append(code);
    s.append(":");
    let v = i64_to_string(version as i64);
    s.append(v.as_str());
    s.append(":");
    s.append(language);
    proof {
        assert(s@ =~= spec_tkey_exact(code@, version as int, language@));
    }
    s
}

/// Builds the latest-version record key.
pub fn tkey_latest(code: &str, language: &str) -> (r: String)
    ensures
        r@ == spec_tkey_latest(code@, language@),
{
    proof {
        reveal_strlit("template:");
        reveal_strlit(":");
        reveal_strlit("latest");
        assert(":"@ =~= seq![':']);
    }
    let mut s = "template:".to_owned();
    s.append(code);
    s.append(":");
    s.append("latest");
    s.append(":");
    s.append(language);
    proof {
        assert(s@ =~= spec_tkey_latest(code@, language@));
    }
    s
}

/// Builds the rendered-output key prefix for one `(code, version, language)`.
pub fn rkey_prefix(code: &str, version: i32, language: &str) -> (r: String)
    ensures
        r@ == spec_rkey_prefix(code@, version as int, language@),
{
    proof {
        reveal_strlit("rendered:");
        reveal_strlit(":");
        assert(":"@ =~= seq![':']);
    }
    let mut s = "rendered:".to_owned();
    s.append(code);
    s.append(":");
    let v = i64_to_string(version as i64);
    s.append(v.as_str());
    s.append(":");
    s.append(language);
    s.append(":");
    proof {
        assert(s@ =~= spec_rkey_prefix(code@, version as int, language@));
    }
    s
}

/// Builds one rendered-output key.
pub fn rkey(code: &str, version: i32, language: &str, fingerprint: &str) -> (r: String)
    ensures
        r@ == spec_rkey(code@, version as int, language@, fingerprint@),
{
    let mut s = rkey_prefix(code, version, language);
    s.append(fingerprint);
    proof {
        assert(s@ =~= spec_rkey(code@, version as int, language@, fingerprint@));
    }
    s
}

} // verus!
