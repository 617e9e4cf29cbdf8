//! Where new upstream versions come from, and how a raw upstream version becomes a `pkgver`.
use vstd::prelude::*;

use crate::text::{
    chars_of, has_prefix, has_prefix_exec, replace_char, replace_char_exec, string_of, trim,
    trim_str,
};

pub mod git;
pub mod github;
pub mod npm;
pub mod version_template;

verus! {

/// What can go wrong while learning a package's newest version.
#[derive(Debug)]
pub enum Error {
    /// A `github_release` package has no `repo`.
    MissingGithubRepo { package: String },
    /// An `npm` package has no `npm_package`.
    MissingNpmPackage { package: String },
    /// A `git` package has no `git_url`.
    MissingGitUrl { package: String },
    /// The version template uses `{base}` but the package has no `base_version`.
    MissingBaseVersion { package: String },
    /// `git rev-list --count` printed something that is not a count.
    InvalidGitRevision { package: String, revision: String },
    /// `git log` printed a commit date that is not eight digits.
    InvalidGitCommitDate { package: String, date: String },
    /// The temporary directory for a clone could not be created.
    CreateGitTempDir { package: String, path: String, message: String },
    /// A git command could not be started.
    GitCommand { package: String, command: String, message: String },
    /// A git command exited unsuccessfully.
    GitCommandFailed { package: String, command: String, status: String, stderr: String },
    /// The HTTP client could not be built.
    BuildHttpClient { message: String },
    /// The GitHub releases request failed.
    GithubRequest { package: String, message: String },
    /// The GitHub releases response could not be read.
    GithubResponse { package: String, message: String },
    /// No release is a non-draft, non-prerelease one whose tag avoids every excluded text.
    NoSuitableGithubRelease { package: String },
    /// `GITHUB_TOKEN` holds characters that an HTTP header cannot hold.
    InvalidGithubToken { source: reqwest::header::InvalidHeaderValue },
    /// The npm registry request failed.
    NpmRequest { package: String, message: String },
    /// The npm registry response could not be read.
    NpmResponse { package: String, message: String },
}

/// `version` after removing, in order, each prefix of `prefixes` that it begins with at the
/// moment that prefix is considered.
pub open spec fn strip_prefixes(version: Seq<char>, prefixes: Seq<String>) -> Seq<char>
    decreases prefixes.len(),
{
    if prefixes.len() == 0 {
        version
    } else {
        let stripped = strip_prefixes(version, prefixes.drop_last());
        let prefix = prefixes.last()@;
        if has_prefix(stripped, prefix) {
            stripped.skip(prefix.len() as int)
        } else {
            stripped
        }
    }
}

/// The `pkgver` form of an upstream version: trimmed, configured prefixes stripped in order,
/// and every `-` replaced by `_`.
pub open spec fn normalized_version(raw: Seq<char>, prefixes: Seq<String>) -> Seq<char> {
    replace_char(strip_prefixes(trim(raw), prefixes), '-', '_')
}

/// The `pkgver` form of the upstream version `raw`.
pub fn normalize_version(raw: &str, strip_prefixes: &[String]) -> (r: String)
    ensures
        r@ == normalized_version(raw@, strip_prefixes@),
{
    let trimmed = trim_str(raw);
    let mut version = chars_of(trimmed.as_str());
    let mut i: usize = 0;
    while i < strip_prefixes.len()
        invariant
            i <= strip_prefixes.len(),
            version@ == self::strip_prefixes(trim(raw@), strip_prefixes@.take(i as int)),
        decreases strip_prefixes.len() - i,
    {
        let prefix = chars_of(strip_prefixes[i].as_str());
        let ghost taken = strip_prefixes@.take(i + 1);
        assert(taken.drop_last() =~= strip_prefixes@.take(i as int));
        if has_prefix_exec(&version, &prefix) {
            let mut rest: Vec<char> = Vec::new();
            let mut k: usize = prefix.len();
            while k < version.len()
                invariant
                    prefix.len() <= k <= version.len(),
                    rest@ == version@.subrange(prefix.len() as int, k as int),
                decreases version.len() - k,
            {
                rest.push(version[k]);
                k = k + 1;
                assert(version@.subrange(prefix.len() as int, k as int) =~= version@.subrange(
                    prefix.len() as int,
                    k - 1,
                ).push(version@[k - 1]));
            }
            assert(version@.subrange(prefix.len() as int, k as int) =~= version@.skip(
                prefix.len() as int,
            ));
            version = rest;
        }
        i = i + 1;
    }
    assert(strip_prefixes@.take(i as int) =~= strip_prefixes@);
    let replaced = replace_char_exec(&version, '-', '_');
    string_of(&replaced, 0, replaced.len())
}

/// A normalized version holds no `-`.
pub proof fn law_normalized_version_has_no_hyphen(raw: Seq<char>, prefixes: Seq<String>)
    ensures
        forall|i: int|
            0 <= i < normalized_version(raw, prefixes).len() ==> #[trigger] normalized_version(
                raw,
                prefixes,
            )[i] != '-',
{
}

} // verus!
