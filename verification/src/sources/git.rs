//! Versions of `git` packages: what to clone, and how the head commit becomes a version.
use vstd::prelude::*;

use crate::config::PackageConfig;
use crate::text::{
    all_digits, chars_of, decimal, digits_value, is_digit, lacks_char,
    lemma_decimal_digits, lemma_lacks_first_char, lemma_replace_all_absent, occurs_at, parse_u64,
    parse_u64_exec, replace_all,
};

use super::version_template::{
    base_token, base_version_of, date_token, digit_run_end, expand_sha_tokens,
    expand_sha_tokens_from, lemma_expand_plain, render, rendered, rev_token, sha_length_token_end,
    sha_open, sha_prefix, sha_token, VersionTemplateData,
};
use super::{normalize_version, normalized_version, Error};

verus! {

/// What git reports about the head commit of the cloned branch, each output trimmed.
pub struct GitHead {
    /// The output of `git rev-list --count HEAD`.
    pub revision: String,
    /// The output of `git rev-parse HEAD`.
    pub sha: String,
    /// The output of `git log -1 --format=%cd --date=format:%Y%m%d HEAD`.
    pub date: String,
}

/// The template used when a package sets none: `r{rev}.{sha7}`.
pub open spec fn default_template() -> Seq<char> {
    seq!['r', '{', 'r', 'e', 'v', '}', '.', '{', 's', 'h', 'a', '7', '}']
}

/// The package's version template, or the default one.
pub open spec fn template_of(package: PackageConfig) -> Seq<char> {
    match package.version_template {
        Some(t) => t@,
        None => default_template(),
    }
}

/// A commit date in the form `YYYYMMDD`: exactly eight decimal digits.
pub open spec fn is_commit_date(date: Seq<char>) -> bool {
    date.len() == 8 && all_digits(date)
}

/// The version of a git package whose head commit git describes as `head`: the package
/// needs a `git_url`, the revision must be a count and the date eight digits; the template is
/// rendered and the result normalized.
pub open spec fn git_version(package: PackageConfig, head: GitHead) -> Result<Seq<char>, Error> {
    if package.git_url is None {
        Err(Error::MissingGitUrl { package: package.name })
    } else {
        match parse_u64(head.revision@) {
            None => Err(Error::InvalidGitRevision { package: package.name, revision: head.revision }),
            Some(revision) => if !is_commit_date(head.date@) {
                Err(Error::InvalidGitCommitDate { package: package.name, date: head.date })
            } else {
                match rendered(
                    template_of(package),
                    head.date@,
                    revision,
                    head.sha@,
                    base_version_of(package),
                ) {
                    None => Err(Error::MissingBaseVersion { package: package.name }),
                    Some(v) => Ok(normalized_version(v, package.strip_prefixes@)),
                }
            },
        }
    }
}

/// The URL to clone a git package from; a package without one is refused before anything
/// is fetched.
pub fn require_git_url(package: &PackageConfig) -> (r: Result<&String, Error>)
    ensures
        match package.git_url {
            Some(url) => r == Ok::<&String, Error>(&url),
            None => r matches Err(e) && e == (Error::MissingGitUrl { package: package.name }),
        },
{
    match &package.git_url {
        None => Err(Error::MissingGitUrl { package: package.name.clone() }),
        Some(url) => Ok(url),
    }
}

/// The arguments of the `git clone` that fetches the package's branch into `path`:
/// `clone --filter=blob:none`, then `--single-branch --branch <branch>` when a branch is set,
/// then the URL and the path.
pub open spec fn clone_arguments(git_url: Seq<char>, branch: Option<String>, path: Seq<char>) -> Seq<
    Seq<char>,
> {
    let head = seq!["clone"@, "--filter=blob:none"@];
    let branch_args = match branch {
        Some(b) => seq!["--single-branch"@, "--branch"@, b@],
        None => Seq::<Seq<char>>::empty(),
    };
    head + branch_args + seq![git_url, path]
}

/// The arguments of `git clone` for the package, cloning into `path`; the package needs a
/// `git_url`.
pub fn clone_args(package: &PackageConfig, path: &str) -> (r: Result<Vec<String>, Error>)
    ensures
        match package.git_url {
            Some(url) => r matches Ok(args) && args@.map_values(|a: String| a@) == clone_arguments(
                url@,
                package.branch,
                path@,
            ),
            None => r matches Err(e) && e == (Error::MissingGitUrl { package: package.name }),
        },
{
    match &package.git_url {
        None => Err(Error::MissingGitUrl { package: package.name.clone() }),
        Some(url) => {
            let mut args: Vec<String> = Vec::new();
            args.push(String::from_str("clone"));
            args.push(String::from_str("--filter=blob:none"));
            match &package.branch {
                Some(b) => {
                    args.push(String::from_str("--single-branch"));
                    args.push(String::from_str("--branch"));
                    args.push(b.clone());
                },
                None => {},
            }
            args.push(url.clone());
            args.push(String::from_str(path));
            assert(args@.map_values(|a: String| a@) =~= clone_arguments(url@, package.branch, path@));
            Ok(args)
        },
    }
}

/// The revision count that `git rev-list --count HEAD` printed.
pub fn parse_revision(package: &PackageConfig, output: &String) -> (r: Result<u64, Error>)
    ensures
        match parse_u64(output@) {
            Some(n) => r == Ok::<u64, Error>(n),
            None => r matches Err(e) && e == (Error::InvalidGitRevision {
                package: package.name,
                revision: *output,
            }),
        },
{
    match parse_u64_exec(output.as_str()) {
        Some(n) => Ok(n),
        None => Err(Error::InvalidGitRevision { package: package.name.clone(), revision: output.clone() }),
    }
}

/// The version of a git package from what git reports about its head commit.
pub fn latest_version(package: &PackageConfig, head: &GitHead) -> (r: Result<String, Error>)
    ensures
        match git_version(*package, *head) {
            Ok(v) => r matches Ok(s) && s@ == v,
            Err(e) => r matches Err(f) && f == e,
        },
{
    require_git_url(package)?;
    let revision = parse_revision(package, &head.revision)?;
    let date = chars_of(head.date.as_str());
    let mut all = true;
    let mut i: usize = 0;
    while i < date.len()
        invariant
            i <= date.len(),
            all == (forall|k: int| 0 <= k < i ==> '0' <= #[trigger] date@[k] && date@[k] <= '9'),
        decreases date.len() - i,
    {
        all = all && '0' <= date[i] && date[i] <= '9';
        i = i + 1;
    }
    if date.len() != 8 || !all {
        return Err(Error::InvalidGitCommitDate { package: package.name.clone(), date: head.date.clone() });
    }
    let default = String::from_str("r{rev}.{sha7}");
    proof {
        reveal_strlit("r{rev}.{sha7}");
        assert(default@ =~= default_template());
    }
    let template = match &package.version_template {
        Some(t) => t.as_str(),
        None => default.as_str(),
    };
    let data = VersionTemplateData { date: head.date.as_str(), revision, sha: head.sha.as_str() };
    let version = render(template, &data, package)?;
    Ok(normalize_version(version.as_str(), package.strip_prefixes.as_slice()))
}

/// With the default template `r{rev}.{sha7}`, a hash that holds no `{` gives `r`, the
/// revision count, `.` and the first seven characters of the hash (all of it when shorter).
pub proof fn law_default_template(
    date: Seq<char>,
    revision: u64,
    sha: Seq<char>,
    base: Option<Seq<char>>,
)
    requires
        lacks_char(sha, '{'),
    ensures
        rendered(default_template(), date, revision, sha, base) == Some(
            seq!['r'] + decimal(revision as nat) + seq!['.'] + sha_prefix(sha, 7),
        ),
{
    let t = default_template();
    let dec = decimal(revision as nat);
    lemma_decimal_digits(revision as nat);
    // No `{date}` in the template.
    assert forall|i: int| !occurs_at(t, date_token(), i) by {
        if occurs_at(t, date_token(), i) {
            let w = t.subrange(i, i + 6);
            assert(w[0] == t[i] && w[1] == t[i + 1]);
        }
    }
    lemma_replace_all_absent(t, date_token(), date);
    // `{rev}` becomes the count.
    let rest = seq!['.', '{', 's', 'h', 'a', '7', '}'];
    assert forall|i: int| !occurs_at(rest, rev_token(), i) by {
        if occurs_at(rest, rev_token(), i) {
            let w = rest.subrange(i, i + 5);
            assert(w[0] == rest[i] && w[1] == rest[i + 1]);
        }
    }
    lemma_replace_all_absent(rest, rev_token(), dec);
    assert(t.take(5)[0] == 'r');
    assert(t.take(5) != rev_token());
    let t1 = t.drop_first();
    assert(t1.take(5) =~= rev_token());
    assert(t1.skip(5) =~= rest);
    assert(replace_all(t1, rev_token(), dec) == dec + replace_all(rest, rev_token(), dec));
    assert(replace_all(t, rev_token(), dec) == seq![t[0]] + replace_all(t1, rev_token(), dec));
    let s2 = seq!['r'] + dec + rest;
    assert(replace_all(t, rev_token(), dec) =~= s2);
    // No `{sha}` in the result: its only `{` opens `{sha7}`.
    let p: int = dec.len() as int + 2;
    assert forall|k: int| 0 <= k < p implies #[trigger] s2[k] != '{' by {
        if 1 <= k < p - 1 {
            assert(s2[k] == dec[k - 1]);
            assert(is_digit(dec[k - 1]));
        }
    }
    assert forall|i: int| !occurs_at(s2, sha_token(), i) by {
        if occurs_at(s2, sha_token(), i) {
            let w = s2.subrange(i, i + 5);
            assert(w[0] == s2[i]);
            if i == p {
                assert(w[4] == s2[p + 4]);
            } else if i > p {
                assert(s2[i] == rest[i - p + 1]);
            }
        }
    }
    lemma_replace_all_absent(s2, sha_token(), sha);
    // Expanding `{sha7}`.
    lemma_expand_plain(s2, sha, 0, p);
    assert(s2.subrange(p, p + 4) =~= sha_open());
    assert(s2[p + 4] == '7');
    assert(s2[p + 5] == '}');
    assert(digit_run_end(s2, p + 5) == p + 5);
    assert(sha_length_token_end(s2, p) == Some(p + 6));
    let digits = s2.subrange(p + 4, p + 5);
    assert(digits.drop_last() =~= Seq::<char>::empty());
    assert(digits.last() == '7');
    assert(digits_value(digits.drop_last()) == 0);
    assert(crate::text::digit_value('7') == 7);
    assert(digits_value(digits) == 7);
    assert(expand_sha_tokens_from(s2, sha, p + 6) =~= Seq::<char>::empty());
    let s4 = seq!['r'] + dec + seq!['.'] + sha_prefix(sha, 7);
    assert(s2.subrange(0, p) =~= seq!['r'] + dec + seq!['.']);
    assert(expand_sha_tokens(s2, sha) =~= s4);
    // No `{base}` left.
    assert forall|k: int| 0 <= k < s4.len() implies #[trigger] s4[k] != '{' by {
        if k < p {
            assert(s4[k] == s2[k]);
        } else {
            assert(s4[k] == sha_prefix(sha, 7)[k - p]);
        }
    }
    lemma_lacks_first_char(s4, base_token());
}

} // verus!
