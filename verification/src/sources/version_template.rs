//! Version templates for git packages, such as `r{rev}.{sha7}`.
use vstd::prelude::*;

use crate::config::PackageConfig;
use crate::text::{
    all_digits, chars_of, contains, contains_exec, decimal, digits_value, digits_value_capped,
    is_digit, lacks_char, lemma_lacks_first_char, lemma_replace_all_absent, occurs_at,
    occurs_at_exec, replace_all, replace_all_exec, string_of, u64_to_string,
};

use super::Error;

verus! {

/// What a template can refer to.
pub struct VersionTemplateData<'a> {
    /// The latest commit date as `YYYYMMDD`.
    pub date: &'a str,
    /// The number of commits.
    pub revision: u64,
    /// The full commit hash.
    pub sha: &'a str,
}

/// The token `{date}`.
pub open spec fn date_token() -> Seq<char> {
    seq!['{', 'd', 'a', 't', 'e', '}']
}

/// The token `{rev}`.
pub open spec fn rev_token() -> Seq<char> {
    seq!['{', 'r', 'e', 'v', '}']
}

/// The token `{sha}`.
pub open spec fn sha_token() -> Seq<char> {
    seq!['{', 's', 'h', 'a', '}']
}

/// The opening `{sha` of a `{shaN}` token.
pub open spec fn sha_open() -> Seq<char> {
    seq!['{', 's', 'h', 'a']
}

/// The token `{base}`.
pub open spec fn base_token() -> Seq<char> {
    seq!['{', 'b', 'a', 's', 'e', '}']
}

/// The end of the run of digits in `s` that starts at `i`.
pub open spec fn digit_run_end(s: Seq<char>, i: int) -> int
    decreases s.len() - i,
{
    if i < 0 || i >= s.len() || !is_digit(s[i]) {
        i
    } else {
        digit_run_end(s, i + 1)
    }
}

/// A `{shaN}` token, with `N` a decimal number without leading zero, that starts at index `i`
/// of `s`: the index just past its closing brace.
pub open spec fn sha_length_token_end(s: Seq<char>, i: int) -> Option<int> {
    if occurs_at(s, sha_open(), i) && i + 4 < s.len() && is_digit(s[i + 4]) && s[i + 4] != '0' {
        let e = digit_run_end(s, i + 5);
        if e < s.len() && s[e] == '}' {
            Some(e + 1)
        } else {
            None
        }
    } else {
        None
    }
}

/// The first `n` characters of `sha`, or all of it when it is shorter.
pub open spec fn sha_prefix(sha: Seq<char>, n: nat) -> Seq<char> {
    if n <= sha.len() {
        sha.take(n as int)
    } else {
        sha
    }
}

/// The run of digits that starts at `i` ends at a non-digit or at the end of `s`.
pub proof fn lemma_digit_run_end(s: Seq<char>, i: int)
    requires
        0 <= i,
    ensures
        i <= digit_run_end(s, i),
        i <= s.len() ==> digit_run_end(s, i) <= s.len(),
        forall|k: int| i <= k < digit_run_end(s, i) ==> is_digit(#[trigger] s[k]),
        digit_run_end(s, i) < s.len() ==> !is_digit(s[digit_run_end(s, i)]),
    decreases s.len() - i,
{
    if i < s.len() && is_digit(s[i]) {
        lemma_digit_run_end(s, i + 1);
    }
}

/// `s[i..]` with every `{shaN}` token (`N` a decimal number without a leading zero), read
/// from left to right without overlaps, replaced by the first `N` characters of `sha`.
pub open spec fn expand_sha_tokens_from(s: Seq<char>, sha: Seq<char>, i: int) -> Seq<char>
    decreases s.len() - i,
{
    if i < 0 || i >= s.len() {
        Seq::<char>::empty()
    } else {
        match sha_length_token_end(s, i) {
            Some(e) => {
                proof {
                    lemma_digit_run_end(s, i + 5);
                }
                sha_prefix(sha, digits_value(s.subrange(i + 4, e - 1))) + expand_sha_tokens_from(
                    s,
                    sha,
                    e,
                )
            },
            None => seq![s[i]] + expand_sha_tokens_from(s, sha, i + 1),
        }
    }
}

/// `s` with every `{shaN}` token replaced by the first `N` characters of `sha`.
pub open spec fn expand_sha_tokens(s: Seq<char>, sha: Seq<char>) -> Seq<char> {
    expand_sha_tokens_from(s, sha, 0)
}

/// The version that `template` gives, in the order the tokens are filled in: `{date}`,
/// `{rev}` and `{sha}` first, then every `{shaN}`, and `{base}` last, which needs a base
/// version (`None` when it is needed and missing).
pub open spec fn rendered(
    template: Seq<char>,
    date: Seq<char>,
    revision: u64,
    sha: Seq<char>,
    base: Option<Seq<char>>,
) -> Option<Seq<char>> {
    let filled = replace_all(
        replace_all(replace_all(template, date_token(), date), rev_token(), decimal(revision as nat)),
        sha_token(),
        sha,
    );
    let expanded = expand_sha_tokens(filled, sha);
    if contains(expanded, base_token()) {
        match base {
            Some(b) => Some(replace_all(expanded, base_token(), b)),
            None => None,
        }
    } else {
        Some(expanded)
    }
}

/// The configured base version, as a sequence of characters.
pub open spec fn base_version_of(package: PackageConfig) -> Option<Seq<char>> {
    match package.base_version {
        Some(b) => Some(b@),
        None => None,
    }
}

fn token_exec(t: &str) -> (r: Vec<char>)
    ensures
        r@ == t@,
{
    chars_of(t)
}

/// The end of the run of digits in `v` that starts at `i`.
fn digit_run_end_exec(v: &Vec<char>, i: usize) -> (r: usize)
    requires
        i <= v.len(),
    ensures
        r == digit_run_end(v@, i as int),
{
    let mut j = i;
    while j < v.len() && '0' <= v[j] && v[j] <= '9'
        invariant
            i <= j <= v.len(),
            digit_run_end(v@, i as int) == digit_run_end(v@, j as int),
        decreases v.len() - j,
    {
        j = j + 1;
    }
    j
}

/// The index just past a `{shaN}` token that starts at `i`.
fn sha_length_token_end_exec(v: &Vec<char>, i: usize) -> (r: Option<usize>)
    requires
        i < v.len(),
    ensures
        match r {
            Some(e) => sha_length_token_end(v@, i as int) == Some(e as int),
            None => sha_length_token_end(v@, i as int) is None,
        },
{
    let open = vec!['{', 's', 'h', 'a'];
    assert(open@ =~= sha_open());
    if !occurs_at_exec(v, &open, i) || i + 4 >= v.len() {
        return None;
    }
    let first = v[i + 4];
    if !('0' <= first && first <= '9') || first == '0' {
        return None;
    }
    let e = digit_run_end_exec(v, i + 5);
    if e < v.len() && v[e] == '}' {
        Some(e + 1)
    } else {
        None
    }
}

/// `v` with every `{shaN}` token replaced by the first `N` characters of `sha`.
fn expand_sha_tokens_exec(v: &Vec<char>, sha: &Vec<char>) -> (r: Vec<char>)
    ensures
        r@ == expand_sha_tokens(v@, sha@),
{
    let mut out: Vec<char> = Vec::new();
    let mut i: usize = 0;
    assert(out@ + expand_sha_tokens_from(v@, sha@, 0) =~= expand_sha_tokens(v@, sha@));
    while i < v.len()
        invariant
            i <= v.len(),
            out@ + expand_sha_tokens_from(v@, sha@, i as int) == expand_sha_tokens(v@, sha@),
        decreases v.len() - i,
    {
        let ghost before = out@;
        match sha_length_token_end_exec(v, i) {
            Some(e) => {
                proof {
                    lemma_digit_run_end(v@, i + 5);
                    assert(all_digits(v@.subrange(i + 4, e - 1)));
                }
                let n = digits_value_capped(v, i + 4, e - 1, sha.len());
                let mut k: usize = 0;
                while k < n
                    invariant
                        k <= n <= sha.len(),
                        out@ == before + sha@.take(k as int),
                    decreases n - k,
                {
                    out.push(sha[k]);
                    k = k + 1;
                    assert(sha@.take(k as int) =~= sha@.take(k - 1).push(sha@[k - 1]));
                }
                assert(sha_prefix(sha@, digits_value(v@.subrange(i + 4, e - 1))) =~= sha@.take(
                    n as int,
                ));
                assert(out@ + expand_sha_tokens_from(v@, sha@, e as int) =~= before
                    + expand_sha_tokens_from(v@, sha@, i as int));
                i = e;
            },
            None => {
                out.push(v[i]);
                assert(out@ + expand_sha_tokens_from(v@, sha@, i + 1) =~= before
                    + expand_sha_tokens_from(v@, sha@, i as int));
                i = i + 1;
            },
        }
    }
    assert(out@ + expand_sha_tokens_from(v@, sha@, i as int) =~= out@);
    out
}

/// Fills in the tokens of `template`: `{date}`, `{rev}` and `{sha}` with the date, the
/// revision count and the full hash, each `{shaN}` with the first `N` characters of the
/// hash, and `{base}` with the package's base version, which is then required.
pub fn render(template: &str, data: &VersionTemplateData<'_>, package: &PackageConfig) -> (r: Result<
    String,
    Error,
>)
    ensures
        match rendered(template@, data.date@, data.revision, data.sha@, base_version_of(*package)) {
            Some(t) => r matches Ok(s) && s@ == t,
            None => r matches Err(e) && e == (Error::MissingBaseVersion { package: package.name }),
        },
{
    let chars = chars_of(template);
    let date_tok = token_exec("{date}");
    let rev_tok = token_exec("{rev}");
    let sha_tok = token_exec("{sha}");
    let base_tok = token_exec("{base}");
    proof {
        reveal_strlit("{date}");
        reveal_strlit("{rev}");
        reveal_strlit("{sha}");
        reveal_strlit("{base}");
    }
    assert(date_tok@ =~= date_token());
    assert(rev_tok@ =~= rev_token());
    assert(sha_tok@ =~= sha_token());
    assert(base_tok@ =~= base_token());
    let with_date = replace_all_exec(&chars, &date_tok, data.date);
    let rev = u64_to_string(data.revision);
    let with_rev = replace_all_exec(&with_date, &rev_tok, rev.as_str());
    let with_sha = replace_all_exec(&with_rev, &sha_tok, data.sha);
    let sha = chars_of(data.sha);
    let expanded = expand_sha_tokens_exec(&with_sha, &sha);
    if contains_exec(&expanded, &base_tok) {
        match &package.base_version {
            Some(base) => {
                let done = replace_all_exec(&expanded, &base_tok, base.as_str());
                Ok(string_of(&done, 0, done.len()))
            },
            None => Err(Error::MissingBaseVersion { package: package.name.clone() }),
        }
    } else {
        Ok(string_of(&expanded, 0, expanded.len()))
    }
}

/// Expanding `{shaN}` tokens passes over characters other than `{` unchanged.
pub proof fn lemma_expand_plain(s: Seq<char>, sha: Seq<char>, i: int, j: int)
    requires
        0 <= i <= j <= s.len(),
        forall|k: int| i <= k < j ==> #[trigger] s[k] != '{',
    ensures
        expand_sha_tokens_from(s, sha, i) == s.subrange(i, j) + expand_sha_tokens_from(s, sha, j),
    decreases j - i,
{
    if i < j {
        if occurs_at(s, sha_open(), i) {
            assert(s.subrange(i, i + 4)[0] == s[i]);
        }
        assert(sha_length_token_end(s, i) is None);
        lemma_expand_plain(s, sha, i + 1, j);
        assert(seq![s[i]] + s.subrange(i + 1, j) =~= s.subrange(i, j));
    } else {
        assert(s.subrange(i, j) =~= Seq::<char>::empty());
    }
}

/// A template that holds no `{` has no tokens and renders to itself.
pub proof fn law_template_without_tokens_renders_unchanged(
    template: Seq<char>,
    date: Seq<char>,
    revision: u64,
    sha: Seq<char>,
    base: Option<Seq<char>>,
)
    requires
        lacks_char(template, '{'),
    ensures
        rendered(template, date, revision, sha, base) == Some(template),
{
    lemma_lacks_first_char(template, date_token());
    lemma_replace_all_absent(template, date_token(), date);
    lemma_lacks_first_char(template, rev_token());
    lemma_replace_all_absent(template, rev_token(), decimal(revision as nat));
    lemma_lacks_first_char(template, sha_token());
    lemma_replace_all_absent(template, sha_token(), sha);
    lemma_expand_plain(template, sha, 0, template.len() as int);
    assert(template.subrange(0, template.len() as int) =~= template);
    assert(template + Seq::<char>::empty() =~= template);
    lemma_lacks_first_char(template, base_token());
}

} // verus!
