//! GitHub releases: which release counts as the newest, and the version it gives.
use vstd::prelude::*;

use reqwest::header::{HeaderValue, InvalidHeaderValue};

use crate::config::PackageConfig;
use crate::text::{chars_of, contains, contains_exec, is_blank, is_blank_str, occurs_at};

use super::{normalize_version, normalized_version, Error};

verus! {

/// The parts of a GitHub release that matter here.
#[derive(Debug, Clone)]
pub struct Release {
    pub tag_name: String,
    pub prerelease: bool,
    pub draft: bool,
}

/// A release that may be used: neither a draft nor a prerelease, and its tag contains none
/// of the excluded texts.
pub open spec fn is_suitable(release: Release, exclude_tags: Seq<String>) -> bool {
    &&& !release.draft
    &&& !release.prerelease
    &&& forall|i: int| 0 <= i < exclude_tags.len() ==> !contains(release.tag_name@, #[trigger] exclude_tags[i]@)
}

/// The releases URL of the GitHub repository `repo`.
pub open spec fn releases_url_of(repo: Seq<char>) -> Seq<char> {
    "https://api.github.com/repos/"@ + repo + "/releases"@
}

/// Whether `tag` contains one of `texts`.
fn contains_any(tag: &String, texts: &[String]) -> (b: bool)
    ensures
        b == exists|i: int| 0 <= i < texts@.len() && contains(tag@, #[trigger] texts@[i]@),
{
    let chars = chars_of(tag.as_str());
    let mut k: usize = 0;
    while k < texts.len()
        invariant
            k <= texts@.len(),
            chars@ == tag@,
            forall|m: int| 0 <= m < k ==> !contains(tag@, #[trigger] texts@[m]@),
        decreases texts.len() - k,
    {
        let text = chars_of(texts[k].as_str());
        if contains_exec(&chars, &text) {
            return true;
        }
        k = k + 1;
    }
    false
}

/// The first suitable release, in the order GitHub lists them (newest first).
pub fn select_release<'a>(releases: &'a [Release], exclude_tags: &[String]) -> (r: Option<
    &'a Release,
>)
    ensures
        match r {
            Some(release) => exists|i: int|
                0 <= i < releases@.len() && *release == releases@[i] && is_suitable(
                    releases@[i],
                    exclude_tags@,
                ) && forall|j: int|
                    0 <= j < i ==> !is_suitable(#[trigger] releases@[j], exclude_tags@),
            None => forall|i: int|
                0 <= i < releases@.len() ==> !is_suitable(#[trigger] releases@[i], exclude_tags@),
        },
{
    let mut i: usize = 0;
    while i < releases.len()
        invariant
            i <= releases@.len(),
            forall|j: int| 0 <= j < i ==> !is_suitable(#[trigger] releases@[j], exclude_tags@),
        decreases releases.len() - i,
    {
        let release = &releases[i];
        if !release.draft && !release.prerelease && !contains_any(&release.tag_name, exclude_tags) {
            assert(is_suitable(releases@[i as int], exclude_tags@));
            return Some(release);
        }
        i = i + 1;
    }
    None
}

/// The release that selection settles on, `releases[i]` (the first suitable one), is neither a
/// draft nor a prerelease, and no excluded text occurs anywhere in its tag; every release listed
/// before it is a draft, a prerelease, or has an excluded text somewhere in its tag.
pub proof fn law_selected_release_avoids_excluded_texts(
    releases: Seq<Release>,
    exclude_tags: Seq<String>,
    i: int,
)
    requires
        0 <= i < releases.len(),
        is_suitable(releases[i], exclude_tags),
        forall|j: int| 0 <= j < i ==> !is_suitable(#[trigger] releases[j], exclude_tags),
    ensures
        !releases[i].draft,
        !releases[i].prerelease,
        forall|x: int, p: int|
            0 <= x < exclude_tags.len() ==> !#[trigger] occurs_at(releases[i].tag_name@, exclude_tags[x]@, p),
        forall|j: int|
            0 <= j < i ==> (#[trigger] releases[j]).draft || releases[j].prerelease || exists|x: int, p: int|
                0 <= x < exclude_tags.len() && #[trigger] occurs_at(releases[j].tag_name@, exclude_tags[x]@, p),
{
    assert forall|x: int, p: int|
        0 <= x < exclude_tags.len() implies !#[trigger] occurs_at(releases[i].tag_name@, exclude_tags[x]@, p) by {
        assert(!contains(releases[i].tag_name@, exclude_tags[x]@));
    }
    assert forall|j: int| 0 <= j < i implies (#[trigger] releases[j]).draft || releases[j].prerelease || exists|x: int, p: int|
        0 <= x < exclude_tags.len() && #[trigger] occurs_at(releases[j].tag_name@, exclude_tags[x]@, p) by {
        assert(!is_suitable(releases[j], exclude_tags));
        if !releases[j].draft && !releases[j].prerelease {
            let x = choose|x: int| 0 <= x < exclude_tags.len() && contains(releases[j].tag_name@, #[trigger] exclude_tags[x]@);
            let p = choose|p: int| occurs_at(releases[j].tag_name@, exclude_tags[x]@, p);
            assert(occurs_at(releases[j].tag_name@, exclude_tags[x]@, p));
        }
    }
}

/// The URL that lists the releases of the package's repository; the package needs a `repo`.
pub fn releases_url(package: &PackageConfig) -> (r: Result<String, Error>)
    ensures
        match package.repo {
            Some(repo) => r matches Ok(url) && url@ == releases_url_of(repo@),
            None => r matches Err(e) && e == (Error::MissingGithubRepo { package: package.name }),
        },
{
    match &package.repo {
        None => Err(Error::MissingGithubRepo { package: package.name.clone() }),
        Some(repo) => {
            let mut url = String::new();
            url.append("https://api.github.com/repos/");
            url.append(repo.as_str());
            url.append("/releases");
            Ok(url)
        },
    }
}

/// The version of the newest suitable release of the package, normalized; fails with
/// `NoSuitableGithubRelease` exactly when no release is suitable.
pub fn release_version(package: &PackageConfig, releases: &[Release]) -> (r: Result<String, Error>)
    ensures
        match r {
            Ok(v) => exists|i: int|
                0 <= i < releases@.len() && is_suitable(releases@[i], package.exclude_tags@)
                    && v@ == normalized_version(releases@[i].tag_name@, package.strip_prefixes@)
                    && forall|j: int|
                    0 <= j < i ==> !is_suitable(#[trigger] releases@[j], package.exclude_tags@),
            Err(e) => e == (Error::NoSuitableGithubRelease { package: package.name })
                && forall|i: int|
                0 <= i < releases@.len() ==> !is_suitable(
                    #[trigger] releases@[i],
                    package.exclude_tags@,
                ),
        },
{
    match select_release(releases, package.exclude_tags.as_slice()) {
        None => Err(Error::NoSuitableGithubRelease { package: package.name.clone() }),
        Some(release) => Ok(normalize_version(release.tag_name.as_str(), package.strip_prefixes.as_slice())),
    }
}

#[verifier::external_type_specification]
#[verifier::external_body]
pub struct ExHeaderValue(HeaderValue);

#[verifier::external_type_specification]
#[verifier::external_body]
pub struct ExInvalidHeaderValue(InvalidHeaderValue);

/// A character that an HTTP header value may hold: a tab, or any character from the space
/// on except DEL.
pub open spec fn is_header_value_char(c: char) -> bool {
    c == '\t' || (' ' <= c && c != '\u{7f}')
}

/// The header value that `HeaderValue::from_str` makes of `text`.
pub uninterp spec fn header_value_from(text: Seq<char>) -> HeaderValue;

/// `HeaderValue::from_str` (of the `http` crate, re-exported by `reqwest`). Its source accepts a
/// string exactly when every byte of its UTF-8 encoding is a tab, or at least 32 and not 127;
/// as every byte of a character from U+0080 on is at least 128, that is exactly when every
/// character is a header value character. The value it makes is named, not described.
#[verifier::external_body]
fn header_value_from_str(text: &str) -> (r: Result<HeaderValue, InvalidHeaderValue>)
    ensures
        r is Ok <==> forall|i: int| 0 <= i < text@.len() ==> is_header_value_char(#[trigger] text@[i]),
        r matches Ok(value) ==> value == header_value_from(text@),
{
    HeaderValue::from_str(text)
}

/// The `Authorization` header value for GitHub requests made with `token` (the value of
/// `GITHUB_TOKEN`, when set): none for a missing or blank token, `Bearer <token>` otherwise;
/// a token with characters that a header cannot hold is refused.
pub fn authorization_value(token: Option<String>) -> (r: Result<Option<HeaderValue>, Error>)
    ensures
        match token {
            None => r matches Ok(None),
            Some(t) => if is_blank(t@) {
                r matches Ok(None)
            } else if forall|i: int|
                0 <= i < ("Bearer "@ + t@).len() ==> is_header_value_char(
                    #[trigger] ("Bearer "@ + t@)[i],
                ) {
                r == Ok::<Option<HeaderValue>, Error>(Some(header_value_from("Bearer "@ + t@)))
            } else {
                r matches Err(Error::InvalidGithubToken { .. })
            },
        },
{
    match token {
        None => Ok(None),
        Some(t) => {
            if is_blank_str(t.as_str()) {
                return Ok(None);
            }
            let mut text = String::new();
            text.append("Bearer ");
            text.append(t.as_str());
            match header_value_from_str(text.as_str()) {
                Ok(value) => Ok(Some(value)),
                Err(source) => Err(Error::InvalidGithubToken { source }),
            }
        },
    }
}

} // verus!
