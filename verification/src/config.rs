//! The package settings (`[[package]]` entries) and the rules they must meet.
use vstd::prelude::*;

use crate::text::{contains, contains_str, is_blank, is_blank_str, is_white_space, occurs_at};

verus! {

/// Where the newest upstream version of a package comes from.
#[derive(Debug, Clone, Copy, PartialEq, Eq, Structural)]
pub enum SourceKind {
    /// The newest non-draft, non-prerelease GitHub release.
    GithubRelease,
    /// A version computed from the head of a git branch.
    Git,
    /// The npm registry's `latest` version.
    Npm,
}

/// The settings of one package.
#[derive(Debug, Clone)]
pub struct PackageConfig {
    pub name: String,
    pub path: String,
    pub source: SourceKind,
    pub enabled: bool,
    pub repo: Option<String>,
    pub npm_package: Option<String>,
    pub git_url: Option<String>,
    pub branch: Option<String>,
    pub version_template: Option<String>,
    pub base_version: Option<String>,
    pub strip_prefixes: Vec<String>,
    pub exclude_tags: Vec<String>,
    pub reset_pkgrel: bool,
}

/// The whole settings file.
#[derive(Debug)]
pub struct Config {
    pub packages: Vec<PackageConfig>,
}

/// What can be wrong with the settings.
#[derive(Debug)]
pub enum Error {
    /// The settings file at `path` could not be read.
    Read { path: String, message: String },
    /// The settings file at `path` is not valid TOML for the settings.
    Parse { path: String, message: String },
    /// There is no `[[package]]` entry.
    EmptyConfig,
    /// A package's name is blank.
    EmptyPackageName,
    /// A package's path is blank.
    MissingPackagePath { package: String },
    /// A `github_release` package has no (or a blank) `repo`.
    MissingGithubRepo { package: String },
    /// A `git` package has no (or a blank) `git_url`.
    MissingGitUrl { package: String },
    /// A package's `version_template` uses `{base}` but its `base_version` is missing or blank.
    MissingBaseVersion { package: String },
    /// An `npm` package has no (or a blank) `npm_package`.
    MissingNpmPackage { package: String },
}

/// The text `{base}`.
pub open spec fn base_token() -> Seq<char> {
    seq!['{', 'b', 'a', 's', 'e', '}']
}

/// An optional setting that is absent or blank.
pub open spec fn is_blank_setting(setting: Option<String>) -> bool {
    match setting {
        Some(s) => is_blank(s@),
        None => true,
    }
}

/// The package's version template mentions `{base}`.
pub open spec fn template_uses_base(package: PackageConfig) -> bool {
    match package.version_template {
        Some(t) => contains(t@, base_token()),
        None => false,
    }
}

/// The first rule that `package` breaks, in the order in which they are checked: a name,
/// a path, a base version where the template needs one, then the setting its source needs.
pub open spec fn package_problem(package: PackageConfig) -> Option<Error> {
    if is_blank(package.name@) {
        Some(Error::EmptyPackageName)
    } else if is_blank(package.path@) {
        Some(Error::MissingPackagePath { package: package.name })
    } else if template_uses_base(package) && is_blank_setting(package.base_version) {
        Some(Error::MissingBaseVersion { package: package.name })
    } else {
        match package.source {
            SourceKind::GithubRelease => if is_blank_setting(package.repo) {
                Some(Error::MissingGithubRepo { package: package.name })
            } else {
                None
            },
            SourceKind::Git => if is_blank_setting(package.git_url) {
                Some(Error::MissingGitUrl { package: package.name })
            } else {
                None
            },
            SourceKind::Npm => if is_blank_setting(package.npm_package) {
                Some(Error::MissingNpmPackage { package: package.name })
            } else {
                None
            },
        }
    }
}

/// The problem of the first package in `packages` that has one.
pub open spec fn first_package_problem(packages: Seq<PackageConfig>) -> Option<Error>
    decreases packages.len(),
{
    if packages.len() == 0 {
        None
    } else {
        match package_problem(packages[0]) {
            Some(e) => Some(e),
            None => first_package_problem(packages.drop_first()),
        }
    }
}

/// What validation of `packages` answers.
pub open spec fn validation(packages: Seq<PackageConfig>) -> Result<(), Error> {
    if packages.len() == 0 {
        Err(Error::EmptyConfig)
    } else {
        match first_package_problem(packages) {
            Some(e) => Err(e),
            None => Ok(()),
        }
    }
}

/// `first_package_problem` is the problem of the first package that has one, and `None`
/// exactly when no package has one.
proof fn lemma_first_package_problem(packages: Seq<PackageConfig>)
    ensures
        first_package_problem(packages) is None <==> forall|i: int|
            0 <= i < packages.len() ==> package_problem(#[trigger] packages[i]) is None,
        first_package_problem(packages) matches Some(e) ==> exists|i: int|
            0 <= i < packages.len() && package_problem(#[trigger] packages[i]) == Some(e)
                && forall|j: int| 0 <= j < i ==> package_problem(#[trigger] packages[j]) is None,
    decreases packages.len(),
{
    if packages.len() > 0 {
        let rest = packages.drop_first();
        lemma_first_package_problem(rest);
        if package_problem(packages[0]) is None {
            assert forall|i: int|
                0 < i < packages.len() implies package_problem(#[trigger] packages[i]) == package_problem(
                rest[i - 1],
            ) by {
                assert(packages[i] == rest[i - 1]);
            }
            if first_package_problem(rest) is None {
                assert forall|i: int| 0 <= i < packages.len() implies package_problem(
                    #[trigger] packages[i],
                ) is None by {
                    if i > 0 {
                        assert(package_problem(rest[i - 1]) is None);
                    }
                }
            } else {
                let e = first_package_problem(rest)->0;
                let i = choose|i: int|
                    0 <= i < rest.len() && package_problem(#[trigger] rest[i]) == Some(e) && forall|
                        j: int,
                    | 0 <= j < i ==> package_problem(#[trigger] rest[j]) is None;
                assert(packages[i + 1] == rest[i]);
                assert forall|j: int| 0 <= j < i + 1 implies package_problem(
                    #[trigger] packages[j],
                ) is None by {
                    if j > 0 {
                        assert(packages[j] == rest[j - 1]);
                    }
                }
                assert(!(package_problem(rest[i]) is None));
            }
        } else {
            assert(package_problem(packages[0]) == Some(package_problem(packages[0])->0));
        }
    }
}

fn base_token_exec() -> (r: String)
    ensures
        r@ == base_token(),
{
    let mut r = String::new();
    crate::text::push_char(&mut r, '{');
    crate::text::push_char(&mut r, 'b');
    crate::text::push_char(&mut r, 'a');
    crate::text::push_char(&mut r, 's');
    crate::text::push_char(&mut r, 'e');
    crate::text::push_char(&mut r, '}');
    assert(r@ =~= base_token());
    r
}

/// Whether an optional setting is absent or blank.
pub fn blank_setting(setting: &Option<String>) -> (b: bool)
    ensures
        b == is_blank_setting(*setting),
{
    match setting {
        Some(s) => is_blank_str(s.as_str()),
        None => true,
    }
}

/// The first rule that `package` breaks.
pub fn check_package(package: &PackageConfig) -> (r: Option<Error>)
    ensures
        r == package_problem(*package),
{
    if is_blank_str(package.name.as_str()) {
        return Some(Error::EmptyPackageName);
    }
    if is_blank_str(package.path.as_str()) {
        return Some(Error::MissingPackagePath { package: package.name.clone() });
    }
    let uses_base = match &package.version_template {
        Some(t) => {
            let token = base_token_exec();
            contains_str(t.as_str(), token.as_str())
        },
        None => false,
    };
    if uses_base && blank_setting(&package.base_version) {
        return Some(Error::MissingBaseVersion { package: package.name.clone() });
    }
    match package.source {
        SourceKind::GithubRelease => if blank_setting(&package.repo) {
            Some(Error::MissingGithubRepo { package: package.name.clone() })
        } else {
            None
        },
        SourceKind::Git => if blank_setting(&package.git_url) {
            Some(Error::MissingGitUrl { package: package.name.clone() })
        } else {
            None
        },
        SourceKind::Npm => if blank_setting(&package.npm_package) {
            Some(Error::MissingNpmPackage { package: package.name.clone() })
        } else {
            None
        },
    }
}

impl Config {
    /// Checks the settings: there is at least one package, and every package meets the rules
    /// of `package_problem`; the error is the first problem found, package by package.
    pub fn validate(&self) -> (r: Result<(), Error>)
        ensures
            r == validation(self.packages@),
    {
        if self.packages.len() == 0 {
            return Err(Error::EmptyConfig);
        }
        let mut i: usize = 0;
        assert(self.packages@.skip(0) =~= self.packages@);
        while i < self.packages.len()
            invariant
                i <= self.packages.len(),
                first_package_problem(self.packages@) == first_package_problem(
                    self.packages@.skip(i as int),
                ),
            decreases self.packages.len() - i,
        {
            let ghost rest = self.packages@.skip(i as int);
            assert(rest[0] == self.packages@[i as int]);
            match check_package(&self.packages[i]) {
                Some(e) => {
                    return Err(e);
                },
                None => {},
            }
            assert(rest.drop_first() =~= self.packages@.skip(i + 1));
            i = i + 1;
        }
        assert(self.packages@.skip(i as int) =~= Seq::<PackageConfig>::empty());
        Ok(())
    }
}

/// The value of `enabled` for a package that does not set it.
pub fn default_enabled() -> (r: bool)
    ensures
        r,
{
    true
}

/// Validation accepts exactly the settings that hold at least one package, every one of which
/// meets the rules; otherwise it reports that there is no package, or the problem of the first
/// package that has one.
pub proof fn law_validation_reports_first_problem(packages: Seq<PackageConfig>)
    ensures
        validation(packages) is Ok <==> packages.len() > 0 && forall|i: int|
            0 <= i < packages.len() ==> package_problem(#[trigger] packages[i]) is None,
        packages.len() == 0 ==> validation(packages) == Err::<(), Error>(Error::EmptyConfig),
        packages.len() > 0 && validation(packages) is Err ==> exists|i: int|
            0 <= i < packages.len() && validation(packages) == Err::<(), Error>(
                package_problem(#[trigger] packages[i])->0,
            ) && package_problem(packages[i]) is Some && forall|j: int|
                0 <= j < i ==> package_problem(#[trigger] packages[j]) is None,
{
    lemma_first_package_problem(packages);
}

/// A package whose version template has `{base}` somewhere in it, and whose base version is
/// absent or consists of white space only, fails validation with `MissingBaseVersion` once its
/// name and path are set and every package before it is valid, whatever its source.
pub proof fn law_template_with_base_needs_base_version(packages: Seq<PackageConfig>, i: int, at: int)
    requires
        0 <= i < packages.len(),
        forall|j: int| 0 <= j < i ==> package_problem(#[trigger] packages[j]) is None,
        !is_blank(packages[i].name@),
        !is_blank(packages[i].path@),
        packages[i].version_template matches Some(t) && occurs_at(t@, seq!['{', 'b', 'a', 's', 'e', '}'], at),
        match packages[i].base_version {
            Some(b) => forall|k: int| 0 <= k < b@.len() ==> is_white_space(#[trigger] b@[k]),
            None => true,
        },
    ensures
        validation(packages) == Err::<(), Error>(Error::MissingBaseVersion { package: packages[i].name }),
{
    let t = packages[i].version_template->0;
    assert(contains(t@, base_token()));
    match packages[i].base_version {
        Some(b) => {
            crate::text::lemma_white_space_is_blank(b@);
        },
        None => {},
    }
    assert(package_problem(packages[i]) == Some(Error::MissingBaseVersion { package: packages[i].name }));
    lemma_first_package_problem(packages);
    if first_package_problem(packages) is None {
        assert(package_problem(packages[i]) is None);
    } else {
        let e = first_package_problem(packages)->0;
        let m = choose|m: int|
            0 <= m < packages.len() && package_problem(#[trigger] packages[m]) == Some(e)
                && forall|j: int| 0 <= j < m ==> package_problem(#[trigger] packages[j]) is None;
        if m < i {
            assert(package_problem(packages[m]) is None);
        } else if m > i {
            assert(package_problem(packages[i]) is None);
        }
    }
}

} // verus!
