use aur_updater::config::{PackageConfig, SourceKind};
use aur_updater::sources::git::{
    clone_args, latest_version, parse_revision, require_git_url, GitHead,
};
use aur_updater::sources::github::{
    authorization_value, release_version, releases_url, select_release, Release,
};
use aur_updater::sources::npm::latest_url;
use aur_updater::sources::normalize_version;
use aur_updater::sources::version_template::{render, VersionTemplateData};
use aur_updater::sources::Error;

fn package() -> PackageConfig {
    PackageConfig {
        name: "example".to_owned(),
        path: "aur/example".to_owned(),
        source: SourceKind::Git,
        enabled: true,
        repo: None,
        npm_package: None,
        git_url: Some("https://example.com/repo.git".to_owned()),
        branch: Some("main".to_owned()),
        version_template: None,
        base_version: Some("0.13.0".to_owned()),
        strip_prefixes: Vec::new(),
        exclude_tags: Vec::new(),
        reset_pkgrel: false,
    }
}

fn release(tag_name: &str, draft: bool, prerelease: bool) -> Release {
    Release {
        tag_name: tag_name.to_owned(),
        prerelease,
        draft,
    }
}

#[test]
fn strips_matching_prefixes_in_order_and_arch_normalizes() {
    let prefixes = vec!["rust-".to_owned(), "v".to_owned()];
    assert_eq!(
        normalize_version("rust-v1.2.3-beta.1", &prefixes),
        "1.2.3_beta.1"
    );
}

#[test]
fn leaves_unmatched_prefixes_alone() {
    let prefixes = vec!["v".to_owned()];
    assert_eq!(
        normalize_version("release-1.2.3", &prefixes),
        "release_1.2.3"
    );
}

#[test]
fn normalize_trims_and_strips_only_in_given_order() {
    let prefixes = vec!["v".to_owned(), "rust-".to_owned()];
    assert_eq!(normalize_version("  rust-v1-2 \n", &prefixes), "v1_2");
    assert_eq!(normalize_version("vv1", &["v".to_owned(), "v".to_owned()]), "1");
    assert_eq!(normalize_version("", &[]), "");
}

#[test]
fn parses_npm_latest_fixture() {
    let latest: serde_json::Value = serde_json::from_str(r#"{"version": "1.2.3-beta.1"}"#).unwrap();
    let version = latest["version"].as_str().unwrap();
    assert_eq!(normalize_version(version, &[]), "1.2.3_beta.1");
}

#[test]
fn skips_drafts_prereleases_and_excluded_tags() {
    let releases = vec![
        release("rust-v1.3.0-nightly", false, false),
        release("rust-v1.2.0", false, true),
        release("rust-v1.1.0", true, false),
        release("rust-v1.0.0", false, false),
    ];

    let exclude_tags = vec!["nightly".to_owned()];
    let selected = select_release(&releases, &exclude_tags).unwrap();

    assert_eq!(selected.tag_name, "rust-v1.0.0");
}

#[test]
fn release_version_normalizes_selected_tag_or_reports_none() {
    let mut package = package();
    package.name = "codex".to_owned();
    package.strip_prefixes = vec!["rust-v".to_owned()];
    package.exclude_tags = vec!["alpha".to_owned()];
    let releases = vec![
        release("rust-v2.0.0-alpha", false, false),
        release("rust-v1.9.0-1", false, false),
    ];
    assert_eq!(release_version(&package, &releases).unwrap(), "1.9.0_1");

    let none = vec![release("rust-v3.0.0", true, false)];
    match release_version(&package, &none) {
        Err(Error::NoSuitableGithubRelease { package }) => assert_eq!(package, "codex"),
        other => panic!("unexpected {:?}", other),
    }
    assert!(select_release(&[], &[]).is_none());
}

#[test]
fn builds_source_urls() {
    let mut package = package();
    package.repo = Some("owner/project".to_owned());
    package.npm_package = Some("@scope/pkg".to_owned());
    assert_eq!(
        releases_url(&package).unwrap(),
        "https://api.github.com/repos/owner/project/releases"
    );
    assert_eq!(
        latest_url(&package).unwrap(),
        "https://registry.npmjs.org/@scope/pkg/latest"
    );
    package.repo = None;
    package.npm_package = None;
    assert!(matches!(releases_url(&package), Err(Error::MissingGithubRepo { .. })));
    assert!(matches!(latest_url(&package), Err(Error::MissingNpmPackage { .. })));
}

#[test]
fn renders_default_git_version_template() {
    let package = PackageConfig {
        name: "example-git".to_owned(),
        path: "aur/example-git".to_owned(),
        source: SourceKind::Git,
        enabled: true,
        repo: None,
        npm_package: None,
        git_url: Some("https://example.com/repo.git".to_owned()),
        branch: Some("master".to_owned()),
        version_template: None,
        base_version: None,
        strip_prefixes: Vec::new(),
        exclude_tags: Vec::new(),
        reset_pkgrel: false,
    };
    let version = render(
        "r{rev}.{sha7}",
        &VersionTemplateData {
            date: "20260502",
            revision: 56,
            sha: "f976305123456789",
        },
        &package,
    )
    .unwrap();

    assert_eq!(version, "r56.f976305");
}

#[test]
fn renders_common_aur_vcs_templates() {
    let data = VersionTemplateData {
        date: "20260423",
        revision: 202,
        sha: "3c06723f0123456789abcdef0123456789abcdef",
    };

    assert_eq!(
        render("{base}.r{rev}.g{sha10}", &data, &package()).unwrap(),
        "0.13.0.r202.g3c06723f01"
    );
    assert_eq!(
        render("{date}.r{rev}.g{sha7}", &data, &package()).unwrap(),
        "20260423.r202.g3c06723"
    );
    assert_eq!(
        render("r{rev}.{sha7}", &data, &package()).unwrap(),
        "r202.3c06723"
    );
    assert_eq!(
        render("r{rev}.{sha40}", &data, &package()).unwrap(),
        "r202.3c06723f0123456789abcdef0123456789abcdef"
    );
}

#[test]
fn renders_seen_aur_git_pkgver_shapes() {
    let cases = [
        (
            "r{rev}.{sha7}",
            VersionTemplateData {
                date: "20260423",
                revision: 150,
                sha: "3a626c5123456789abcdef0123456789abcdef01",
            },
            "r150.3a626c5",
        ),
        (
            "{date}.r{rev}.g{sha7}",
            VersionTemplateData {
                date: "20260423",
                revision: 0,
                sha: "5e7cef3123456789abcdef0123456789abcdef01",
            },
            "20260423.r0.g5e7cef3",
        ),
        (
            "r{rev}.{sha9}",
            VersionTemplateData {
                date: "20260423",
                revision: 11002,
                sha: "cdabad3d0123456789abcdef0123456789abcdef",
            },
            "r11002.cdabad3d0",
        ),
        (
            "{base}.r{rev}.g{sha10}",
            VersionTemplateData {
                date: "20260423",
                revision: 202,
                sha: "c3c06723f0123456789abcdef0123456789abcdef",
            },
            "0.13.0.r202.gc3c06723f0",
        ),
        (
            "r{rev}.{sha7}",
            VersionTemplateData {
                date: "20260423",
                revision: 56,
                sha: "f976305123456789abcdef0123456789abcdef01",
            },
            "r56.f976305",
        ),
    ];

    for (template, data, expected) in cases {
        assert_eq!(render(template, &data, &package()).unwrap(), expected);
    }
}

#[test]
fn render_edge_cases() {
    let data = VersionTemplateData {
        date: "20260101",
        revision: 18446744073709551615,
        sha: "abc",
    };
    let package = package();
    // Longer than the hash, huge, or with a leading zero.
    assert_eq!(render("{sha9}", &data, &package).unwrap(), "abc");
    assert_eq!(
        render("{sha99999999999999999999999}", &data, &package).unwrap(),
        "abc"
    );
    assert_eq!(render("{sha0}{sha01}", &data, &package).unwrap(), "{sha0}{sha01}");
    assert_eq!(render("{sha2x}{sha", &data, &package).unwrap(), "{sha2x}{sha");
    assert_eq!(render("{rev}", &data, &package).unwrap(), "18446744073709551615");
    assert_eq!(render("{sha}-{date}", &data, &package).unwrap(), "abc-20260101");

    let mut no_base = package.clone();
    no_base.base_version = None;
    match render("{base}.r{rev}", &data, &no_base) {
        Err(Error::MissingBaseVersion { package }) => assert_eq!(package, "example"),
        other => panic!("unexpected {:?}", other),
    }
    assert_eq!(render("r{rev}", &data, &no_base).unwrap(), "r18446744073709551615");
}

#[test]
fn git_version_from_head() {
    let mut package = package();
    package.strip_prefixes = vec!["r".to_owned()];
    let head = GitHead {
        revision: "12".to_owned(),
        sha: "0123456789abcdef".to_owned(),
        date: "20250102".to_owned(),
    };
    assert_eq!(latest_version(&package, &head).unwrap(), "12.0123456");

    package.version_template = Some("{date}-{sha4}".to_owned());
    assert_eq!(latest_version(&package, &head).unwrap(), "20250102_0123");

    let bad_revision = GitHead {
        revision: "12a".to_owned(),
        sha: "0".to_owned(),
        date: "20250102".to_owned(),
    };
    match latest_version(&package, &bad_revision) {
        Err(Error::InvalidGitRevision { revision, .. }) => assert_eq!(revision, "12a"),
        other => panic!("unexpected {:?}", other),
    }
    let bad_date = GitHead {
        revision: "+3".to_owned(),
        sha: "0".to_owned(),
        date: "2025-01-02".to_owned(),
    };
    match latest_version(&package, &bad_date) {
        Err(Error::InvalidGitCommitDate { date, .. }) => assert_eq!(date, "2025-01-02"),
        other => panic!("unexpected {:?}", other),
    }
}

#[test]
fn git_package_without_url_is_refused_first() {
    let mut package = package();
    assert_eq!(require_git_url(&package).unwrap(), "https://example.com/repo.git");
    package.git_url = None;
    match require_git_url(&package) {
        Err(Error::MissingGitUrl { package }) => assert_eq!(package, "example"),
        other => panic!("unexpected {:?}", other),
    }
    let head = GitHead { revision: "x".to_owned(), sha: "0".to_owned(), date: "bad".to_owned() };
    match latest_version(&package, &head) {
        Err(Error::MissingGitUrl { package }) => assert_eq!(package, "example"),
        other => panic!("unexpected {:?}", other),
    }
}

#[test]
fn parses_revisions_like_std() {
    let package = package();
    for text in ["0", "+7", "007", "18446744073709551615"] {
        assert_eq!(
            parse_revision(&package, &text.to_owned()).unwrap(),
            text.parse::<u64>().unwrap()
        );
    }
    for text in ["", "+", "-1", " 1", "18446744073709551616", "1.0"] {
        assert!(text.parse::<u64>().is_err());
        assert!(parse_revision(&package, &text.to_owned()).is_err());
    }
}

#[test]
fn builds_clone_arguments() {
    let mut package = package();
    assert_eq!(
        clone_args(&package, "/tmp/x").unwrap(),
        vec![
            "clone",
            "--filter=blob:none",
            "--single-branch",
            "--branch",
            "main",
            "https://example.com/repo.git",
            "/tmp/x"
        ]
    );
    package.branch = None;
    assert_eq!(
        clone_args(&package, "dir").unwrap(),
        vec!["clone", "--filter=blob:none", "https://example.com/repo.git", "dir"]
    );
    package.git_url = None;
    assert!(matches!(clone_args(&package, "dir"), Err(Error::MissingGitUrl { .. })));
}

#[test]
fn github_authorization_header() {
    assert!(authorization_value(None).unwrap().is_none());
    assert!(authorization_value(Some(" \t".to_owned())).unwrap().is_none());
    let value = authorization_value(Some("ghp_abc".to_owned())).unwrap().unwrap();
    assert_eq!(value, reqwest::header::HeaderValue::from_static("Bearer ghp_abc"));
    assert!(matches!(
        authorization_value(Some("bad\ntoken".to_owned())),
        Err(Error::InvalidGithubToken { .. })
    ));
    let unicode = authorization_value(Some("tökén".to_owned())).unwrap().unwrap();
    assert_eq!(unicode.as_bytes(), "Bearer tökén".as_bytes());
}
