use aur_updater::config::{default_enabled, Config, Error, PackageConfig, SourceKind};

fn package(name: &str, source: SourceKind) -> PackageConfig {
    PackageConfig {
        name: name.to_owned(),
        path: format!("aur/{name}"),
        source,
        enabled: default_enabled(),
        repo: None,
        npm_package: None,
        git_url: None,
        branch: None,
        version_template: None,
        base_version: None,
        strip_prefixes: Vec::new(),
        exclude_tags: Vec::new(),
        reset_pkgrel: false,
    }
}

#[test]
fn validates_required_source_fields() {
    // [[package]] name = "broken", path = "aur/broken", source = "github_release"
    let config = Config {
        packages: vec![package("broken", SourceKind::GithubRelease)],
    };

    assert!(config.validate().is_err());
}

#[test]
fn packages_are_enabled_by_default() {
    assert!(default_enabled());
}

#[test]
fn validation_reports_each_problem() {
    assert!(matches!(
        Config { packages: Vec::new() }.validate(),
        Err(Error::EmptyConfig)
    ));

    let mut blank_name = package(" \t", SourceKind::Npm);
    blank_name.npm_package = Some("x".to_owned());
    assert!(matches!(
        Config { packages: vec![blank_name] }.validate(),
        Err(Error::EmptyPackageName)
    ));

    let mut blank_path = package("p", SourceKind::Npm);
    blank_path.path = "   ".to_owned();
    match (Config { packages: vec![blank_path] }).validate() {
        Err(Error::MissingPackagePath { package }) => assert_eq!(package, "p"),
        other => panic!("unexpected {:?}", other),
    }

    let mut needs_base = package("b", SourceKind::Git);
    needs_base.git_url = Some("https://example.com/b.git".to_owned());
    needs_base.version_template = Some("{base}.r{rev}".to_owned());
    needs_base.base_version = Some(" ".to_owned());
    assert!(matches!(
        Config { packages: vec![needs_base] }.validate(),
        Err(Error::MissingBaseVersion { .. })
    ));

    let blank_git = package("g", SourceKind::Git);
    assert!(matches!(
        Config { packages: vec![blank_git] }.validate(),
        Err(Error::MissingGitUrl { .. })
    ));

    let mut blank_npm = package("n", SourceKind::Npm);
    blank_npm.npm_package = Some("".to_owned());
    assert!(matches!(
        Config { packages: vec![blank_npm] }.validate(),
        Err(Error::MissingNpmPackage { .. })
    ));
}

#[test]
fn validation_accepts_complete_settings_and_reports_first_problem() {
    let mut github = package("gh", SourceKind::GithubRelease);
    github.repo = Some("owner/project".to_owned());
    let mut npm = package("npm", SourceKind::Npm);
    npm.npm_package = Some("@scope/package".to_owned());
    let mut git = package("git", SourceKind::Git);
    git.git_url = Some("https://example.com/p.git".to_owned());
    git.version_template = Some("{base}.r{rev}".to_owned());
    git.base_version = Some("1.0".to_owned());
    let config = Config {
        packages: vec![github.clone(), npm.clone(), git.clone()],
    };
    assert!(config.validate().is_ok());

    let broken_first = package("first", SourceKind::GithubRelease);
    let broken_second = package("second", SourceKind::Npm);
    let config = Config {
        packages: vec![github, broken_first, broken_second],
    };
    match config.validate() {
        Err(Error::MissingGithubRepo { package }) => assert_eq!(package, "first"),
        other => panic!("unexpected {:?}", other),
    }
}
