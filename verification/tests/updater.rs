use aur_updater::config::{Config, PackageConfig, SourceKind};
use aur_updater::updater::{
    selected_packages, summary_lines, Action, ChangedPackage, Error, Event, LogLevel, PackageOutcome,
    RunOptions, Step, UpdateRun, UpdateSummary,
};

fn package(name: &str, enabled: bool, reset_pkgrel: bool) -> PackageConfig {
    PackageConfig {
        name: name.to_owned(),
        path: format!("aur/{name}"),
        source: SourceKind::Npm,
        enabled,
        repo: None,
        npm_package: Some(name.to_owned()),
        git_url: None,
        branch: None,
        version_template: None,
        base_version: None,
        strip_prefixes: Vec::new(),
        exclude_tags: Vec::new(),
        reset_pkgrel,
    }
}

fn options(dry_run: bool, filter: Option<&str>, out: Option<&str>) -> RunOptions {
    RunOptions {
        config_path: "packages.toml".to_owned(),
        package_filter: filter.map(str::to_owned),
        dry_run,
        changed_packages_out: out.map(str::to_owned),
    }
}

fn messages(step: &Step) -> Vec<(LogLevel, String)> {
    step.logs.iter().map(|l| (l.level, l.message.clone())).collect()
}

#[test]
fn writes_changed_packages_with_new_versions() {
    let summary = UpdateSummary {
        changed_packages: vec![
            ChangedPackage {
                name: "first".to_owned(),
                old_version: "1.0.0".to_owned(),
                new_version: "1.1.0".to_owned(),
            },
            ChangedPackage {
                name: "second".to_owned(),
                old_version: "2.0.0".to_owned(),
                new_version: "2.1.0".to_owned(),
            },
        ],
    };

    assert_eq!(
        summary.changed_packages_contents(),
        "first\t1.1.0\nsecond\t2.1.0\n"
    );
}

#[test]
fn writes_empty_changed_package_file_when_nothing_changed() {
    let summary = UpdateSummary {
        changed_packages: Vec::new(),
    };

    assert_eq!(summary.changed_packages_contents(), "");
}

#[test]
fn summary_keeps_changed_outcomes_in_order() {
    let outcomes = vec![
        PackageOutcome { name: "a".into(), old_version: "1".into(), new_version: "2".into(), changed: true },
        PackageOutcome { name: "b".into(), old_version: "3".into(), new_version: "3".into(), changed: false },
        PackageOutcome { name: "c".into(), old_version: "4".into(), new_version: "5".into(), changed: true },
    ];
    let summary = UpdateSummary::from_outcomes(&outcomes);
    let names: Vec<&str> = summary.changed_packages.iter().map(|c| c.name.as_str()).collect();
    assert_eq!(names, vec!["a", "c"]);
    assert_eq!(summary.changed_packages[1].old_version, "4");

    let lines = summary_lines(&summary, true);
    let texts: Vec<(LogLevel, &str)> = lines.iter().map(|l| (l.level, l.message.as_str())).collect();
    assert_eq!(
        texts,
        vec![
            (LogLevel::Warn, "Dry run: no files were changed."),
            (LogLevel::Info, "Planned package updates:"),
            (LogLevel::Info, "  - a: 1 -> 2"),
            (LogLevel::Info, "  - c: 4 -> 5"),
        ]
    );
    let none = summary_lines(&UpdateSummary { changed_packages: Vec::new() }, false);
    assert_eq!(none.len(), 1);
    assert_eq!(none[0].message, "No updates were necessary.");
}

#[test]
fn selects_enabled_packages_by_name() {
    let config = Config {
        packages: vec![package("a", true, false), package("b", false, false), package("c", true, false)],
    };
    let all: Vec<&str> = selected_packages(&config, None)
        .unwrap()
        .iter()
        .map(|p| p.name.as_str())
        .collect();
    assert_eq!(all, vec!["a", "c"]);
    let one: Vec<&str> = selected_packages(&config, Some("c"))
        .unwrap()
        .iter()
        .map(|p| p.name.as_str())
        .collect();
    assert_eq!(one, vec!["c"]);
    match selected_packages(&config, Some("b")) {
        Err(Error::PackageNotFound { package }) => assert_eq!(package, "b"),
        other => panic!("unexpected {:?}", other.map(|v| v.len())),
    }
    let disabled = Config { packages: vec![package("b", false, false)] };
    assert!(matches!(selected_packages(&disabled, None), Err(Error::NoEnabledPackages)));
}

#[test]
fn full_run_updates_changed_package() {
    let config = Config {
        packages: vec![package("same", true, false), package("newer", true, true)],
    };
    let (mut run, step) = UpdateRun::start(options(false, None, Some("changed.txt")), config);
    assert!(matches!(step.action, Action::OpenSources));

    let step = run.step(Event::SourcesOpened(Ok(())));
    match &step.action {
        Action::InspectPackage { dir } => assert_eq!(dir, "aur/same"),
        other => panic!("unexpected {:?}", other),
    }
    let step = run.step(Event::PackageInspected {
        dir_exists: true,
        pkgbuild_path: "aur/same/PKGBUILD".into(),
        pkgbuild_exists: true,
    });
    assert!(matches!(step.action, Action::ReadPkgbuild { .. }));
    let step = run.step(Event::PkgbuildRead(Ok("pkgver=1.0\npkgrel=2\n".into())));
    assert!(matches!(step.action, Action::FetchLatestVersion { package: 0 }));
    let step = run.step(Event::LatestVersion(Ok("1.0".into())));
    assert_eq!(
        messages(&step),
        vec![(LogLevel::Info, "[same] already up to date (1.0)".to_owned())]
    );
    assert!(matches!(step.action, Action::InspectPackage { .. }));

    run.step(Event::PackageInspected {
        dir_exists: true,
        pkgbuild_path: "aur/newer/PKGBUILD".into(),
        pkgbuild_exists: true,
    });
    let step = run.step(Event::PkgbuildRead(Ok("pkgver=1.0\npkgrel=2\n".into())));
    assert!(matches!(step.action, Action::FetchLatestVersion { package: 1 }));
    let step = run.step(Event::LatestVersion(Ok("1.1".into())));
    assert_eq!(
        messages(&step),
        vec![(LogLevel::Info, "[newer] updating PKGBUILD from 1.0 to 1.1".to_owned())]
    );
    match &step.action {
        Action::ReadPkgbuild { path } => assert_eq!(path, "aur/newer/PKGBUILD"),
        other => panic!("unexpected {:?}", other),
    }
    // The PKGBUILD is read again just before it is written: the update applies to what it
    // holds then.
    let step = run.step(Event::PkgbuildRead(Ok("pkgver=1.0\npkgrel=3\n# edited\n".into())));
    assert!(step.logs.is_empty());
    match &step.action {
        Action::WritePkgbuild { path, contents } => {
            assert_eq!(path, "aur/newer/PKGBUILD");
            assert_eq!(contents, "pkgver=1.1\npkgrel=1\n# edited\n");
        }
        other => panic!("unexpected {:?}", other),
    }
    let step = run.step(Event::PkgbuildWritten(Ok(())));
    match &step.action {
        Action::Regenerate { dir } => assert_eq!(dir, "aur/newer"),
        other => panic!("unexpected {:?}", other),
    }
    let step = run.step(Event::Regenerated(Ok(())));
    assert_eq!(
        messages(&step),
        vec![
            (LogLevel::Info, "Updated packages:".to_owned()),
            (LogLevel::Info, "  - newer: 1.0 -> 1.1".to_owned()),
        ]
    );
    match &step.action {
        Action::WriteChangedPackages { path, contents } => {
            assert_eq!(path, "changed.txt");
            assert_eq!(contents, "newer\t1.1\n");
        }
        other => panic!("unexpected {:?}", other),
    }
    let step = run.step(Event::ChangedPackagesWritten(Ok(())));
    match step.action {
        Action::Finish(Ok(summary)) => {
            assert_eq!(summary.changed_packages.len(), 1);
            assert_eq!(summary.changed_packages[0].new_version, "1.1");
        }
        other => panic!("unexpected {:?}", other),
    }
}

#[test]
fn dry_run_checks_tools_and_writes_nothing() {
    let config = Config {
        packages: vec![package("pkg", true, true)],
    };
    let (mut run, step) = UpdateRun::start(options(true, None, None), config);
    assert!(matches!(step.action, Action::VerifyTools));
    let step = run.step(Event::ToolsChecked(Ok(())));
    assert!(matches!(step.action, Action::OpenSources));
    run.step(Event::SourcesOpened(Ok(())));
    run.step(Event::PackageInspected {
        dir_exists: true,
        pkgbuild_path: "aur/pkg/PKGBUILD".into(),
        pkgbuild_exists: true,
    });
    run.step(Event::PkgbuildRead(Ok("pkgver=2\npkgrel=1\n".into())));
    let step = run.step(Event::LatestVersion(Ok("3".into())));
    let texts = messages(&step);
    assert_eq!(texts[0].1, "[pkg] would update PKGBUILD from 2 to 3");
    assert_eq!(texts[1].1, "[pkg] would reset pkgrel to 1");
    assert_eq!(texts[2], (LogLevel::Warn, "Dry run: no files were changed.".to_owned()));
    match step.action {
        Action::Finish(Ok(summary)) => assert_eq!(summary.changed_packages[0].name, "pkg"),
        other => panic!("unexpected {:?}", other),
    }
}

#[test]
fn run_failures_name_the_package() {
    let config = Config {
        packages: vec![package("pkg", true, false)],
    };
    let (mut run, _) = UpdateRun::start(options(false, None, None), config);
    run.step(Event::SourcesOpened(Ok(())));
    let step = run.step(Event::PackageInspected {
        dir_exists: false,
        pkgbuild_path: "aur/pkg/PKGBUILD".into(),
        pkgbuild_exists: false,
    });
    match step.action {
        Action::Finish(Err(Error::PackageUpdate { package, source })) => {
            assert_eq!(package, "pkg");
            assert!(matches!(*source, Error::MissingPackageDir { ref path } if path == "aur/pkg"));
        }
        other => panic!("unexpected {:?}", other),
    }

    let config = Config { packages: vec![package("pkg", true, false)] };
    let (mut run, _) = UpdateRun::start(options(false, None, None), config);
    run.step(Event::SourcesOpened(Ok(())));
    run.step(Event::PackageInspected {
        dir_exists: true,
        pkgbuild_path: "aur/pkg/PKGBUILD".into(),
        pkgbuild_exists: true,
    });
    let step = run.step(Event::PkgbuildRead(Ok("pkgname=pkg\n".into())));
    assert!(matches!(
        step.action,
        Action::Finish(Err(Error::PackageUpdate { .. }))
    ));

    let config = Config { packages: vec![package("pkg", false, false)] };
    let (_, step) = UpdateRun::start(options(false, Some("pkg"), None), config);
    assert!(matches!(step.action, Action::Finish(Err(Error::PackageNotFound { .. }))));
}

#[test]
fn pkgbuild_is_read_again_before_writing() {
    let updating = |reread: Result<String, aur_updater::pkgbuild::Error>| {
        let config = Config { packages: vec![package("pkg", true, true)] };
        let (mut run, _) = UpdateRun::start(options(false, None, None), config);
        run.step(Event::SourcesOpened(Ok(())));
        run.step(Event::PackageInspected {
            dir_exists: true,
            pkgbuild_path: "aur/pkg/PKGBUILD".into(),
            pkgbuild_exists: true,
        });
        run.step(Event::PkgbuildRead(Ok("pkgver=1\npkgrel=4\n".into())));
        let step = run.step(Event::LatestVersion(Ok("2".into())));
        assert!(matches!(step.action, Action::ReadPkgbuild { .. }));
        run.step(Event::PkgbuildRead(reread)).action
    };
    let failed_with = |action: Action| match action {
        Action::Finish(Err(Error::PackageUpdate { package, source })) => {
            assert_eq!(package, "pkg");
            *source
        }
        other => panic!("unexpected {:?}", other),
    };
    let e = failed_with(updating(Ok("pkgver=1\n".into())));
    assert!(matches!(e, Error::Pkgbuild(aur_updater::pkgbuild::Error::MissingPkgrel)));
    let e = failed_with(updating(Ok("pkgrel=4\n".into())));
    assert!(matches!(e, Error::Pkgbuild(aur_updater::pkgbuild::Error::MissingPkgver)));
    let e = failed_with(updating(Err(aur_updater::pkgbuild::Error::Read {
        path: "aur/pkg/PKGBUILD".into(),
        message: "gone".into(),
    })));
    assert!(matches!(e, Error::Pkgbuild(aur_updater::pkgbuild::Error::Read { .. })));
    match updating(Ok("pkgver=1\npkgrel=4\n".into())) {
        Action::WritePkgbuild { contents, .. } => assert_eq!(contents, "pkgver=2\npkgrel=1\n"),
        other => panic!("unexpected {:?}", other),
    }
}
