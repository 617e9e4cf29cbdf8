use aur_updater::pkgbuild::{Error, Pkgbuild};

#[test]
fn reads_and_updates_pkgver_and_pkgrel() {
    let pkgbuild = Pkgbuild::parse(
        r#"
pkgname=demo
pkgver=1.0.0
pkgrel=7
"#
        .trim_start()
        .to_owned(),
    )
    .unwrap();

    assert_eq!(pkgbuild.pkgver(), "1.0.0");
    assert_eq!(
        pkgbuild.with_version("1.2.3", true).unwrap(),
        "pkgname=demo\npkgver=1.2.3\npkgrel=1\n"
    );
}

#[test]
fn leaves_pkgrel_when_not_resetting() {
    let pkgbuild = Pkgbuild::parse("pkgver=1\npkgrel=4\n".to_owned()).unwrap();
    assert_eq!(
        pkgbuild.with_version("2", false).unwrap(),
        "pkgver=2\npkgrel=4\n"
    );
}

#[test]
fn parse_fails_without_pkgver_line() {
    let result = Pkgbuild::parse("pkgname=demo\npkgrel=1\n".to_owned());
    assert!(matches!(result, Err(Error::MissingPkgver)));
}

#[test]
fn parse_skips_empty_pkgver_lines_and_trims_value() {
    let pkgbuild = Pkgbuild::parse("pkgver=\n  pkgver=0\npkgver=  3.4 \r\n".to_owned()).unwrap();
    assert_eq!(pkgbuild.pkgver(), "3.4");
}

#[test]
fn parse_only_matches_at_line_start() {
    let result = Pkgbuild::parse("# pkgver=9\n_pkgver=1\n".to_owned());
    assert!(matches!(result, Err(Error::MissingPkgver)));
}

#[test]
fn with_version_replaces_only_first_pkgver_line() {
    let pkgbuild = Pkgbuild::parse("pkgver=\npkgver=1\npkgrel=3\npkgrel=5".to_owned()).unwrap();
    assert_eq!(pkgbuild.pkgver(), "1");
    assert_eq!(
        pkgbuild.with_version("2.0", true).unwrap(),
        "pkgver=2.0\npkgver=1\npkgrel=1\npkgrel=5"
    );
}

#[test]
fn with_version_reports_missing_pkgrel() {
    let pkgbuild = Pkgbuild::parse("pkgver=1\n".to_owned()).unwrap();
    assert!(matches!(
        pkgbuild.with_version("2", true),
        Err(Error::MissingPkgrel)
    ));
    assert_eq!(pkgbuild.with_version("2", false).unwrap(), "pkgver=2\n");
}

#[test]
fn written_version_reads_back() {
    let pkgbuild = Pkgbuild::parse("pkgrel=2\npkgname=x\npkgver=0.1\n".to_owned()).unwrap();
    let updated = pkgbuild.with_version(" 0.2_rc1 ", true).unwrap();
    let reread = Pkgbuild::parse(updated.clone()).unwrap();
    assert_eq!(reread.pkgver(), "0.2_rc1");
    assert_eq!(reread.with_version(" 0.2_rc1 ", true).unwrap(), updated);
}

#[test]
fn clone_keeps_contents() {
    let pkgbuild = Pkgbuild::parse("pkgver=5\n".to_owned()).unwrap();
    let copy = pkgbuild.clone();
    assert_eq!(copy, pkgbuild);
    assert_eq!(copy.pkgver(), "5");
}
