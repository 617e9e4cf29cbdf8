use aur_updater::arch::{verify_tools, CommandProbe, Error as ArchError};
use aur_updater::cli::UpdateArgs;
use aur_updater::lines::{join_lines_exec, split_lines_exec};
use aur_updater::sources::version_template::{render, VersionTemplateData};
use aur_updater::config::{PackageConfig, SourceKind};
use aur_updater::text::{
    contains_str, is_blank_str, parse_u64_exec, str_eq, trim_str, u64_to_string,
};

#[test]
fn trims_like_std() {
    for s in ["", "  ", " a b ", "\u{3000}x\u{85}", "\t\n\r y \u{2029}", "\u{200b}z"] {
        assert_eq!(trim_str(s), s.trim());
        assert_eq!(is_blank_str(s), s.trim().is_empty());
    }
}

#[test]
fn contains_and_equality_like_std() {
    for (s, p) in [("abc", ""), ("abc", "bc"), ("abc", "cd"), ("", "a"), ("{base}.r", "{base}")] {
        assert_eq!(contains_str(s, p), s.contains(p));
    }
    assert!(str_eq("pkg", "pkg"));
    assert!(!str_eq("pkg", "pkg2"));
    assert!(!str_eq("pkg", "pkh"));
}

#[test]
fn decimal_and_parse_round_trip() {
    for n in [0u64, 7, 10, 202, 11002, u64::MAX] {
        let text = u64_to_string(n);
        assert_eq!(text, n.to_string());
        assert_eq!(parse_u64_exec(&text), Some(n));
    }
    assert_eq!(parse_u64_exec("+0012"), Some(12));
    assert_eq!(parse_u64_exec("1 2"), None);
}

#[test]
fn lines_split_and_join_back() {
    for s in ["", "\n", "a\nb", "a\nb\n", "\n\nx"] {
        let chars: Vec<char> = s.chars().collect();
        let lines = split_lines_exec(&chars);
        let expected: Vec<Vec<char>> = s.split('\n').map(|l| l.chars().collect()).collect();
        assert_eq!(lines, expected);
        assert_eq!(join_lines_exec(&lines), s);
    }
}

#[test]
fn template_without_tokens_is_kept() {
    let package = PackageConfig {
        name: "p".to_owned(),
        path: "p".to_owned(),
        source: SourceKind::Git,
        enabled: true,
        repo: None,
        npm_package: None,
        git_url: Some("u".to_owned()),
        branch: None,
        version_template: None,
        base_version: None,
        strip_prefixes: Vec::new(),
        exclude_tags: Vec::new(),
        reset_pkgrel: false,
    };
    let data = VersionTemplateData { date: "20200101", revision: 3, sha: "abcdef0123" };
    assert_eq!(render("1.0.0-rc.2", &data, &package).unwrap(), "1.0.0-rc.2");
    assert_eq!(render("sha}base}", &data, &package).unwrap(), "sha}base}");
}

#[test]
fn tool_checks_report_first_missing_tool() {
    assert!(verify_tools(CommandProbe::Found, CommandProbe::Found).is_ok());
    match verify_tools(CommandProbe::NotFound, CommandProbe::NotFound) {
        Err(ArchError::MissingCommand { command }) => assert_eq!(command, "updpkgsums"),
        other => panic!("unexpected {:?}", other),
    }
    match verify_tools(CommandProbe::Found, CommandProbe::NotFound) {
        Err(ArchError::MissingCommand { command }) => assert_eq!(command, "makepkg"),
        other => panic!("unexpected {:?}", other),
    }
    match verify_tools(
        CommandProbe::Unavailable { message: "no sh".to_owned() },
        CommandProbe::Found,
    ) {
        Err(ArchError::CheckCommand { command, message }) => {
            assert_eq!(command, "updpkgsums");
            assert_eq!(message, "no sh");
        }
        other => panic!("unexpected {:?}", other),
    }
}

#[test]
fn update_arguments_become_run_options() {
    let options = UpdateArgs {
        config: "packages.toml".to_owned(),
        package: Some("demo".to_owned()),
        dry_run: true,
        changed_packages_out: None,
    }
    .into_run_options();
    assert_eq!(options.config_path, "packages.toml");
    assert_eq!(options.package_filter.as_deref(), Some("demo"));
    assert!(options.dry_run);
    assert!(options.changed_packages_out.is_none());
}
