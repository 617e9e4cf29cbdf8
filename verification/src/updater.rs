//! An update run: which packages it covers, what it reports, and the decisions it takes
//! between the file, process and network work that the caller performs.
use vstd::prelude::*;

use crate::config::{Config, PackageConfig};
use crate::lines::{is_key_line, is_single_line, lemma_first_key_line_unique, split_lines};
use crate::pkgbuild::{
    declared_pkgver, law_update_rewrites_only_key_lines, pkgrel_key, pkgver_key, updated_contents,
    Pkgbuild,
};
use crate::text::has_prefix;
use crate::text::push_char;

verus! {

/// What can make an update run fail.
#[derive(Debug)]
pub enum Error {
    Config(crate::config::Error),
    Sources(crate::sources::Error),
    Pkgbuild(crate::pkgbuild::Error),
    Arch(crate::arch::Error),
    /// No enabled package has the requested name.
    PackageNotFound { package: String },
    /// No package is enabled.
    NoEnabledPackages,
    /// A package's directory does not exist.
    MissingPackageDir { path: String },
    /// A package's directory holds no PKGBUILD.
    MissingPkgbuildFile { path: String },
    /// The list of changed packages could not be written to `path`.
    WriteChangedPackages { path: String, message: String },
    /// Updating `package` failed for the reason in `source`.
    PackageUpdate { package: String, source: Box<Error> },
}

/// How an update run is asked for.
#[derive(Debug)]
pub struct RunOptions {
    pub config_path: String,
    pub package_filter: Option<String>,
    pub dry_run: bool,
    pub changed_packages_out: Option<String>,
}

/// What became of one package.
#[derive(Debug)]
pub struct PackageOutcome {
    pub name: String,
    pub old_version: String,
    pub new_version: String,
    pub changed: bool,
}

/// A package whose version changed (or, in a dry run, would change).
#[derive(Debug, Clone, PartialEq, Eq)]
pub struct ChangedPackage {
    pub name: String,
    pub old_version: String,
    pub new_version: String,
}

/// What an update run changed.
#[derive(Debug, Clone, PartialEq, Eq)]
pub struct UpdateSummary {
    pub changed_packages: Vec<ChangedPackage>,
}

/// Whether a package takes part in a run with the given name filter: it is enabled, and has
/// the requested name when there is one.
pub open spec fn is_selected(package: PackageConfig, filter: Option<Seq<char>>) -> bool {
    package.enabled && match filter {
        Some(wanted) => package.name@ == wanted,
        None => true,
    }
}

/// The indices of the packages that take part in a run, in the order of the settings.
pub open spec fn selected_indices(packages: Seq<PackageConfig>, filter: Option<Seq<char>>) -> Seq<int>
    decreases packages.len(),
{
    if packages.len() == 0 {
        Seq::<int>::empty()
    } else {
        let before = selected_indices(packages.drop_last(), filter);
        if is_selected(packages.last(), filter) {
            before.push(packages.len() - 1)
        } else {
            before
        }
    }
}

/// An optional `&str` as an optional sequence of characters.
pub open spec fn filter_view(filter: Option<&str>) -> Option<Seq<char>> {
    match filter {
        Some(f) => Some(f@),
        None => None,
    }
}

/// An optional `String` as an optional sequence of characters.
pub open spec fn option_view(s: Option<String>) -> Option<Seq<char>> {
    match s {
        Some(f) => Some(f@),
        None => None,
    }
}

/// The selected indices are in range, increasing, and are exactly the selected packages.
pub proof fn lemma_selected_indices(packages: Seq<PackageConfig>, filter: Option<Seq<char>>)
    ensures
        forall|k: int|
            0 <= k < selected_indices(packages, filter).len() ==> 0 <= #[trigger] selected_indices(
                packages,
                filter,
            )[k] < packages.len() && is_selected(packages[selected_indices(packages, filter)[k]], filter),
        forall|k: int, m: int|
            0 <= k < m < selected_indices(packages, filter).len() ==> #[trigger] selected_indices(
                packages,
                filter,
            )[k] < #[trigger] selected_indices(packages, filter)[m],
        forall|i: int|
            0 <= i < packages.len() && is_selected(#[trigger] packages[i], filter) ==> selected_indices(
                packages,
                filter,
            ).contains(i),
    decreases packages.len(),
{
    if packages.len() > 0 {
        let init = packages.drop_last();
        lemma_selected_indices(init, filter);
        let before = selected_indices(init, filter);
        assert forall|k: int| 0 <= k < before.len() implies packages[before[k]] == init[before[k]] by {}
        assert forall|i: int|
            0 <= i < packages.len() && is_selected(#[trigger] packages[i], filter) implies selected_indices(
            packages,
            filter,
        ).contains(i) by {
            if i < packages.len() - 1 {
                assert(packages[i] == init[i]);
                let k = choose|k: int| 0 <= k < before.len() && before[k] == i;
                if is_selected(packages.last(), filter) {
                    assert(before.push(packages.len() - 1)[k] == i);
                }
            } else {
                assert(before.push(packages.len() - 1)[before.len() as int] == i);
            }
        }
    }
}

/// With a name filter, a run takes exactly the enabled packages whose name equals the requested
/// one (no other package, however close its name); without one, exactly the enabled packages.
pub proof fn law_selection_matches_name_exactly(packages: Seq<PackageConfig>, filter: Option<Seq<char>>)
    ensures
        forall|k: int|
            0 <= k < selected_indices(packages, filter).len() ==> {
                let p = packages[#[trigger] selected_indices(packages, filter)[k]];
                &&& p.enabled
                &&& filter matches Some(w) ==> p.name@ == w
            },
        forall|i: int|
            0 <= i < packages.len() && (#[trigger] packages[i]).enabled && (filter matches Some(w)
                ==> packages[i].name@ == w) ==> selected_indices(packages, filter).contains(i),
{
    lemma_selected_indices(packages, filter);
}

/// The indices of the packages of `config` that take part in a run with the name filter
/// `filter`.
pub fn select_indices(config: &Config, filter: Option<&str>) -> (r: Vec<usize>)
    ensures
        r@.map_values(|i: usize| i as int) == selected_indices(config.packages@, filter_view(filter)),
{
    let mut r: Vec<usize> = Vec::new();
    let mut i: usize = 0;
    assert(config.packages@.take(0) =~= Seq::<PackageConfig>::empty());
    while i < config.packages.len()
        invariant
            i <= config.packages.len(),
            r@.map_values(|i: usize| i as int) == selected_indices(
                config.packages@.take(i as int),
                filter_view(filter),
            ),
        decreases config.packages.len() - i,
    {
        let package = &config.packages[i];
        let ghost next = config.packages@.take(i + 1);
        assert(next.drop_last() =~= config.packages@.take(i as int));
        assert(next.last() == *package);
        let chosen = package.enabled && match filter {
            Some(wanted) => crate::text::str_eq(package.name.as_str(), wanted),
            None => true,
        };
        if chosen {
            r.push(i);
            assert(r@.map_values(|i: usize| i as int) =~= selected_indices(
                config.packages@.take(i as int),
                filter_view(filter),
            ).push(i as int));
        }
        i = i + 1;
    }
    assert(config.packages@.take(i as int) =~= config.packages@);
    r
}

/// The packages of `config` that take part in a run: the enabled ones, only those with the
/// requested name when `package_filter` asks for one, in the order of the settings. When
/// none does, the error is `PackageNotFound` with a filter and `NoEnabledPackages` without.
pub fn selected_packages<'a>(config: &'a Config, package_filter: Option<&str>) -> (r: Result<
    Vec<&'a PackageConfig>,
    Error,
>)
    ensures
        match r {
            Ok(packages) => {
                let idx = selected_indices(config.packages@, filter_view(package_filter));
                &&& idx.len() > 0
                &&& packages@.len() == idx.len()
                &&& forall|k: int|
                    0 <= k < idx.len() ==> *(#[trigger] packages@[k]) == config.packages@[idx[k]]
            },
            Err(e) => {
                &&& selected_indices(config.packages@, filter_view(package_filter)).len() == 0
                &&& match package_filter {
                    Some(wanted) => e matches Error::PackageNotFound { package } && package@ == wanted@,
                    None => e matches Error::NoEnabledPackages,
                }
            },
        },
{
    let indices = select_indices(config, package_filter);
    let ghost idx = selected_indices(config.packages@, filter_view(package_filter));
    proof {
        lemma_selected_indices(config.packages@, filter_view(package_filter));
    }
    if indices.len() == 0 {
        return match package_filter {
            Some(wanted) => Err(Error::PackageNotFound { package: String::from_str(wanted) }),
            None => Err(Error::NoEnabledPackages),
        };
    }
    let mut packages: Vec<&'a PackageConfig> = Vec::new();
    let mut k: usize = 0;
    while k < indices.len()
        invariant
            k <= indices.len(),
            indices@.map_values(|i: usize| i as int) == idx,
            forall|j: int| 0 <= j < idx.len() ==> 0 <= #[trigger] idx[j] < config.packages@.len(),
            packages@.len() == k,
            forall|j: int| 0 <= j < k ==> *(#[trigger] packages@[j]) == config.packages@[idx[j]],
        decreases indices.len() - k,
    {
        assert(idx[k as int] == indices@[k as int] as int);
        packages.push(&config.packages[indices[k]]);
        k = k + 1;
    }
    Ok(packages)
}

/// The changed packages among `outcomes`, as (name, old version, new version), in order.
pub open spec fn changed_entries(outcomes: Seq<PackageOutcome>) -> Seq<(Seq<char>, Seq<char>, Seq<char>)>
    decreases outcomes.len(),
{
    if outcomes.len() == 0 {
        Seq::empty()
    } else {
        let before = changed_entries(outcomes.drop_last());
        let o = outcomes.last();
        if o.changed {
            before.push((o.name@, o.old_version@, o.new_version@))
        } else {
            before
        }
    }
}

/// The changed packages of a summary, as (name, old version, new version).
pub open spec fn summary_entries(summary: UpdateSummary) -> Seq<(Seq<char>, Seq<char>, Seq<char>)> {
    summary.changed_packages@.map_values(
        |c: ChangedPackage| (c.name@, c.old_version@, c.new_version@),
    )
}

/// The text of the changed-packages file: one line per changed package, holding its name, a
/// tab and its new version, each line ended by `'\n'`.
pub open spec fn changed_packages_text(entries: Seq<(Seq<char>, Seq<char>, Seq<char>)>) -> Seq<char>
    decreases entries.len(),
{
    if entries.len() == 0 {
        Seq::empty()
    } else {
        let e = entries.last();
        changed_packages_text(entries.drop_last()) + e.0 + seq!['\t'] + e.2 + seq!['\n']
    }
}

fn copy_string(s: &String) -> (r: String)
    ensures
        r@ == s@,
{
    s.clone()
}

impl UpdateSummary {
    /// The summary of a run whose packages ended as `outcomes`: the changed ones, in order.
    pub fn from_outcomes(outcomes: &[PackageOutcome]) -> (r: Self)
        ensures
            summary_entries(r) == changed_entries(outcomes@),
    {
        let mut changed_packages: Vec<ChangedPackage> = Vec::new();
        let mut i: usize = 0;
        assert(outcomes@.take(0) =~= Seq::<PackageOutcome>::empty());
        while i < outcomes.len()
            invariant
                i <= outcomes@.len(),
                changed_packages@.map_values(
                    |c: ChangedPackage| (c.name@, c.old_version@, c.new_version@),
                ) == changed_entries(outcomes@.take(i as int)),
            decreases outcomes.len() - i,
        {
            let o = &outcomes[i];
            let ghost next = outcomes@.take(i + 1);
            assert(next.drop_last() =~= outcomes@.take(i as int));
            assert(next.last() == *o);
            if o.changed {
                let ghost before = changed_packages@;
                changed_packages.push(
                    ChangedPackage {
                        name: copy_string(&o.name),
                        old_version: copy_string(&o.old_version),
                        new_version: copy_string(&o.new_version),
                    },
                );
                assert(changed_packages@.map_values(
                    |c: ChangedPackage| (c.name@, c.old_version@, c.new_version@),
                ) =~= before.map_values(
                    |c: ChangedPackage| (c.name@, c.old_version@, c.new_version@),
                ).push((o.name@, o.old_version@, o.new_version@)));
            }
            i = i + 1;
        }
        assert(outcomes@.take(i as int) =~= outcomes@);
        UpdateSummary { changed_packages }
    }

    /// The text of the changed-packages file for this summary.
    pub fn changed_packages_contents(&self) -> (r: String)
        ensures
            r@ == changed_packages_text(summary_entries(*self)),
    {
        let ghost entries = summary_entries(*self);
        let mut out = String::new();
        let mut i: usize = 0;
        assert(entries.take(0) =~= Seq::<(Seq<char>, Seq<char>, Seq<char>)>::empty());
        while i < self.changed_packages.len()
            invariant
                i <= self.changed_packages@.len(),
                entries == summary_entries(*self),
                out@ == changed_packages_text(entries.take(i as int)),
            decreases self.changed_packages.len() - i,
        {
            let c = &self.changed_packages[i];
            let ghost next = entries.take(i + 1);
            assert(next.drop_last() =~= entries.take(i as int));
            assert(next.last() == (c.name@, c.old_version@, c.new_version@));
            out.append(c.name.as_str());
            push_char(&mut out, '\t');
            out.append(c.new_version.as_str());
            push_char(&mut out, '\n');
            assert(out@ =~= changed_packages_text(next));
            i = i + 1;
        }
        assert(entries.take(i as int) =~= entries);
        out
    }
}

/// How important a log line is.
#[derive(Debug, Clone, Copy, PartialEq, Eq, Structural)]
pub enum LogLevel {
    Info,
    Warn,
}

/// A line for the log.
#[derive(Debug)]
pub struct LogLine {
    pub level: LogLevel,
    pub message: String,
}

/// A log line as a level and a sequence of characters.
pub open spec fn log_view(line: LogLine) -> (LogLevel, Seq<char>) {
    (line.level, line.message@)
}

/// Log lines as levels and sequences of characters.
pub open spec fn logs_view(lines: Seq<LogLine>) -> Seq<(LogLevel, Seq<char>)> {
    lines.map_values(|l: LogLine| log_view(l))
}

/// `[<name>] already up to date (<old>)`.
pub open spec fn up_to_date_message(name: Seq<char>, old: Seq<char>) -> Seq<char> {
    "["@ + name + "] already up to date ("@ + old + ")"@
}

/// `[<name>] would update PKGBUILD from <old> to <new>`.
pub open spec fn would_update_message(name: Seq<char>, old: Seq<char>, new: Seq<char>) -> Seq<char> {
    "["@ + name + "] would update PKGBUILD from "@ + old + " to "@ + new
}

/// `[<name>] would reset pkgrel to 1`.
pub open spec fn would_reset_message(name: Seq<char>) -> Seq<char> {
    "["@ + name + "] would reset pkgrel to 1"@
}

/// `[<name>] updating PKGBUILD from <old> to <new>`.
pub open spec fn updating_message(name: Seq<char>, old: Seq<char>, new: Seq<char>) -> Seq<char> {
    "["@ + name + "] updating PKGBUILD from "@ + old + " to "@ + new
}

/// `  - <name>: <old> -> <new>`.
pub open spec fn changed_line_message(entry: (Seq<char>, Seq<char>, Seq<char>)) -> Seq<char> {
    "  - "@ + entry.0 + ": "@ + entry.1 + " -> "@ + entry.2
}

/// The log lines that close a run whose changed packages are `entries`: a note that nothing
/// changed, or a heading (with a warning in a dry run) followed by one line per change.
pub open spec fn summary_log(entries: Seq<(Seq<char>, Seq<char>, Seq<char>)>, dry_run: bool) -> Seq<
    (LogLevel, Seq<char>),
> {
    if entries.len() == 0 {
        seq![(LogLevel::Info, "No updates were necessary."@)]
    } else {
        let heading = if dry_run {
            seq![
                (LogLevel::Warn, "Dry run: no files were changed."@),
                (LogLevel::Info, "Planned package updates:"@),
            ]
        } else {
            seq![(LogLevel::Info, "Updated packages:"@)]
        };
        heading + entries.map_values(
            |e: (Seq<char>, Seq<char>, Seq<char>)| (LogLevel::Info, changed_line_message(e)),
        )
    }
}

fn no_logs() -> (r: Vec<LogLine>)
    ensures
        r@.len() == 0,
        logs_view(r@) == Seq::<(LogLevel, Seq<char>)>::empty(),
{
    let r: Vec<LogLine> = Vec::new();
    assert(logs_view(r@) =~= Seq::<(LogLevel, Seq<char>)>::empty());
    r
}

fn info(message: String) -> (r: LogLine)
    ensures
        log_view(r) == (LogLevel::Info, message@),
{
    LogLine { level: LogLevel::Info, message }
}

fn up_to_date_line(name: &String, old: &String) -> (r: LogLine)
    ensures
        log_view(r) == (LogLevel::Info, up_to_date_message(name@, old@)),
{
    let mut m = String::new();
    m.append("[");
    m.append(name.as_str());
    m.append("] already up to date (");
    m.append(old.as_str());
    m.append(")");
    info(m)
}

fn would_update_line(name: &String, old: &String, new: &String) -> (r: LogLine)
    ensures
        log_view(r) == (LogLevel::Info, would_update_message(name@, old@, new@)),
{
    let mut m = String::new();
    m.append("[");
    m.append(name.as_str());
    m.append("] would update PKGBUILD from ");
    m.append(old.as_str());
    m.append(" to ");
    m.append(new.as_str());
    info(m)
}

fn would_reset_line(name: &String) -> (r: LogLine)
    ensures
        log_view(r) == (LogLevel::Info, would_reset_message(name@)),
{
    let mut m = String::new();
    m.append("[");
    m.append(name.as_str());
    m.append("] would reset pkgrel to 1");
    info(m)
}

fn updating_line(name: &String, old: &String, new: &String) -> (r: LogLine)
    ensures
        log_view(r) == (LogLevel::Info, updating_message(name@, old@, new@)),
{
    let mut m = String::new();
    m.append("[");
    m.append(name.as_str());
    m.append("] updating PKGBUILD from ");
    m.append(old.as_str());
    m.append(" to ");
    m.append(new.as_str());
    info(m)
}

/// The log lines that close a run with the given summary.
pub fn summary_lines(summary: &UpdateSummary, dry_run: bool) -> (r: Vec<LogLine>)
    ensures
        logs_view(r@) == summary_log(summary_entries(*summary), dry_run),
{
    let ghost entries = summary_entries(*summary);
    let mut lines: Vec<LogLine> = Vec::new();
    if summary.changed_packages.len() == 0 {
        lines.push(info(String::from_str("No updates were necessary.")));
        assert(logs_view(lines@) =~= summary_log(entries, dry_run));
        return lines;
    }
    if dry_run {
        lines.push(LogLine { level: LogLevel::Warn, message: String::from_str("Dry run: no files were changed.") });
        lines.push(info(String::from_str("Planned package updates:")));
    } else {
        lines.push(info(String::from_str("Updated packages:")));
    }
    let ghost heading = logs_view(lines@);
    let mut i: usize = 0;
    while i < summary.changed_packages.len()
        invariant
            i <= summary.changed_packages@.len(),
            entries == summary_entries(*summary),
            logs_view(lines@) == heading + entries.take(i as int).map_values(
                |e: (Seq<char>, Seq<char>, Seq<char>)| (LogLevel::Info, changed_line_message(e)),
            ),
        decreases summary.changed_packages.len() - i,
    {
        let c = &summary.changed_packages[i];
        let mut m = String::new();
        m.append("  - ");
        m.append(c.name.as_str());
        m.append(": ");
        m.append(c.old_version.as_str());
        m.append(" -> ");
        m.append(c.new_version.as_str());
        let ghost before = logs_view(lines@);
        lines.push(info(m));
        assert(entries[i as int] == (c.name@, c.old_version@, c.new_version@));
        assert(logs_view(lines@) =~= before.push((LogLevel::Info, changed_line_message(entries[i as int]))));
        assert(entries.take(i + 1) =~= entries.take(i as int).push(entries[i as int]));
        i = i + 1;
        assert(logs_view(lines@) =~= heading + entries.take(i as int).map_values(
            |e: (Seq<char>, Seq<char>, Seq<char>)| (LogLevel::Info, changed_line_message(e)),
        ));
    }
    assert(entries.take(i as int) =~= entries);
    lines
}

/// What the caller of an update run is asked to do next.
#[derive(Debug)]
pub enum Action {
    /// Check that `updpkgsums` and `makepkg` are installed; answer `Event::ToolsChecked`.
    VerifyTools,
    /// Prepare the HTTP client for version lookups; answer `Event::SourcesOpened`.
    OpenSources,
    /// Look at the package directory `dir` and at the PKGBUILD in it; answer
    /// `Event::PackageInspected`.
    InspectPackage { dir: String },
    /// Read the PKGBUILD at `path`; answer `Event::PkgbuildRead`.
    ReadPkgbuild { path: String },
    /// Ask the source of `config.packages[package]` for its newest version; answer
    /// `Event::LatestVersion`.
    FetchLatestVersion { package: usize },
    /// Write `contents` to the PKGBUILD at `path`; answer `Event::PkgbuildWritten`.
    WritePkgbuild { path: String, contents: String },
    /// Regenerate checksums and `.SRCINFO` in `dir`; answer `Event::Regenerated`.
    Regenerate { dir: String },
    /// Write `contents` to the file at `path`; answer `Event::ChangedPackagesWritten`.
    WriteChangedPackages { path: String, contents: String },
    /// The run is over, with this result.
    Finish(Result<UpdateSummary, Error>),
}

/// What the caller reports back after performing an action.
#[derive(Debug)]
pub enum Event {
    ToolsChecked(Result<(), crate::arch::Error>),
    SourcesOpened(Result<(), crate::sources::Error>),
    PackageInspected { dir_exists: bool, pkgbuild_path: String, pkgbuild_exists: bool },
    PkgbuildRead(Result<String, crate::pkgbuild::Error>),
    LatestVersion(Result<String, crate::sources::Error>),
    PkgbuildWritten(Result<(), crate::pkgbuild::Error>),
    Regenerated(Result<(), crate::arch::Error>),
    ChangedPackagesWritten(Result<(), String>),
}

/// Lines to log, then the next action.
#[derive(Debug)]
pub struct Step {
    pub logs: Vec<LogLine>,
    pub action: Action,
}

/// Where an update run stands.
#[derive(Debug)]
pub enum Phase {
    AwaitTools,
    AwaitSources,
    AwaitInspection,
    AwaitPkgbuild { path: String },
    AwaitLatestVersion { path: String, pkgbuild: Pkgbuild },
    AwaitReread { path: String, old_version: String, new_version: String },
    AwaitWrite { old_version: String, new_version: String },
    AwaitRegenerate { old_version: String, new_version: String },
    AwaitChangedWrite { path: String, summary: UpdateSummary },
    Done,
}

/// An update run in progress. The packages that it covers are `config.packages[selected[k]]`;
/// the one being worked on is the one after those that already have an outcome.
#[derive(Debug)]
pub struct UpdateRun {
    pub dry_run: bool,
    pub package_filter: Option<String>,
    pub changed_packages_out: Option<String>,
    pub config: Config,
    pub selected: Vec<usize>,
    pub outcomes: Vec<PackageOutcome>,
    pub phase: Phase,
}

/// An outcome as (name, old version, new version, changed).
pub open spec fn outcome_view(o: PackageOutcome) -> (Seq<char>, Seq<char>, Seq<char>, bool) {
    (o.name@, o.old_version@, o.new_version@, o.changed)
}

/// Outcomes as (name, old version, new version, changed).
pub open spec fn outcomes_view(os: Seq<PackageOutcome>) -> Seq<(Seq<char>, Seq<char>, Seq<char>, bool)> {
    os.map_values(|o: PackageOutcome| outcome_view(o))
}

impl UpdateRun {
    /// The indices of the selected packages, as integers.
    pub open spec fn selected_view(self) -> Seq<int> {
        self.selected@.map_values(|i: usize| i as int)
    }

    /// The package being worked on.
    pub open spec fn current(self) -> PackageConfig {
        self.config.packages@[self.selected@[self.outcomes@.len() as int] as int]
    }

    /// The packages of the run have been chosen: the selected ones, and at least one.
    pub open spec fn selection_made(self) -> bool {
        &&& self.selected_view() == selected_indices(
            self.config.packages@,
            option_view(self.package_filter),
        )
        &&& self.selected@.len() > 0
    }

    /// The run's state is consistent.
    pub open spec fn wf(self) -> bool {
        &&& self.outcomes@.len() <= self.selected@.len()
        &&& forall|k: int|
            0 <= k < self.selected@.len() ==> #[trigger] self.selected@[k] < self.config.packages@.len()
        &&& forall|k: int|
            0 <= k < self.outcomes@.len() ==> (#[trigger] self.outcomes@[k]).name@
                == self.config.packages@[self.selected@[k] as int].name@
        &&& forall|k: int|
            0 <= k < self.outcomes@.len() ==> (#[trigger] self.outcomes@[k]).changed == (
            self.outcomes@[k].old_version@ != self.outcomes@[k].new_version@)
        &&& match self.phase {
            Phase::AwaitTools => self.dry_run && self.selected@.len() == 0 && self.outcomes@.len() == 0,
            Phase::AwaitSources => self.selection_made() && self.outcomes@.len() == 0,
            Phase::AwaitInspection => self.selection_made() && self.outcomes@.len() < self.selected@.len(),
            Phase::AwaitPkgbuild { .. } => self.selection_made() && self.outcomes@.len()
                < self.selected@.len(),
            Phase::AwaitLatestVersion { .. } => self.selection_made() && self.outcomes@.len()
                < self.selected@.len(),
            Phase::AwaitReread { old_version, new_version, .. } => self.selection_made()
                && self.outcomes@.len() < self.selected@.len() && !self.dry_run && old_version@
                != new_version@,
            Phase::AwaitWrite { old_version, new_version } => self.selection_made()
                && self.outcomes@.len() < self.selected@.len() && !self.dry_run && old_version@
                != new_version@,
            Phase::AwaitRegenerate { old_version, new_version } => self.selection_made()
                && self.outcomes@.len() < self.selected@.len() && !self.dry_run && old_version@
                != new_version@,
            Phase::AwaitChangedWrite { path, summary } => {
                &&& self.selection_made()
                &&& self.outcomes@.len() == self.selected@.len()
                &&& summary_entries(summary) == changed_entries(self.outcomes@)
            },
            Phase::Done => true,
        }
    }

    /// The run waits for `event`: the event answers the last action.
    pub open spec fn awaits(self, event: Event) -> bool {
        match (self.phase, event) {
            (Phase::AwaitTools, Event::ToolsChecked(_)) => true,
            (Phase::AwaitSources, Event::SourcesOpened(_)) => true,
            (Phase::AwaitInspection, Event::PackageInspected { .. }) => true,
            (Phase::AwaitPkgbuild { .. }, Event::PkgbuildRead(_)) => true,
            (Phase::AwaitLatestVersion { .. }, Event::LatestVersion(_)) => true,
            (Phase::AwaitReread { .. }, Event::PkgbuildRead(_)) => true,
            (Phase::AwaitWrite { .. }, Event::PkgbuildWritten(_)) => true,
            (Phase::AwaitRegenerate { .. }, Event::Regenerated(_)) => true,
            (Phase::AwaitChangedWrite { .. }, Event::ChangedPackagesWritten(_)) => true,
            _ => false,
        }
    }

    /// `post` keeps the settings of `self`.
    pub open spec fn same_settings(self, post: UpdateRun) -> bool {
        &&& post.dry_run == self.dry_run
        &&& post.package_filter == self.package_filter
        &&& post.changed_packages_out == self.changed_packages_out
        &&& post.config == self.config
    }

    /// `post` is `self` after the current package ended with `outcome`.
    pub open spec fn recorded(self, post: UpdateRun, outcome: (Seq<char>, Seq<char>, Seq<char>, bool)) -> bool {
        &&& self.same_settings(post)
        &&& post.selected@ == self.selected@
        &&& outcomes_view(post.outcomes@) == outcomes_view(self.outcomes@).push(outcome)
    }
}

/// After a package ends (or once the packages are chosen), the run goes on with the next
/// package, logging `logs` first; after the last package it logs the summary and either
/// writes the changed-packages file or finishes with the summary.
pub open spec fn moved_on(post: UpdateRun, step: Step, logs: Seq<(LogLevel, Seq<char>)>) -> bool {
    if post.outcomes@.len() < post.selected@.len() {
        &&& post.phase is AwaitInspection
        &&& logs_view(step.logs@) == logs
        &&& step.action matches Action::InspectPackage { dir } && dir@ == post.current().path@
    } else {
        let entries = changed_entries(post.outcomes@);
        &&& logs_view(step.logs@) == logs + summary_log(entries, post.dry_run)
        &&& match post.changed_packages_out {
            Some(out) => {
                &&& post.phase matches Phase::AwaitChangedWrite { path, summary } && path == out
                    && summary_entries(summary) == entries
                &&& step.action matches Action::WriteChangedPackages { path, contents } && path@
                    == out@ && contents@ == changed_packages_text(entries)
            },
            None => {
                &&& post.phase is Done
                &&& step.action matches Action::Finish(Ok(summary)) && summary_entries(summary)
                    == entries
            },
        }
    }
}

/// The run stops because updating the current package of `pre` failed for `reason`
/// (a predicate on the error), after logging `logs`.
pub open spec fn package_failed(
    pre: UpdateRun,
    post: UpdateRun,
    step: Step,
    logs: Seq<(LogLevel, Seq<char>)>,
    reason: spec_fn(Error) -> bool,
) -> bool {
    &&& pre.same_settings(post)
    &&& post.selected@ == pre.selected@
    &&& post.outcomes@ == pre.outcomes@
    &&& post.phase is Done
    &&& logs_view(step.logs@) == logs
    &&& step.action matches Action::Finish(Err(Error::PackageUpdate { package, source }))
        && package@ == pre.current().name@ && reason(*source)
}

/// The run stops with `error`, logging nothing.
pub open spec fn run_failed(post: UpdateRun, step: Step, error: Error) -> bool {
    &&& post.phase is Done
    &&& step.logs@.len() == 0
    &&& step.action == Action::Finish(Err(error))
}

/// The packages of the run are chosen: with none, the run stops with `PackageNotFound` (when
/// a name was asked for) or `NoEnabledPackages`; otherwise the version lookups are prepared.
pub open spec fn selection_step(pre: UpdateRun, post: UpdateRun, step: Step) -> bool {
    let idx = selected_indices(pre.config.packages@, option_view(pre.package_filter));
    &&& pre.same_settings(post)
    &&& post.outcomes@.len() == 0
    &&& step.logs@.len() == 0
    &&& if idx.len() == 0 {
        &&& post.phase is Done
        &&& match pre.package_filter {
            Some(wanted) => step.action matches Action::Finish(
                Err(Error::PackageNotFound { package }),
            ) && package@ == wanted@,
            None => step.action matches Action::Finish(Err(Error::NoEnabledPackages)),
        }
    } else {
        &&& post.selected_view() == idx
        &&& post.phase is AwaitSources
        &&& step.action is OpenSources
    }
}

/// How the run starts: a dry run first checks the packaging tools; otherwise the packages
/// are chosen at once.
pub open spec fn start_step(options: RunOptions, config: Config, post: UpdateRun, step: Step) -> bool {
    &&& post.dry_run == options.dry_run
    &&& post.package_filter == options.package_filter
    &&& post.changed_packages_out == options.changed_packages_out
    &&& post.config == config
    &&& if options.dry_run {
        &&& post.phase is AwaitTools
        &&& post.selected@.len() == 0
        &&& post.outcomes@.len() == 0
        &&& step.logs@.len() == 0
        &&& step.action is VerifyTools
    } else {
        let pre = UpdateRun {
            dry_run: options.dry_run,
            package_filter: options.package_filter,
            changed_packages_out: options.changed_packages_out,
            config,
            selected: post.selected,
            outcomes: post.outcomes,
            phase: Phase::AwaitTools,
        };
        selection_step(pre, post, step)
    }
}

/// What one step of the run does with `event`, by the phase the run is in.
pub open spec fn transition(pre: UpdateRun, event: Event, post: UpdateRun, step: Step) -> bool {
    match (pre.phase, event) {
        (Phase::AwaitTools, Event::ToolsChecked(result)) => match result {
            Err(e) => pre.same_settings(post) && run_failed(post, step, Error::Arch(e)),
            Ok(_) => selection_step(pre, post, step),
        },
        (Phase::AwaitSources, Event::SourcesOpened(result)) => match result {
            Err(e) => pre.same_settings(post) && run_failed(post, step, Error::Sources(e)),
            Ok(_) => pre.same_settings(post) && post.selected@ == pre.selected@ && post.outcomes@
                == pre.outcomes@ && moved_on(post, step, Seq::empty()),
        },
        (Phase::AwaitInspection, Event::PackageInspected { dir_exists, pkgbuild_path, pkgbuild_exists }) => {
            if !dir_exists {
                package_failed(
                    pre,
                    post,
                    step,
                    Seq::empty(),
                    |e: Error| e matches Error::MissingPackageDir { path } && path@ == pre.current().path@,
                )
            } else if !pkgbuild_exists {
                package_failed(
                    pre,
                    post,
                    step,
                    Seq::empty(),
                    |e: Error| e == Error::MissingPkgbuildFile { path: pkgbuild_path },
                )
            } else {
                &&& pre.same_settings(post)
                &&& post.selected@ == pre.selected@
                &&& post.outcomes@ == pre.outcomes@
                &&& post.phase == Phase::AwaitPkgbuild { path: pkgbuild_path }
                &&& step.logs@.len() == 0
                &&& step.action == Action::ReadPkgbuild { path: pkgbuild_path }
            }
        },
        (Phase::AwaitPkgbuild { path }, Event::PkgbuildRead(result)) => match result {
            Err(e) => package_failed(pre, post, step, Seq::empty(), |f: Error| f == Error::Pkgbuild(e)),
            Ok(text) => match declared_pkgver(text@) {
                None => package_failed(
                    pre,
                    post,
                    step,
                    Seq::empty(),
                    |f: Error| f == Error::Pkgbuild(crate::pkgbuild::Error::MissingPkgver),
                ),
                Some(_) => {
                    &&& pre.same_settings(post)
                    &&& post.selected@ == pre.selected@
                    &&& post.outcomes@ == pre.outcomes@
                    &&& post.phase matches Phase::AwaitLatestVersion { path: p, pkgbuild } && p == path
                        && pkgbuild@ == text@
                    &&& step.logs@.len() == 0
                    &&& step.action == Action::FetchLatestVersion {
                        package: pre.selected@[pre.outcomes@.len() as int],
                    }
                },
            },
        },
        (Phase::AwaitLatestVersion { path, pkgbuild }, Event::LatestVersion(result)) => match result {
            Err(e) => package_failed(pre, post, step, Seq::empty(), |f: Error| f == Error::Sources(e)),
            Ok(new) => {
                let name = pre.current().name@;
                let old = declared_pkgver(pkgbuild@)->0;
                if old == new@ {
                    &&& pre.recorded(post, (name, old, new@, false))
                    &&& moved_on(post, step, seq![(LogLevel::Info, up_to_date_message(name, old))])
                } else if pre.dry_run {
                    let logs = if pre.current().reset_pkgrel {
                        seq![
                            (LogLevel::Info, would_update_message(name, old, new@)),
                            (LogLevel::Info, would_reset_message(name)),
                        ]
                    } else {
                        seq![(LogLevel::Info, would_update_message(name, old, new@))]
                    };
                    &&& pre.recorded(post, (name, old, new@, true))
                    &&& moved_on(post, step, logs)
                } else {
                    &&& pre.same_settings(post)
                    &&& post.selected@ == pre.selected@
                    &&& post.outcomes@ == pre.outcomes@
                    &&& post.phase matches Phase::AwaitReread { path: p, old_version, new_version }
                        && p == path && old_version@ == old && new_version == new
                    &&& logs_view(step.logs@) == seq![
                        (LogLevel::Info, updating_message(name, old, new@)),
                    ]
                    &&& step.action == Action::ReadPkgbuild { path }
                }
            },
        },
        (Phase::AwaitReread { path, old_version, new_version }, Event::PkgbuildRead(result)) => match result {
            Err(e) => package_failed(pre, post, step, Seq::empty(), |f: Error| f == Error::Pkgbuild(e)),
            Ok(text) => if declared_pkgver(text@) is None {
                package_failed(
                    pre,
                    post,
                    step,
                    Seq::empty(),
                    |f: Error| f == Error::Pkgbuild(crate::pkgbuild::Error::MissingPkgver),
                )
            } else {
                match updated_contents(text@, new_version@, pre.current().reset_pkgrel) {
                    Err(e) => package_failed(pre, post, step, Seq::empty(), |f: Error| f == Error::Pkgbuild(e)),
                    Ok(updated) => {
                        &&& pre.same_settings(post)
                        &&& post.selected@ == pre.selected@
                        &&& post.outcomes@ == pre.outcomes@
                        &&& post.phase == Phase::AwaitWrite { old_version, new_version }
                        &&& step.logs@.len() == 0
                        &&& step.action matches Action::WritePkgbuild { path: p, contents } && p
                            == path && contents@ == updated
                    },
                }
            },
        },
        (Phase::AwaitWrite { old_version, new_version }, Event::PkgbuildWritten(result)) => match result {
            Err(e) => package_failed(pre, post, step, Seq::empty(), |f: Error| f == Error::Pkgbuild(e)),
            Ok(_) => {
                &&& pre.same_settings(post)
                &&& post.selected@ == pre.selected@
                &&& post.outcomes@ == pre.outcomes@
                &&& post.phase == Phase::AwaitRegenerate { old_version, new_version }
                &&& step.logs@.len() == 0
                &&& step.action matches Action::Regenerate { dir } && dir@ == pre.current().path@
            },
        },
        (Phase::AwaitRegenerate { old_version, new_version }, Event::Regenerated(result)) => match result {
            Err(e) => package_failed(pre, post, step, Seq::empty(), |f: Error| f == Error::Arch(e)),
            Ok(_) => {
                &&& pre.recorded(post, (pre.current().name@, old_version@, new_version@, true))
                &&& moved_on(post, step, Seq::empty())
            },
        },
        (Phase::AwaitChangedWrite { path, summary }, Event::ChangedPackagesWritten(result)) => {
            &&& pre.same_settings(post)
            &&& post.selected@ == pre.selected@
            &&& post.outcomes@ == pre.outcomes@
            &&& post.phase is Done
            &&& step.logs@.len() == 0
            &&& match result {
                Err(message) => step.action == Action::Finish(
                    Err(Error::WriteChangedPackages { path, message }),
                ),
                Ok(_) => step.action == Action::Finish(Ok(summary)),
            }
        },
        _ => false,
    }
}

impl UpdateRun {
    /// Starts a run with the given options over the loaded settings.
    pub fn start(options: RunOptions, config: Config) -> (r: (UpdateRun, Step))
        ensures
            r.0.wf(),
            start_step(options, config, r.0, r.1),
            options.dry_run ==> r.1.action is VerifyTools,
    {
        let dry_run = options.dry_run;
        let mut run = UpdateRun {
            dry_run: options.dry_run,
            package_filter: options.package_filter,
            changed_packages_out: options.changed_packages_out,
            config,
            selected: Vec::new(),
            outcomes: Vec::new(),
            phase: Phase::AwaitTools,
        };
        if dry_run {
            return (run, Step { logs: Vec::new(), action: Action::VerifyTools });
        }
        let step = run.choose_packages();
        (run, step)
    }

    /// Chooses the packages of the run.
    fn choose_packages(&mut self) -> (step: Step)
        requires
            old(self).outcomes@.len() == 0,
            old(self).selected@.len() == 0,
        ensures
            selection_step(*old(self), *final(self), step),
            final(self).wf(),
    {
        let filter: Option<&str> = match &self.package_filter {
            Some(f) => Some(f.as_str()),
            None => None,
        };
        assert(filter_view(filter) == option_view(self.package_filter));
        let indices = select_indices(&self.config, filter);
        proof {
            lemma_selected_indices(self.config.packages@, option_view(self.package_filter));
        }
        if indices.len() == 0 {
            self.phase = Phase::Done;
            let action = match &self.package_filter {
                Some(wanted) => Action::Finish(
                    Err(Error::PackageNotFound { package: copy_string(wanted) }),
                ),
                None => Action::Finish(Err(Error::NoEnabledPackages)),
            };
            return Step { logs: Vec::new(), action };
        }
        self.selected = indices;
        self.phase = Phase::AwaitSources;
        proof {
            let idx = selected_indices(self.config.packages@, option_view(self.package_filter));
            assert forall|k: int| 0 <= k < self.selected@.len() implies #[trigger] self.selected@[k]
                < self.config.packages@.len() by {
                assert(self.selected_view()[k] == self.selected@[k] as int);
                assert(0 <= idx[k] < self.config.packages@.len());
            }
        }
        Step { logs: Vec::new(), action: Action::OpenSources }
    }

    /// Goes on after a package (or after the packages were chosen): with the next package, or
    /// with the summary.
    fn move_on(&mut self, logs: Vec<LogLine>) -> (step: Step)
        requires
            old(self).selection_made(),
            old(self).outcomes@.len() <= old(self).selected@.len(),
            forall|k: int|
                0 <= k < old(self).selected@.len() ==> #[trigger] old(self).selected@[k]
                    < old(self).config.packages@.len(),
            forall|k: int|
                0 <= k < old(self).outcomes@.len() ==> (#[trigger] old(self).outcomes@[k]).name@
                    == old(self).config.packages@[old(self).selected@[k] as int].name@,
            forall|k: int|
                0 <= k < old(self).outcomes@.len() ==> (#[trigger] old(self).outcomes@[k]).changed == (
                old(self).outcomes@[k].old_version@ != old(self).outcomes@[k].new_version@),
        ensures
            old(self).same_settings(*final(self)),
            final(self).selected@ == old(self).selected@,
            final(self).outcomes@ == old(self).outcomes@,
            moved_on(*final(self), step, logs_view(logs@)),
            final(self).wf(),
    {
        if self.outcomes.len() < self.selected.len() {
            let dir = copy_string(&self.config.packages[self.selected[self.outcomes.len()]].path);
            self.phase = Phase::AwaitInspection;
            return Step { logs, action: Action::InspectPackage { dir } };
        }
        let summary = UpdateSummary::from_outcomes(self.outcomes.as_slice());
        let mut all_logs = logs;
        let mut closing = summary_lines(&summary, self.dry_run);
        let ghost first = all_logs@;
        let ghost second = closing@;
        all_logs.append(&mut closing);
        assert(logs_view(all_logs@) =~= logs_view(first) + logs_view(second));
        match &self.changed_packages_out {
            Some(out) => {
                let contents = summary.changed_packages_contents();
                let path = copy_string(out);
                self.phase = Phase::AwaitChangedWrite { path: out.clone(), summary };
                Step { logs: all_logs, action: Action::WriteChangedPackages { path, contents } }
            },
            None => {
                self.phase = Phase::Done;
                Step { logs: all_logs, action: Action::Finish(Ok(summary)) }
            },
        }
    }

    /// Stops the run because updating the current package failed with `error`.
    fn fail(&mut self, logs: Vec<LogLine>, error: Error) -> (step: Step)
        requires
            old(self).outcomes@.len() < old(self).selected@.len(),
            forall|k: int|
                0 <= k < old(self).selected@.len() ==> #[trigger] old(self).selected@[k]
                    < old(self).config.packages@.len(),
        ensures
            final(self).phase is Done,
            final(self).selected@ == old(self).selected@,
            final(self).outcomes@ == old(self).outcomes@,
            old(self).same_settings(*final(self)),
            logs_view(step.logs@) == logs_view(logs@),
            step.action matches Action::Finish(Err(Error::PackageUpdate { package, source }))
                && package@ == old(self).current().name@ && *source == error,
    {
        let package = copy_string(&self.config.packages[self.selected[self.outcomes.len()]].name);
        self.phase = Phase::Done;
        Step { logs, action: Action::Finish(Err(Error::PackageUpdate { package, source: Box::new(error) })) }
    }

    /// Takes the answer to the last action and decides the next one.
    pub fn step(&mut self, event: Event) -> (step: Step)
        requires
            old(self).wf(),
            old(self).awaits(event),
        ensures
            final(self).wf(),
            transition(*old(self), event, *final(self), step),
            old(self).dry_run ==> !(step.action is WritePkgbuild) && !(step.action is Regenerate),
    {
        let mut phase = Phase::Done;
        std::mem::swap(&mut phase, &mut self.phase);
        match (phase, event) {
            (Phase::AwaitTools, Event::ToolsChecked(result)) => match result {
                Err(e) => {
                    Step { logs: Vec::new(), action: Action::Finish(Err(Error::Arch(e))) }
                },
                Ok(_) => self.choose_packages(),
            },
            (Phase::AwaitSources, Event::SourcesOpened(result)) => match result {
                Err(e) => {
                    Step { logs: Vec::new(), action: Action::Finish(Err(Error::Sources(e))) }
                },
                Ok(_) => self.move_on(no_logs()),
            },
            (Phase::AwaitInspection, Event::PackageInspected { dir_exists, pkgbuild_path, pkgbuild_exists }) => {
                if !dir_exists {
                    let path = copy_string(&self.config.packages[self.selected[self.outcomes.len()]].path);
                    self.fail(no_logs(), Error::MissingPackageDir { path })
                } else if !pkgbuild_exists {
                    self.fail(no_logs(), Error::MissingPkgbuildFile { path: pkgbuild_path })
                } else {
                    let path = pkgbuild_path.clone();
                    self.phase = Phase::AwaitPkgbuild { path: pkgbuild_path };
                    Step { logs: Vec::new(), action: Action::ReadPkgbuild { path } }
                }
            },
            (Phase::AwaitPkgbuild { path }, Event::PkgbuildRead(result)) => match result {
                Err(e) => self.fail(no_logs(), Error::Pkgbuild(e)),
                Ok(text) => match Pkgbuild::parse(text) {
                    Err(e) => self.fail(no_logs(), Error::Pkgbuild(e)),
                    Ok(pkgbuild) => {
                        let package = self.selected[self.outcomes.len()];
                        self.phase = Phase::AwaitLatestVersion { path, pkgbuild };
                        Step { logs: Vec::new(), action: Action::FetchLatestVersion { package } }
                    },
                },
            },
            (Phase::AwaitLatestVersion { path, pkgbuild }, Event::LatestVersion(result)) => match result {
                Err(e) => self.fail(no_logs(), Error::Sources(e)),
                Ok(new) => {
                    let current = &self.config.packages[self.selected[self.outcomes.len()]];
                    let name = copy_string(&current.name);
                    let reset = current.reset_pkgrel;
                    let old = String::from_str(pkgbuild.pkgver());
                    if crate::text::str_eq(old.as_str(), new.as_str()) {
                        let line = up_to_date_line(&name, &old);
                        let ghost pre_outcomes = outcomes_view(self.outcomes@);
                        self.outcomes.push(PackageOutcome { name, old_version: old, new_version: new, changed: false });
                        assert(outcomes_view(self.outcomes@) =~= pre_outcomes.push(outcome_view(self.outcomes@.last())));
                        let mut logs: Vec<LogLine> = Vec::new();
                        logs.push(line);
                        assert(logs_view(logs@) =~= seq![log_view(logs@[0])]);
                        self.move_on(logs)
                    } else if self.dry_run {
                        let mut logs: Vec<LogLine> = Vec::new();
                        logs.push(would_update_line(&name, &old, &new));
                        if reset {
                            logs.push(would_reset_line(&name));
                            assert(logs_view(logs@) =~= seq![log_view(logs@[0]), log_view(logs@[1])]);
                        } else {
                            assert(logs_view(logs@) =~= seq![log_view(logs@[0])]);
                        }
                        let ghost pre_outcomes = outcomes_view(self.outcomes@);
                        self.outcomes.push(PackageOutcome { name, old_version: old, new_version: new, changed: true });
                        assert(outcomes_view(self.outcomes@) =~= pre_outcomes.push(outcome_view(self.outcomes@.last())));
                        self.move_on(logs)
                    } else {
                        let mut logs: Vec<LogLine> = Vec::new();
                        logs.push(updating_line(&name, &old, &new));
                        assert(logs_view(logs@) =~= seq![log_view(logs@[0])]);
                        let read_path = path.clone();
                        self.phase = Phase::AwaitReread { path, old_version: old, new_version: new };
                        Step { logs, action: Action::ReadPkgbuild { path: read_path } }
                    }
                },
            },
            (Phase::AwaitReread { path, old_version, new_version }, Event::PkgbuildRead(result)) => match result {
                Err(e) => self.fail(no_logs(), Error::Pkgbuild(e)),
                Ok(text) => match Pkgbuild::parse(text) {
                    Err(e) => self.fail(no_logs(), Error::Pkgbuild(e)),
                    Ok(pkgbuild) => {
                        let reset = self.config.packages[self.selected[self.outcomes.len()]].reset_pkgrel;
                        match pkgbuild.with_version(new_version.as_str(), reset) {
                            Err(e) => self.fail(no_logs(), Error::Pkgbuild(e)),
                            Ok(contents) => {
                                self.phase = Phase::AwaitWrite { old_version, new_version };
                                Step { logs: Vec::new(), action: Action::WritePkgbuild { path, contents } }
                            },
                        }
                    },
                },
            },
            (Phase::AwaitWrite { old_version, new_version }, Event::PkgbuildWritten(result)) => match result {
                Err(e) => self.fail(no_logs(), Error::Pkgbuild(e)),
                Ok(_) => {
                    let dir = copy_string(&self.config.packages[self.selected[self.outcomes.len()]].path);
                    self.phase = Phase::AwaitRegenerate { old_version, new_version };
                    Step { logs: Vec::new(), action: Action::Regenerate { dir } }
                },
            },
            (Phase::AwaitRegenerate { old_version, new_version }, Event::Regenerated(result)) => match result {
                Err(e) => self.fail(no_logs(), Error::Arch(e)),
                Ok(_) => {
                    let name = copy_string(&self.config.packages[self.selected[self.outcomes.len()]].name);
                    let ghost pre_outcomes = outcomes_view(self.outcomes@);
                    self.outcomes.push(PackageOutcome { name, old_version, new_version, changed: true });
                    assert(outcomes_view(self.outcomes@) =~= pre_outcomes.push(outcome_view(self.outcomes@.last())));
                    self.move_on(no_logs())
                },
            },
            (Phase::AwaitChangedWrite { path, summary }, Event::ChangedPackagesWritten(result)) => match result {
                Err(message) => Step {
                    logs: Vec::new(),
                    action: Action::Finish(Err(Error::WriteChangedPackages { path, message })),
                },
                Ok(_) => Step { logs: Vec::new(), action: Action::Finish(Ok(summary)) },
            },
            (_, _) => {
                proof {
                    assert(false);
                }
                Step { logs: Vec::new(), action: Action::Finish(Err(Error::NoEnabledPackages)) }
            },
        }
    }
}

/// A dry run edits no file: no step of a dry run asks to write a PKGBUILD or to regenerate
/// checksums and `.SRCINFO`, and the run stays a dry run.
pub proof fn law_dry_run_edits_no_files(pre: UpdateRun, event: Event, post: UpdateRun, step: Step)
    requires
        pre.wf(),
        pre.dry_run,
        transition(pre, event, post, step),
    ensures
        post.dry_run,
        !(step.action is WritePkgbuild),
        !(step.action is Regenerate),
{
}

/// A run that finishes without error has handled every selected package, and its summary
/// lists exactly the packages whose version changed (or would change), in order; a package
/// counts as changed exactly when its upstream version differs from its PKGBUILD's `pkgver`.
pub proof fn law_finished_run_reports_changed_packages(
    pre: UpdateRun,
    event: Event,
    post: UpdateRun,
    step: Step,
)
    requires
        pre.wf(),
        post.wf(),
        transition(pre, event, post, step),
        step.action matches Action::Finish(Ok(_)),
    ensures
        post.outcomes@.len() == post.selected@.len(),
        step.action matches Action::Finish(Ok(summary)) && summary_entries(summary)
            == changed_entries(post.outcomes@),
        forall|k: int|
            0 <= k < post.outcomes@.len() ==> (#[trigger] post.outcomes@[k]).changed == (
            post.outcomes@[k].old_version@ != post.outcomes@[k].new_version@),
{
}

/// Without a change, the changed-packages text is empty.
proof fn lemma_no_change_no_entries(outcomes: Seq<PackageOutcome>)
    requires
        forall|k: int| 0 <= k < outcomes.len() ==> !(#[trigger] outcomes[k]).changed,
    ensures
        changed_entries(outcomes).len() == 0,
    decreases outcomes.len(),
{
    if outcomes.len() > 0 {
        let init = outcomes.drop_last();
        assert forall|k: int| 0 <= k < init.len() implies !(#[trigger] init[k]).changed by {
            assert(init[k] == outcomes[k]);
        }
        lemma_no_change_no_entries(init);
        assert(!outcomes[outcomes.len() - 1].changed);
    }
}

/// When a step leaves every selected package handled without stopping the run on an error,
/// and the run was asked for a changed-packages file, the next action writes that file, with
/// one `name<TAB>new version` line per changed package, and an empty file when nothing changed.
pub proof fn law_changed_packages_file_is_always_written(
    pre: UpdateRun,
    event: Event,
    post: UpdateRun,
    step: Step,
)
    requires
        pre.wf(),
        transition(pre, event, post, step),
        !(pre.phase is AwaitChangedWrite),
        post.selected@.len() > 0,
        post.outcomes@.len() == post.selected@.len(),
        !(step.action matches Action::Finish(Err(_))),
        pre.changed_packages_out is Some,
    ensures
        step.action matches Action::WriteChangedPackages { path, contents } && path@
            == pre.changed_packages_out->0@ && contents@ == changed_packages_text(
            changed_entries(post.outcomes@),
        ),
        (forall|k: int| 0 <= k < post.outcomes@.len() ==> !(#[trigger] post.outcomes@[k]).changed)
            ==> (step.action matches Action::WriteChangedPackages { contents, .. } && contents@.len()
            == 0),
{
    if forall|k: int| 0 <= k < post.outcomes@.len() ==> !(#[trigger] post.outcomes@[k]).changed {
        lemma_no_change_no_entries(post.outcomes@);
        assert(changed_entries(post.outcomes@) =~= Seq::<(Seq<char>, Seq<char>, Seq<char>)>::empty());
    }
}

/// Once the PKGBUILD has been read again just before it is written, the run asks to write,
/// at the same path, the text it read with its first `pkgver=` line (line `k`, which holds a
/// value) set to the new version; a package that does not reset `pkgrel` keeps every other
/// line, and one that does also gets its first `pkgrel=` line (line `m`) set to `pkgrel=1`.
pub proof fn law_written_pkgbuild_follows_reset_setting(
    pre: UpdateRun,
    text: String,
    post: UpdateRun,
    step: Step,
    k: int,
    m: int,
)
    requires
        pre.wf(),
        transition(pre, Event::PkgbuildRead(Ok(text)), post, step),
        pre.phase matches Phase::AwaitReread { new_version, .. } && is_single_line(new_version@),
        0 <= k < split_lines(text@).len(),
        has_prefix(split_lines(text@)[k], pkgver_key()),
        split_lines(text@)[k].len() > 7,
        forall|j: int| 0 <= j < k ==> !has_prefix(#[trigger] split_lines(text@)[j], pkgver_key()),
        pre.current().reset_pkgrel ==> 0 <= m < split_lines(text@).len(),
        pre.current().reset_pkgrel ==> has_prefix(split_lines(text@)[m], pkgrel_key()),
        pre.current().reset_pkgrel ==> forall|j: int|
            0 <= j < m ==> !has_prefix(#[trigger] split_lines(text@)[j], pkgrel_key()),
    ensures
        pre.phase matches Phase::AwaitReread { path, new_version, .. } && step.action matches Action::WritePkgbuild {
            path: p,
            contents,
        } && p == path && {
            let before = split_lines(text@);
            let after = split_lines(contents@);
            &&& after.len() == before.len()
            &&& after[k] == pkgver_key() + new_version@
            &&& pre.current().reset_pkgrel ==> after[m] == pkgrel_key() + seq!['1']
            &&& forall|j: int|
                0 <= j < before.len() && j != k && (!pre.current().reset_pkgrel || j != m)
                    ==> #[trigger] after[j] == before[j]
        },
{
    let ls = split_lines(text@);
    let new_version = pre.phase->AwaitReread_new_version;
    let reset = pre.current().reset_pkgrel;
    assert forall|j: int| 0 <= j < k implies !is_key_line(#[trigger] ls[j], pkgver_key(), 8) by {}
    lemma_first_key_line_unique(ls, pkgver_key(), 8, k);
    assert(declared_pkgver(text@) is Some);
    law_update_rewrites_only_key_lines(text@, new_version@, reset, k, m);
}

} // verus!
