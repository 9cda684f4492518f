//! Decisions of the installer: which packages to plan, what the host
//! reports mean, how a survey tallies, and which package-manager steps a
//! deploy runs with what to do when one fails.  The program around it runs
//! the commands and hands the observations back.

use vstd::prelude::*;
use crate::install_honesty::survey::{classify, packages_for_profile, profile_packages, SurveyClass};
use crate::install_honesty::survey::classify_package;
use crate::install_honesty::constants::DNF_GPG_DISCLAIMER;
use crate::text::{
    join_with, names_view, strings_without, without,
    ascii_lowercase, chars_of, chars_eq, contains_chars, contains_text, lowercase_chars,
    slice_from, split_chars, split_on, starts_with, starts_with_chars, string_of, trim,
    trim_char, trim_chars, trim_where, is_char,
};

verus! {

/// Same core on every DE; COSMIC only adds idle-cosmic.
pub fn packages(cosmic: bool) -> (p: Vec<&'static str>)
    ensures
        p@ == profile_packages(cosmic),
{
    packages_for_profile(cosmic)
}

// ------------------------------------------------------------------------
// Host identity
// ------------------------------------------------------------------------

/// DNF is the package manager when `/usr/bin/dnf` exists or `dnf` is on
/// the `PATH` (the second probe runs only when the first fails).
pub fn is_dnf(usr_bin_dnf_exists: bool, dnf_on_path: bool) -> (r: bool)
    ensures
        r == (usr_bin_dnf_exists || dnf_on_path),
{
    usr_bin_dnf_exists || dnf_on_path
}

/// APT is the package manager when `/usr/bin/apt-get` exists or `apt-get`
/// is on the `PATH`.
pub fn is_apt(usr_bin_apt_get_exists: bool, apt_get_on_path: bool) -> (r: bool)
    ensures
        r == (usr_bin_apt_get_exists || apt_get_on_path),
{
    usr_bin_apt_get_exists || apt_get_on_path
}

/// A package is present when its installed-version query (`rpm -q` on DNF
/// hosts, `dpkg-query -W` on APT hosts) succeeds and prints a version.
pub fn pkg_present(query_succeeded: bool, stdout: &str) -> (r: bool)
    ensures
        r == (query_succeeded && trim(stdout@).len() > 0),
{
    query_succeeded && captured_text(stdout).is_some()
}

/// Whether the desktop is COSMIC: its panel or compositor is installed, or
/// the desktop name mentions it.
pub fn is_cosmic_from(panel_installed: bool, compositor_installed: bool, desktop: &str) -> (r: bool)
    ensures
        r == (panel_installed || compositor_installed || contains_text(
            ascii_lowercase(desktop@),
            "cosmic"@,
        )),
{
    let de = lowercase_chars(&chars_of(desktop));
    panel_installed || compositor_installed || contains_chars(&de, &chars_of("cosmic"))
}

/// The desktop id and label, from the COSMIC verdict, the presence of the
/// Hyprland and Sway session variables, and the desktop name.
pub open spec fn desktop_of(cosmic: bool, hyprland: bool, sway: bool, desktop: Seq<char>) -> (
    Seq<char>,
    Seq<char>,
) {
    let de = ascii_lowercase(desktop);
    if cosmic {
        ("cosmic"@, "COSMIC Desktop"@)
    } else if hyprland || contains_text(de, "hyprland"@) {
        ("hyprland"@, "Hyprland"@)
    } else if sway || contains_text(de, "sway"@) {
        ("sway"@, "Sway"@)
    } else if contains_text(de, "gnome"@) {
        ("gnome"@, "GNOME"@)
    } else if contains_text(de, "kde"@) || contains_text(de, "plasma"@) {
        ("kde"@, "KDE Plasma"@)
    } else if contains_text(de, "xfce"@) {
        ("xfce"@, "Xfce"@)
    } else {
        ("other"@, "Generic / unknown DE"@)
    }
}

/// Desktop id and label for the plan.
pub fn desktop_label_from(cosmic: bool, hyprland: bool, sway: bool, desktop: &str) -> (r: (
    &'static str,
    &'static str,
))
    ensures
        (r.0@, r.1@) == desktop_of(cosmic, hyprland, sway, desktop@),
{
    let de = lowercase_chars(&chars_of(desktop));
    if cosmic {
        return ("cosmic", "COSMIC Desktop");
    }
    if hyprland || contains_chars(&de, &chars_of("hyprland")) {
        return ("hyprland", "Hyprland");
    }
    if sway || contains_chars(&de, &chars_of("sway")) {
        return ("sway", "Sway");
    }
    if contains_chars(&de, &chars_of("gnome")) {
        return ("gnome", "GNOME");
    }
    if contains_chars(&de, &chars_of("kde")) || contains_chars(&de, &chars_of("plasma")) {
        return ("kde", "KDE Plasma");
    }
    if contains_chars(&de, &chars_of("xfce")) {
        return ("xfce", "Xfce");
    }
    ("other", "Generic / unknown DE")
}

/// The `PRETTY_NAME` of an os-release text: the first line that starts with
/// `PRETTY_NAME=`, its value trimmed and unquoted.  (A carriage return that
/// `str::lines` would drop goes with the trim.)
pub open spec fn pretty_name_in(lines: Seq<Seq<char>>) -> Option<Seq<char>>
    decreases lines.len(),
{
    if lines.len() == 0 {
        None
    } else if starts_with(lines[0], "PRETTY_NAME="@) {
        Some(
            trim_where(trim(lines[0].skip("PRETTY_NAME="@.len() as int)), is_char('"')),
        )
    } else {
        pretty_name_in(lines.drop_first())
    }
}

/// The OS label from the text of `/etc/os-release`.
pub open spec fn os_label(text: Seq<char>) -> Seq<char> {
    match pretty_name_in(split_on(text, '\n')) {
        Some(name) => name,
        None => "Unknown Linux"@,
    }
}

/// OS label from the text of `/etc/os-release`, `Unknown Linux` when it
/// names none.
pub fn os_pretty_from(text: &str) -> (name: String)
    ensures
        name@ == os_label(text@),
{
    let chars = chars_of(text);
    let lines = split_chars(&chars, '\n');
    let key = chars_of("PRETTY_NAME=");
    let ghost views = lines@.map_values(|l: Vec<char>| l@);
    let mut i: usize = 0;
    assert(views.skip(0) =~= views);
    while i < lines.len()
        invariant
            i <= lines@.len(),
            views == lines@.map_values(|l: Vec<char>| l@),
            views == split_on(text@, '\n'),
            key@ == "PRETTY_NAME="@,
            pretty_name_in(views) == pretty_name_in(views.skip(i as int)),
        decreases lines.len() - i,
    {
        let line = &lines[i];
        assert(views.skip(i as int)[0] == line@);
        if starts_with_chars(line, &key) {
            let rest = slice_from(line, key.len());
            let trimmed = trim_chars(&rest);
            let unquoted = trim_char(&trimmed, '"');
            return string_of(&unquoted);
        }
        assert(views.skip(i as int).drop_first() =~= views.skip(i + 1));
        i = i + 1;
    }
    String::from_str("Unknown Linux")
}

/// The candidate version in `apt-cache policy` output: on the first line
/// that, trimmed, starts with `Candidate:`, the trimmed rest, unless empty
/// or `(none)`.
pub open spec fn candidate_in(lines: Seq<Seq<char>>) -> Option<Seq<char>>
    decreases lines.len(),
{
    if lines.len() == 0 {
        None
    } else if starts_with(trim(lines[0]), "Candidate:"@) {
        let v = trim(trim(lines[0]).skip("Candidate:"@.len() as int));
        if v.len() == 0 || v == "(none)"@ {
            None
        } else {
            Some(v)
        }
    } else {
        candidate_in(lines.drop_first())
    }
}

/// The channel candidate version from `apt-cache policy <pkg>` output.
pub fn apt_candidate_from(policy: &str) -> (r: Option<String>)
    ensures
        match r {
            Some(v) => candidate_in(split_on(policy@, '\n')) == Some(v@),
            None => candidate_in(split_on(policy@, '\n')) is None,
        },
{
    let chars = chars_of(policy);
    let lines = split_chars(&chars, '\n');
    let key = chars_of("Candidate:");
    let none = chars_of("(none)");
    let ghost views = lines@.map_values(|l: Vec<char>| l@);
    let mut i: usize = 0;
    assert(views.skip(0) =~= views);
    while i < lines.len()
        invariant
            i <= lines@.len(),
            views == lines@.map_values(|l: Vec<char>| l@),
            views == split_on(policy@, '\n'),
            key@ == "Candidate:"@,
            none@ == "(none)"@,
            candidate_in(views) == candidate_in(views.skip(i as int)),
        decreases lines.len() - i,
    {
        let t = trim_chars(&lines[i]);
        assert(views.skip(i as int)[0] == lines@[i as int]@);
        if starts_with_chars(&t, &key) {
            let rest = slice_from(&t, key.len());
            let v = trim_chars(&rest);
            if v.len() == 0 || chars_eq(&v, &none) {
                return None;
            }
            return Some(string_of(&v));
        }
        assert(views.skip(i as int).drop_first() =~= views.skip(i + 1));
        i = i + 1;
    }
    None
}

/// What a command printed on success, trimmed; nothing when that is empty.
pub fn captured_text(stdout: &str) -> (r: Option<String>)
    ensures
        match r {
            Some(s) => trim(stdout@).len() > 0 && s@ == trim(stdout@),
            None => trim(stdout@).len() == 0,
        },
{
    let t = trim_chars(&chars_of(stdout));
    if t.len() == 0 {
        None
    } else {
        Some(string_of(&t))
    }
}

// ------------------------------------------------------------------------
// Survey and recount
// ------------------------------------------------------------------------

/// Packages sorted by what the deploy will attempt.
pub struct Survey {
    pub upgrade: Vec<String>,
    pub install: Vec<String>,
    pub current: Vec<String>,
}

/// One surveyed package: its name, installed version and channel version.
pub open spec fn observation_view(o: (String, Option<String>, Option<String>)) -> (
    Seq<char>,
    Option<Seq<char>>,
    Option<Seq<char>>,
) {
    (
        o.0@,
        match o.1 {
            Some(v) => Some(v@),
            None => None,
        },
        match o.2 {
            Some(v) => Some(v@),
            None => None,
        },
    )
}

/// Names of the packages whose class satisfies `pick`, in survey order.
pub open spec fn names_where(
    obs: Seq<(Seq<char>, Option<Seq<char>>, Option<Seq<char>>)>,
    pick: spec_fn(SurveyClass) -> bool,
) -> Seq<Seq<char>>
    decreases obs.len(),
{
    if obs.len() == 0 {
        Seq::empty()
    } else {
        let prev = names_where(obs.drop_last(), pick);
        let o = obs.last();
        if pick(classify(o.1, o.2)) {
            prev.push(o.0)
        } else {
            prev
        }
    }
}

/// Classes that need an upgrade.
pub open spec fn is_upgrade() -> spec_fn(SurveyClass) -> bool {
    |c: SurveyClass| c == SurveyClass::Upgrade
}

/// Classes that need an install.
pub open spec fn is_install() -> spec_fn(SurveyClass) -> bool {
    |c: SurveyClass| c == SurveyClass::Install
}

/// Classes already present.
pub open spec fn is_current() -> spec_fn(SurveyClass) -> bool {
    |c: SurveyClass| c == SurveyClass::Current || c == SurveyClass::CurrentUnknown
}

fn option_str(o: &Option<String>) -> (r: Option<&str>)
    ensures
        match r {
            Some(s) => o matches Some(v) && s@ == v@,
            None => o is None,
        },
{
    match o {
        Some(v) => Some(v.as_str()),
        None => None,
    }
}

/// Sorts surveyed packages by class: outdated ones to upgrade, missing ones
/// to install, the rest current.
pub fn tally_survey(observed: &[(String, Option<String>, Option<String>)]) -> (s: Survey)
    ensures
        ({
            let obs = observed@.map_values(
                |o: (String, Option<String>, Option<String>)| observation_view(o),
            );
            &&& names_view(s.upgrade@) == names_where(obs, is_upgrade())
            &&& names_view(s.install@) == names_where(obs, is_install())
            &&& names_view(s.current@) == names_where(obs, is_current())
        }),
{
    let ghost obs = observed@.map_values(
        |o: (String, Option<String>, Option<String>)| observation_view(o),
    );
    let mut s = Survey { upgrade: Vec::new(), install: Vec::new(), current: Vec::new() };
    let mut i: usize = 0;
    assert(obs.take(0) =~= Seq::<(Seq<char>, Option<Seq<char>>, Option<Seq<char>>)>::empty());
    assert(names_view(s.upgrade@) =~= Seq::<Seq<char>>::empty());
    assert(names_view(s.install@) =~= Seq::<Seq<char>>::empty());
    assert(names_view(s.current@) =~= Seq::<Seq<char>>::empty());
    while i < observed.len()
        invariant
            i <= observed@.len(),
            obs == observed@.map_values(
                |o: (String, Option<String>, Option<String>)| observation_view(o),
            ),
            names_view(s.upgrade@) == names_where(obs.take(i as int), is_upgrade()),
            names_view(s.install@) == names_where(obs.take(i as int), is_install()),
            names_view(s.current@) == names_where(obs.take(i as int), is_current()),
        decreases observed.len() - i,
    {
        let (name, installed, candidate) = &observed[i];
        let ghost o = obs[i as int];
        assert(o == observation_view(observed@[i as int]));
        assert(obs.take(i + 1).drop_last() =~= obs.take(i as int));
        assert(obs.take(i + 1).last() == o);
        let class = classify_package(option_str(installed), option_str(candidate));
        assert(class == classify(o.1, o.2));
        let ghost up = names_view(s.upgrade@);
        let ghost ins = names_view(s.install@);
        let ghost cur = names_view(s.current@);
        match class {
            SurveyClass::Install => {
                s.install.push(name.clone());
                assert(names_view(s.install@) =~= ins.push(o.0));
            },
            SurveyClass::Upgrade => {
                s.upgrade.push(name.clone());
                assert(names_view(s.upgrade@) =~= up.push(o.0));
            },
            _ => {
                s.current.push(name.clone());
                assert(names_view(s.current@) =~= cur.push(o.0));
            },
        }
        i = i + 1;
    }
    assert(obs.take(obs.len() as int) =~= obs);
    s
}

/// Names whose presence flag is `present`, in plan order.
pub open spec fn with_presence(obs: Seq<(&'static str, bool)>, present: bool) -> Seq<&'static str>
    decreases obs.len(),
{
    if obs.len() == 0 {
        Seq::empty()
    } else {
        let prev = with_presence(obs.drop_last(), present);
        if obs.last().1 == present {
            prev.push(obs.last().0)
        } else {
            prev
        }
    }
}

/// Splits the plan into packages present and missing after the deploy.
pub fn recount(observed: &[(&'static str, bool)]) -> (r: (Vec<&'static str>, Vec<&'static str>))
    ensures
        r.0@ == with_presence(observed@, true),
        r.1@ == with_presence(observed@, false),
{
    let mut present: Vec<&'static str> = Vec::new();
    let mut missing: Vec<&'static str> = Vec::new();
    let mut i: usize = 0;
    while i < observed.len()
        invariant
            i <= observed@.len(),
            present@ == with_presence(observed@.take(i as int), true),
            missing@ == with_presence(observed@.take(i as int), false),
        decreases observed.len() - i,
    {
        let (name, here) = observed[i];
        assert(observed@.take(i + 1).drop_last() =~= observed@.take(i as int));
        if here {
            present.push(name);
        } else {
            missing.push(name);
        }
        i = i + 1;
    }
    assert(observed@.take(observed@.len() as int) =~= observed@);
    (present, missing)
}

/// The survey sorts every package into exactly one list: the three lists
/// together are as long as the survey.
pub proof fn law_survey_partitions(obs: Seq<(Seq<char>, Option<Seq<char>>, Option<Seq<char>>)>)
    ensures
        names_where(obs, is_upgrade()).len() + names_where(obs, is_install()).len() + names_where(
            obs,
            is_current(),
        ).len() == obs.len(),
    decreases obs.len(),
{
    if obs.len() > 0 {
        law_survey_partitions(obs.drop_last());
        let o = obs.last();
        match classify(o.1, o.2) {
            SurveyClass::Install => {},
            SurveyClass::Upgrade => {},
            SurveyClass::Current => {},
            SurveyClass::CurrentUnknown => {},
        }
    }
}

/// The recount puts every planned package either among the present or
/// among the missing ones.
pub proof fn law_recount_partitions(obs: Seq<(&'static str, bool)>)
    ensures
        with_presence(obs, true).len() + with_presence(obs, false).len() == obs.len(),
    decreases obs.len(),
{
    if obs.len() > 0 {
        law_recount_partitions(obs.drop_last());
    }
}

// ------------------------------------------------------------------------
// Deploy plan
// ------------------------------------------------------------------------

/// A package-manager command of the deploy.
#[derive(Clone, Copy, Debug, PartialEq, Eq, Structural)]
pub enum PackageCommand {
    /// `sudo dnf upgrade -y --refresh <pkgs>`
    DnfUpgrade,
    /// `sudo dnf install -y --refresh <pkgs>`
    DnfInstall,
    /// `sudo apt-get install -y --only-upgrade <pkgs>`
    AptOnlyUpgrade,
    /// `sudo apt-get install -y <pkgs>`
    AptInstall,
}

/// What the installer does when a command of the deploy fails.
pub enum OnFailure {
    /// Go on, printing the warning when there is one.
    Continue(Option<String>),
    /// Print the error and stop the installer.
    Abort(String),
    /// Print the warning, run the same command over `packages`, and stop
    /// with the error if that fails too.
    Retry { warning: String, packages: Vec<String>, error: String },
}

/// One step of the deploy, in the order the installer runs them.
pub enum DeployStep {
    /// Print the story line (if any), run the command over the packages
    /// (an empty list succeeds without running anything), and handle a
    /// failure as told.
    Packages {
        story: Option<&'static str>,
        command: PackageCommand,
        packages: Vec<String>,
        on_failure: OnFailure,
    },
    /// Print the heading and stop with the error unless both
    /// `idle-daemon` and `idle-cli` are installed.
    VerifyCore { heading: &'static str, error: &'static str },
}

/// [`OnFailure`] over plain values.
pub enum FailureModel {
    Continue(Option<Seq<char>>),
    Abort(Seq<char>),
    Retry(Seq<char>, Seq<Seq<char>>, Seq<char>),
}

/// [`DeployStep`] over plain values.
pub enum StepModel {
    Packages(Option<Seq<char>>, PackageCommand, Seq<Seq<char>>, FailureModel),
    VerifyCore(Seq<char>, Seq<char>),
}

pub open spec fn failure_view(f: OnFailure) -> FailureModel {
    match f {
        OnFailure::Continue(w) => FailureModel::Continue(
            match w {
                Some(m) => Some(m@),
                None => None,
            },
        ),
        OnFailure::Abort(e) => FailureModel::Abort(e@),
        OnFailure::Retry { warning, packages, error } => FailureModel::Retry(
            warning@,
            names_view(packages@),
            error@,
        ),
    }
}

pub open spec fn step_view(s: DeployStep) -> StepModel {
    match s {
        DeployStep::Packages { story, command, packages, on_failure } => StepModel::Packages(
            match story {
                Some(t) => Some(t@),
                None => None,
            },
            command,
            names_view(packages@),
            failure_view(on_failure),
        ),
        DeployStep::VerifyCore { heading, error } => StepModel::VerifyCore(heading@, error@),
    }
}

/// The steps of a plan over plain values.
pub open spec fn plan_view(v: Seq<DeployStep>) -> Seq<StepModel> {
    v.map_values(|s: DeployStep| step_view(s))
}

/// The error of a failed dnf install over the packages.
pub open spec fn dnf_install_error(pkgs: Seq<Seq<char>>) -> Seq<char> {
    "dnf install failed for: "@ + join_with(pkgs, " "@)
}

/// The deploy: outdated packages raised first, missing ones seated, then
/// the full set re-synced against the channel, and the core checked.  On
/// DNF a failed install stops the installer and a failed upgrade only
/// warns; on APT a failed re-sync is retried once without `idle-tui`.
pub open spec fn deploy_steps(
    dnf: bool,
    all: Seq<Seq<char>>,
    upgrade: Seq<Seq<char>>,
    install: Seq<Seq<char>>,
) -> Seq<StepModel> {
    let raise = if upgrade.len() == 0 {
        Seq::<StepModel>::empty()
    } else if dnf {
        seq![
            StepModel::Packages(
                Some("Raising outdated IdleScreen modules to the current channel…"@),
                PackageCommand::DnfUpgrade,
                upgrade,
                FailureModel::Continue(
                    Some("dnf upgrade reported issues — continuing with install re-sync…"@),
                ),
            ),
        ]
    } else {
        seq![
            StepModel::Packages(
                Some("Raising outdated IdleScreen modules to the current channel…"@),
                PackageCommand::AptOnlyUpgrade,
                upgrade,
                FailureModel::Continue(
                    Some("apt only-upgrade soft-failed — continuing with full install…"@),
                ),
            ),
        ]
    };
    let seat = if install.len() == 0 {
        Seq::<StepModel>::empty()
    } else if dnf {
        seq![
            StepModel::Packages(
                Some("Seating new IdleScreen modules…"@),
                PackageCommand::DnfInstall,
                install,
                FailureModel::Abort(dnf_install_error(install)),
            ),
        ]
    } else {
        seq![
            StepModel::Packages(
                Some("Seating new IdleScreen modules…"@),
                PackageCommand::AptInstall,
                install,
                FailureModel::Continue(None),
            ),
        ]
    };
    let resync = if dnf {
        seq![
            StepModel::Packages(
                Some("Re-syncing the full IdleScreen set against the channel…"@),
                PackageCommand::DnfUpgrade,
                all,
                FailureModel::Continue(Some("dnf upgrade (full set) soft-failed — trying install…"@)),
            ),
            StepModel::Packages(
                None,
                PackageCommand::DnfInstall,
                all,
                FailureModel::Abort(dnf_install_error(all)),
            ),
        ]
    } else {
        seq![
            StepModel::Packages(
                Some("Re-syncing the full IdleScreen set against the channel…"@),
                PackageCommand::AptInstall,
                all,
                FailureModel::Retry(
                    "Full set failed — retrying without idle-tui…"@,
                    without(all, "idle-tui"@),
                    "apt-get install failed"@,
                ),
            ),
        ]
    };
    let verify = seq![
        StepModel::VerifyCore(
            if dnf {
                "Verifying RPM database…"@
            } else {
                "Verifying dpkg database…"@
            },
            "idle-daemon / idle-cli missing after install"@,
        ),
    ];
    raise + seat + resync + verify
}

/// The re-sync runs over the whole plan, whatever the survey found: on DNF
/// the last package steps are an upgrade and then an install of exactly the
/// planned packages, a failed install of them stopping the installer; on
/// APT the last package step installs exactly the planned packages and
/// retries them without `idle-tui`.  The core check comes last either way,
/// and the re-sync and core check are the same whatever the survey found:
/// they are the whole plan of a survey with nothing outdated or missing.
pub proof fn law_resync_covers_plan(
    dnf: bool,
    all: Seq<Seq<char>>,
    upgrade: Seq<Seq<char>>,
    install: Seq<Seq<char>>,
)
    ensures
        ({
            let s = deploy_steps(dnf, all, upgrade, install);
            let n = s.len();
            &&& n >= 2
            &&& s[n - 1] is VerifyCore
            &&& dnf ==> n >= 3 && (s[n - 3] matches StepModel::Packages(
                _,
                PackageCommand::DnfUpgrade,
                p,
                _,
            ) && p == all)
            &&& dnf ==> (s[n - 2] matches StepModel::Packages(
                _,
                PackageCommand::DnfInstall,
                q,
                FailureModel::Abort(_),
            ) && q == all)
            &&& !dnf ==> (s[n - 2] matches StepModel::Packages(
                _,
                PackageCommand::AptInstall,
                q,
                FailureModel::Retry(_, r, _),
            ) && q == all && r == without(all, "idle-tui"@))
        }),
        ({
            let s = deploy_steps(dnf, all, upgrade, install);
            let e = deploy_steps(dnf, all, Seq::empty(), Seq::empty());
            let k: int = if dnf {
                3
            } else {
                2
            };
            s.skip(s.len() - k) == e
        }),
{
    let s = deploy_steps(dnf, all, upgrade, install);
    let e = deploy_steps(dnf, all, Seq::empty(), Seq::empty());
    let k: int = if dnf {
        3
    } else {
        2
    };
    assert(e.len() == k);
    assert(s.skip(s.len() - k) =~= e);
}

/// Owned copies of the planned package names.
fn owned_names(pkgs: &[&str]) -> (r: Vec<String>)
    ensures
        names_view(r@) == pkgs@.map_values(|s: &str| s@),
{
    let mut r: Vec<String> = Vec::new();
    let mut i: usize = 0;
    while i < pkgs.len()
        invariant
            i <= pkgs@.len(),
            names_view(r@) == pkgs@.take(i as int).map_values(|s: &str| s@),
        decreases pkgs.len() - i,
    {
        let ghost prev = names_view(r@);
        let name = String::from_str(pkgs[i]);
        assert(name@ == pkgs@[i as int]@);
        r.push(name);
        assert(names_view(r@) =~= prev.push(pkgs@[i as int]@));
        assert(pkgs@.take(i + 1).map_values(|s: &str| s@) =~= pkgs@.take(i as int).map_values(
            |s: &str| s@,
        ).push(pkgs@[i as int]@));
        i = i + 1;
    }
    assert(pkgs@.take(pkgs@.len() as int) =~= pkgs@);
    r
}

fn copy_names(v: &Vec<String>) -> (r: Vec<String>)
    ensures
        names_view(r@) == names_view(v@),
{
    let mut r: Vec<String> = Vec::new();
    let mut i: usize = 0;
    while i < v.len()
        invariant
            i <= v@.len(),
            names_view(r@) == names_view(v@.take(i as int)),
        decreases v.len() - i,
    {
        let ghost prev = names_view(r@);
        let name = v[i].clone();
        r.push(name);
        assert(names_view(r@) =~= prev.push(v@[i as int]@));
        assert(names_view(v@.take(i + 1)) =~= names_view(v@.take(i as int)).push(v@[i as int]@));
        i = i + 1;
    }
    assert(v@.take(v@.len() as int) =~= v@);
    r
}

/// Appends the names separated by single spaces.
fn push_words(out: &mut String, words: &Vec<String>)
    ensures
        final(out)@ == old(out)@ + join_with(names_view(words@), " "@),
{
    let ghost views = names_view(words@);
    let mut i: usize = 0;
    assert(views.take(0) =~= Seq::<Seq<char>>::empty());
    assert(old(out)@ + join_with(views.take(0), " "@) =~= old(out)@);
    while i < words.len()
        invariant
            i <= words@.len(),
            views == names_view(words@),
            out@ == old(out)@ + join_with(views.take(i as int), " "@),
        decreases words.len() - i,
    {
        assert(views.take(i + 1).drop_last() =~= views.take(i as int));
        assert(views.take(i + 1).last() == words@[i as int]@);
        if i > 0 {
            out.append(" ");
        }
        out.append(words[i].as_str());
        i = i + 1;
        assert(out@ =~= old(out)@ + join_with(views.take(i as int), " "@));
    }
    assert(views.take(words@.len() as int) =~= views);
}

fn dnf_install_failure(pkgs: &Vec<String>) -> (r: OnFailure)
    ensures
        failure_view(r) == FailureModel::Abort(dnf_install_error(names_view(pkgs@))),
{
    let mut e = String::from_str("dnf install failed for: ");
    proof {
        reveal_strlit("dnf install failed for: ");
    }
    push_words(&mut e, pkgs);
    OnFailure::Abort(e)
}

/// The steps of the deploy for the planned packages and the survey, as
/// [`deploy_steps`] says; the program runs them in order.
pub fn deploy(dnf: bool, pkgs: &[&str], survey: &Survey) -> (plan: Vec<DeployStep>)
    ensures
        plan_view(plan@) == deploy_steps(
            dnf,
            pkgs@.map_values(|s: &str| s@),
            names_view(survey.upgrade@),
            names_view(survey.install@),
        ),
{
    let all = owned_names(pkgs);
    let ghost allv = pkgs@.map_values(|s: &str| s@);
    let ghost up = names_view(survey.upgrade@);
    let ghost ins = names_view(survey.install@);
    let mut plan: Vec<DeployStep> = Vec::new();
    if survey.upgrade.len() > 0 {
        let (command, warning) = if dnf {
            (PackageCommand::DnfUpgrade, "dnf upgrade reported issues — continuing with install re-sync…")
        } else {
            (PackageCommand::AptOnlyUpgrade, "apt only-upgrade soft-failed — continuing with full install…")
        };
        plan.push(
            DeployStep::Packages {
                story: Some("Raising outdated IdleScreen modules to the current channel…"),
                command,
                packages: copy_names(&survey.upgrade),
                on_failure: OnFailure::Continue(Some(String::from_str(warning))),
            },
        );
    }
    let ghost after_raise = plan_view(plan@);
    if survey.install.len() > 0 {
        let (command, on_failure) = if dnf {
            (PackageCommand::DnfInstall, dnf_install_failure(&survey.install))
        } else {
            (PackageCommand::AptInstall, OnFailure::Continue(None))
        };
        plan.push(
            DeployStep::Packages {
                story: Some("Seating new IdleScreen modules…"),
                command,
                packages: copy_names(&survey.install),
                on_failure,
            },
        );
    }
    let ghost after_seat = plan_view(plan@);
    if dnf {
        plan.push(
            DeployStep::Packages {
                story: Some("Re-syncing the full IdleScreen set against the channel…"),
                command: PackageCommand::DnfUpgrade,
                packages: copy_names(&all),
                on_failure: OnFailure::Continue(
                    Some(String::from_str("dnf upgrade (full set) soft-failed — trying install…")),
                ),
            },
        );
        let on_failure = dnf_install_failure(&all);
        plan.push(
            DeployStep::Packages {
                story: None,
                command: PackageCommand::DnfInstall,
                packages: all,
                on_failure,
            },
        );
    } else {
        proof {
            reveal_strlit("idle-tui");
        }
        let retry = strings_without(&all, "idle-tui");
        plan.push(
            DeployStep::Packages {
                story: Some("Re-syncing the full IdleScreen set against the channel…"),
                command: PackageCommand::AptInstall,
                packages: all,
                on_failure: OnFailure::Retry {
                    warning: String::from_str("Full set failed — retrying without idle-tui…"),
                    packages: retry,
                    error: String::from_str("apt-get install failed"),
                },
            },
        );
    }
    let ghost after_resync = plan_view(plan@);
    plan.push(
        DeployStep::VerifyCore {
            heading: if dnf {
                "Verifying RPM database…"
            } else {
                "Verifying dpkg database…"
            },
            error: "idle-daemon / idle-cli missing after install",
        },
    );
    assert(plan_view(plan@) =~= deploy_steps(dnf, allv, up, ins));
    plan
}

// ------------------------------------------------------------------------
// Repository setup
// ------------------------------------------------------------------------

/// Where the package channel is published.
pub const REPO_BASE: &'static str = "https://idlescreen.github.io/packages";

/// The DNF repository file the installer writes.
pub const DNF_REPO_FILE: &'static str = "/etc/yum.repos.d/idlescreen.repo";

/// The directory of APT signing keyrings.
pub const APT_KEYRING_DIR: &'static str = "/etc/apt/keyrings";

/// The APT signing keyring the installer writes.
pub const APT_KEYRING: &'static str = "/etc/apt/keyrings/idlescreen-keyring.gpg";

/// The APT source list the installer writes.
pub const APT_SOURCE_LIST: &'static str = "/etc/apt/sources.list.d/idlescreen.list";

/// A command of the repository setup.
pub enum RepoCommand {
    /// `sudo` with these arguments.
    Sudo(Vec<String>),
    /// `sh -c` with this script.
    Shell(String),
}

/// One step of the repository setup, in the order the installer runs them.
pub struct RepoStep {
    /// Printed before the step, if any.
    pub story: Option<&'static str>,
    /// What the step runs.
    pub command: RepoCommand,
    /// Whether the output of the commands is discarded.
    pub quiet: bool,
    /// Run when the command fails; the step fails only if this fails too.
    pub fallback: Option<RepoCommand>,
    /// What a failed step leads to.
    pub on_failure: OnFailure,
    /// Reported as done when the step succeeds.
    pub done: Option<String>,
    /// Printed after a successful step.
    pub note: Option<String>,
}

/// [`RepoCommand`] over plain values.
pub enum RepoCommandModel {
    Sudo(Seq<Seq<char>>),
    Shell(Seq<char>),
}

/// [`RepoStep`] over plain values.
pub struct RepoStepModel {
    pub story: Option<Seq<char>>,
    pub command: RepoCommandModel,
    pub quiet: bool,
    pub fallback: Option<RepoCommandModel>,
    pub on_failure: FailureModel,
    pub done: Option<Seq<char>>,
    pub note: Option<Seq<char>>,
}

pub open spec fn repo_command_view(c: RepoCommand) -> RepoCommandModel {
    match c {
        RepoCommand::Sudo(args) => RepoCommandModel::Sudo(names_view(args@)),
        RepoCommand::Shell(script) => RepoCommandModel::Shell(script@),
    }
}

pub open spec fn opt_text_view(o: Option<String>) -> Option<Seq<char>> {
    match o {
        Some(s) => Some(s@),
        None => None,
    }
}

pub open spec fn repo_step_view(s: RepoStep) -> RepoStepModel {
    RepoStepModel {
        story: match s.story {
            Some(t) => Some(t@),
            None => None,
        },
        command: repo_command_view(s.command),
        quiet: s.quiet,
        fallback: match s.fallback {
            Some(c) => Some(repo_command_view(c)),
            None => None,
        },
        on_failure: failure_view(s.on_failure),
        done: opt_text_view(s.done),
        note: opt_text_view(s.note),
    }
}

/// The steps of a repository setup over plain values.
pub open spec fn repo_plan_view(v: Seq<RepoStep>) -> Seq<RepoStepModel> {
    v.map_values(|s: RepoStep| repo_step_view(s))
}

/// The APT source line: the channel's `stable main`, trusted only with the
/// keyring the setup downloads.
pub open spec fn apt_source_line() -> Seq<char> {
    "deb [signed-by="@ + APT_KEYRING@ + "] "@ + REPO_BASE@ + "/apt/ stable main"@
}

/// The repository setup.  On DNF: the `.repo` file is downloaded (a
/// failure stops the installer), the channel's metadata is cleaned, and the
/// cache is refreshed for the channel, falling back to a full refresh, with
/// only a warning when both fail.  On APT: the keyring directory is made,
/// the keyring downloaded, the source list written and the index updated,
/// each step stopping the installer when it fails.
pub open spec fn repo_setup_steps(dnf: bool) -> Seq<RepoStepModel> {
    if dnf {
        seq![
            RepoStepModel {
                story: Some("Writing IdleScreen DNF repo file…"@),
                command: RepoCommandModel::Sudo(
                    seq!["curl"@, "-fsSL"@, REPO_BASE@ + "/rpm/idlescreen.repo"@, "-o"@, DNF_REPO_FILE@],
                ),
                quiet: false,
                fallback: None,
                on_failure: FailureModel::Abort("repo install failed"@),
                done: Some(DNF_REPO_FILE@),
                note: Some("baseurl "@ + REPO_BASE@ + "/rpm · "@ + DNF_GPG_DISCLAIMER@),
            },
            RepoStepModel {
                story: Some("Refreshing IdleScreen channel metadata…"@),
                command: RepoCommandModel::Sudo(
                    seq!["dnf"@, "clean"@, "metadata"@, "--repo=idlescreen"@],
                ),
                quiet: true,
                fallback: None,
                on_failure: FailureModel::Continue(None),
                done: None,
                note: None,
            },
            RepoStepModel {
                story: None,
                command: RepoCommandModel::Sudo(
                    seq!["dnf"@, "makecache"@, "--refresh"@, "--repo=idlescreen"@],
                ),
                quiet: true,
                fallback: Some(RepoCommandModel::Sudo(seq!["dnf"@, "makecache"@, "--refresh"@])),
                on_failure: FailureModel::Continue(
                    Some("Could not refresh DNF metadata — install will still try the channel"@),
                ),
                done: Some("DNF metadata refreshed for this session"@),
                note: None,
            },
        ]
    } else {
        seq![
            RepoStepModel {
                story: Some("Creating /etc/apt/keyrings if needed…"@),
                command: RepoCommandModel::Sudo(seq!["mkdir"@, "-p"@, APT_KEYRING_DIR@]),
                quiet: false,
                fallback: None,
                on_failure: FailureModel::Abort("mkdir /etc/apt/keyrings failed"@),
                done: None,
                note: None,
            },
            RepoStepModel {
                story: Some("Downloading IdleScreen APT signing keyring…"@),
                command: RepoCommandModel::Shell(
                    "curl -fsSL "@ + REPO_BASE@ + "/apt/idlescreen-keyring.gpg | sudo tee "@
                        + APT_KEYRING@ + " >/dev/null"@,
                ),
                quiet: false,
                fallback: None,
                on_failure: FailureModel::Abort(
                    "Could not download APT keyring from "@ + REPO_BASE@
                        + "/apt/idlescreen-keyring.gpg"@,
                ),
                done: Some(APT_KEYRING@),
                note: None,
            },
            RepoStepModel {
                story: Some("Writing APT source list (stable/main, signed-by keyring)…"@),
                command: RepoCommandModel::Shell(
                    "echo '"@ + apt_source_line() + "' | sudo tee "@ + APT_SOURCE_LIST@
                        + " >/dev/null"@,
                ),
                quiet: false,
                fallback: None,
                on_failure: FailureModel::Abort("Could not write "@ + APT_SOURCE_LIST@),
                done: None,
                note: None,
            },
            RepoStepModel {
                story: Some("Running apt-get update…"@),
                command: RepoCommandModel::Sudo(seq!["apt-get"@, "update"@]),
                quiet: false,
                fallback: None,
                on_failure: FailureModel::Abort("apt-get update failed"@),
                done: Some("APT index updated with IdleScreen source"@),
                note: None,
            },
        ]
    }
}

/// The APT source line, spelled out.
pub proof fn law_apt_source_line()
    ensures
        apt_source_line()
            == "deb [signed-by=/etc/apt/keyrings/idlescreen-keyring.gpg] https://idlescreen.github.io/packages/apt/ stable main"@,
{
    reveal_strlit("deb [signed-by=");
    reveal_strlit("/etc/apt/keyrings/idlescreen-keyring.gpg");
    reveal_strlit("] ");
    reveal_strlit("https://idlescreen.github.io/packages");
    reveal_strlit("/apt/ stable main");
    reveal_strlit(
        "deb [signed-by=/etc/apt/keyrings/idlescreen-keyring.gpg] https://idlescreen.github.io/packages/apt/ stable main",
    );
    assert(apt_source_line()
        =~= "deb [signed-by=/etc/apt/keyrings/idlescreen-keyring.gpg] https://idlescreen.github.io/packages/apt/ stable main"@);
}

fn push_arg(args: &mut Vec<String>, a: &str)
    ensures
        names_view(final(args)@) == names_view(old(args)@).push(a@),
{
    let ghost before = names_view(args@);
    args.push(String::from_str(a));
    assert(names_view(args@) =~= before.push(a@));
}

fn push_owned(args: &mut Vec<String>, a: String)
    ensures
        names_view(final(args)@) == names_view(old(args)@).push(a@),
{
    let ghost before = names_view(args@);
    let ghost av = a@;
    args.push(a);
    assert(names_view(args@) =~= before.push(av));
}

/// The steps of the repository setup, as [`repo_setup_steps`] says; the
/// program runs them in order.
pub fn repo_setup(dnf: bool) -> (steps: Vec<RepoStep>)
    ensures
        repo_plan_view(steps@) == repo_setup_steps(dnf),
{
    let mut steps: Vec<RepoStep> = Vec::new();
    if dnf {
        let mut fetch: Vec<String> = Vec::new();
        push_arg(&mut fetch, "curl");
        push_arg(&mut fetch, "-fsSL");
        let mut url = String::from_str(REPO_BASE);
        url.append("/rpm/idlescreen.repo");
        push_owned(&mut fetch, url);
        push_arg(&mut fetch, "-o");
        push_arg(&mut fetch, DNF_REPO_FILE);
        assert(names_view(fetch@) =~= seq![
            "curl"@,
            "-fsSL"@,
            REPO_BASE@ + "/rpm/idlescreen.repo"@,
            "-o"@,
            DNF_REPO_FILE@,
        ]);
        let mut note = String::from_str("baseurl ");
        note.append(REPO_BASE);
        note.append("/rpm · ");
        note.append(DNF_GPG_DISCLAIMER);
        assert(note@ =~= "baseurl "@ + REPO_BASE@ + "/rpm · "@ + DNF_GPG_DISCLAIMER@);
        steps.push(
            RepoStep {
                story: Some("Writing IdleScreen DNF repo file…"),
                command: RepoCommand::Sudo(fetch),
                quiet: false,
                fallback: None,
                on_failure: OnFailure::Abort(String::from_str("repo install failed")),
                done: Some(String::from_str(DNF_REPO_FILE)),
                note: Some(note),
            },
        );
        let mut clean: Vec<String> = Vec::new();
        push_arg(&mut clean, "dnf");
        push_arg(&mut clean, "clean");
        push_arg(&mut clean, "metadata");
        push_arg(&mut clean, "--repo=idlescreen");
        assert(names_view(clean@) =~= seq!["dnf"@, "clean"@, "metadata"@, "--repo=idlescreen"@]);
        steps.push(
            RepoStep {
                story: Some("Refreshing IdleScreen channel metadata…"),
                command: RepoCommand::Sudo(clean),
                quiet: true,
                fallback: None,
                on_failure: OnFailure::Continue(None),
                done: None,
                note: None,
            },
        );
        let mut channel: Vec<String> = Vec::new();
        push_arg(&mut channel, "dnf");
        push_arg(&mut channel, "makecache");
        push_arg(&mut channel, "--refresh");
        push_arg(&mut channel, "--repo=idlescreen");
        let mut full: Vec<String> = Vec::new();
        push_arg(&mut full, "dnf");
        push_arg(&mut full, "makecache");
        push_arg(&mut full, "--refresh");
        assert(names_view(channel@) =~= seq![
            "dnf"@,
            "makecache"@,
            "--refresh"@,
            "--repo=idlescreen"@,
        ]);
        assert(names_view(full@) =~= seq!["dnf"@, "makecache"@, "--refresh"@]);
        steps.push(
            RepoStep {
                story: None,
                command: RepoCommand::Sudo(channel),
                quiet: true,
                fallback: Some(RepoCommand::Sudo(full)),
                on_failure: OnFailure::Continue(
                    Some(
                        String::from_str(
                            "Could not refresh DNF metadata — install will still try the channel",
                        ),
                    ),
                ),
                done: Some(String::from_str("DNF metadata refreshed for this session")),
                note: None,
            },
        );
    } else {
        let mut mkdir: Vec<String> = Vec::new();
        push_arg(&mut mkdir, "mkdir");
        push_arg(&mut mkdir, "-p");
        push_arg(&mut mkdir, APT_KEYRING_DIR);
        assert(names_view(mkdir@) =~= seq!["mkdir"@, "-p"@, APT_KEYRING_DIR@]);
        steps.push(
            RepoStep {
                story: Some("Creating /etc/apt/keyrings if needed…"),
                command: RepoCommand::Sudo(mkdir),
                quiet: false,
                fallback: None,
                on_failure: OnFailure::Abort(String::from_str("mkdir /etc/apt/keyrings failed")),
                done: None,
                note: None,
            },
        );
        let mut fetch = String::from_str("curl -fsSL ");
        fetch.append(REPO_BASE);
        fetch.append("/apt/idlescreen-keyring.gpg | sudo tee ");
        fetch.append(APT_KEYRING);
        fetch.append(" >/dev/null");
        let mut fetch_error = String::from_str("Could not download APT keyring from ");
        fetch_error.append(REPO_BASE);
        fetch_error.append("/apt/idlescreen-keyring.gpg");
        assert(fetch@ =~= "curl -fsSL "@ + REPO_BASE@ + "/apt/idlescreen-keyring.gpg | sudo tee "@
            + APT_KEYRING@ + " >/dev/null"@);
        assert(fetch_error@ =~= "Could not download APT keyring from "@ + REPO_BASE@
            + "/apt/idlescreen-keyring.gpg"@);
        steps.push(
            RepoStep {
                story: Some("Downloading IdleScreen APT signing keyring…"),
                command: RepoCommand::Shell(fetch),
                quiet: false,
                fallback: None,
                on_failure: OnFailure::Abort(fetch_error),
                done: Some(String::from_str(APT_KEYRING)),
                note: None,
            },
        );
        let mut list = String::from_str("echo '");
        list.append("deb [signed-by=");
        list.append(APT_KEYRING);
        list.append("] ");
        list.append(REPO_BASE);
        list.append("/apt/ stable main");
        list.append("' | sudo tee ");
        list.append(APT_SOURCE_LIST);
        list.append(" >/dev/null");
        let mut list_error = String::from_str("Could not write ");
        list_error.append(APT_SOURCE_LIST);
        assert(list@ =~= "echo '"@ + apt_source_line() + "' | sudo tee "@ + APT_SOURCE_LIST@
            + " >/dev/null"@);
        steps.push(
            RepoStep {
                story: Some("Writing APT source list (stable/main, signed-by keyring)…"),
                command: RepoCommand::Shell(list),
                quiet: false,
                fallback: None,
                on_failure: OnFailure::Abort(list_error),
                done: None,
                note: None,
            },
        );
        let mut update: Vec<String> = Vec::new();
        push_arg(&mut update, "apt-get");
        push_arg(&mut update, "update");
        assert(names_view(update@) =~= seq!["apt-get"@, "update"@]);
        steps.push(
            RepoStep {
                story: Some("Running apt-get update…"),
                command: RepoCommand::Sudo(update),
                quiet: false,
                fallback: None,
                on_failure: OnFailure::Abort(String::from_str("apt-get update failed")),
                done: Some(String::from_str("APT index updated with IdleScreen source")),
                note: None,
            },
        );
    }
    assert(repo_plan_view(steps@) =~= repo_setup_steps(dnf));
    steps
}

// ------------------------------------------------------------------------
// Starting the user service
// ------------------------------------------------------------------------

/// How many times the installer asks whether the unit is active before it
/// gives up waiting.
pub const DAEMON_POLLS: u32 = 25;

/// Where the start of `idle-daemon.service` stands.  Each state awaits the
/// outcome of the action that led to it.
#[derive(Clone, Copy, Debug, PartialEq, Eq, Structural)]
pub enum DaemonState {
    /// `systemctl --user start` was run; awaits whether it succeeded.
    Started,
    /// The start was retried once; its outcome does not matter.
    Retried,
    /// The unit was asked this many times whether it is active; awaits the
    /// last answer.
    Polling(u32),
    /// The final check after the wait; awaits whether the unit is active.
    Confirming,
    /// The daemon was spawned directly; awaits whether the unit is active.
    Spawned,
    /// Finished: whether the daemon came up.
    Done(bool),
}

/// What the installer does next while starting the service.
#[derive(Clone, Copy, Debug, PartialEq, Eq, Structural)]
pub enum DaemonAction {
    /// Warn that start returned non-zero, wait 500 ms, reset the failed
    /// unit and start it again.
    RetryStart,
    /// Wait this many milliseconds, then ask whether the unit is active.
    CheckActive(u32),
    /// Warn, spawn `idle-daemon daemon` directly, wait 600 ms, then ask
    /// whether the unit is active.
    SpawnDirect,
    /// Report the unit active.
    ReportActive,
    /// Report the daemon up after the direct spawn.
    ReportUp,
    /// Report the unit not active, with the commands to start it later.
    ReportNotActive,
    /// Nothing is left to do.
    Stop,
}

/// The start sequence: a failed start is retried once; the unit is then
/// asked up to [`DAEMON_POLLS`] times, 200 ms apart, whether it is active,
/// and once more after that; if it is still not active the daemon is
/// spawned directly and asked once more.  `ok` is the outcome of the
/// action that led to `state`.
pub open spec fn daemon_transition(state: DaemonState, ok: bool) -> (DaemonState, DaemonAction) {
    match state {
        DaemonState::Started => if ok {
            (DaemonState::Polling(1), DaemonAction::CheckActive(0))
        } else {
            (DaemonState::Retried, DaemonAction::RetryStart)
        },
        DaemonState::Retried => (DaemonState::Polling(1), DaemonAction::CheckActive(0)),
        DaemonState::Polling(n) => if ok {
            (DaemonState::Confirming, DaemonAction::CheckActive(0))
        } else if n < DAEMON_POLLS {
            (DaemonState::Polling((n + 1) as u32), DaemonAction::CheckActive(200))
        } else {
            (DaemonState::Confirming, DaemonAction::CheckActive(200))
        },
        DaemonState::Confirming => if ok {
            (DaemonState::Done(true), DaemonAction::ReportActive)
        } else {
            (DaemonState::Spawned, DaemonAction::SpawnDirect)
        },
        DaemonState::Spawned => if ok {
            (DaemonState::Done(true), DaemonAction::ReportUp)
        } else {
            (DaemonState::Done(false), DaemonAction::ReportNotActive)
        },
        DaemonState::Done(up) => (DaemonState::Done(up), DaemonAction::Stop),
    }
}

/// The next state and action of the service start, given the outcome of
/// the last action.
pub fn daemon_step(state: DaemonState, ok: bool) -> (r: (DaemonState, DaemonAction))
    ensures
        r == daemon_transition(state, ok),
{
    match state {
        DaemonState::Started => if ok {
            (DaemonState::Polling(1), DaemonAction::CheckActive(0))
        } else {
            (DaemonState::Retried, DaemonAction::RetryStart)
        },
        DaemonState::Retried => (DaemonState::Polling(1), DaemonAction::CheckActive(0)),
        DaemonState::Polling(n) => if ok {
            (DaemonState::Confirming, DaemonAction::CheckActive(0))
        } else if n < DAEMON_POLLS {
            (DaemonState::Polling(n + 1), DaemonAction::CheckActive(200))
        } else {
            (DaemonState::Confirming, DaemonAction::CheckActive(200))
        },
        DaemonState::Confirming => if ok {
            (DaemonState::Done(true), DaemonAction::ReportActive)
        } else {
            (DaemonState::Spawned, DaemonAction::SpawnDirect)
        },
        DaemonState::Spawned => if ok {
            (DaemonState::Done(true), DaemonAction::ReportUp)
        } else {
            (DaemonState::Done(false), DaemonAction::ReportNotActive)
        },
        DaemonState::Done(up) => (DaemonState::Done(up), DaemonAction::Stop),
    }
}

/// The state after feeding a run of outcomes to the start sequence.
pub open spec fn daemon_run(state: DaemonState, outcomes: Seq<bool>) -> DaemonState
    decreases outcomes.len(),
{
    if outcomes.len() == 0 {
        state
    } else {
        daemon_run(daemon_transition(state, outcomes[0]).0, outcomes.drop_first())
    }
}

/// How many outcomes a state can still wait for at most.
pub open spec fn daemon_budget(state: DaemonState) -> nat {
    match state {
        DaemonState::Started => 29,
        DaemonState::Retried => 28,
        DaemonState::Polling(n) => if n >= DAEMON_POLLS {
            3
        } else {
            (28 - n) as nat
        },
        DaemonState::Confirming => 2,
        DaemonState::Spawned => 1,
        DaemonState::Done(_) => 0,
    }
}

proof fn lemma_daemon_budget(state: DaemonState, outcomes: Seq<bool>)
    requires
        outcomes.len() >= daemon_budget(state),
    ensures
        daemon_run(state, outcomes) is Done,
    decreases outcomes.len(),
{
    if outcomes.len() > 0 {
        let next = daemon_transition(state, outcomes[0]).0;
        assert(state !is Done ==> daemon_budget(next) < daemon_budget(state));
        if state is Done {
            assert(next == state);
        }
        lemma_daemon_budget(next, outcomes.drop_first());
    }
}

/// Starting the service always ends: whatever the commands and checks
/// report, after at most 29 outcomes the sequence is done, and once done it
/// stays done.
pub proof fn law_daemon_start_ends(outcomes: Seq<bool>)
    requires
        outcomes.len() >= 29,
    ensures
        daemon_run(DaemonState::Started, outcomes) is Done,
        forall|ok: bool|
            #![trigger daemon_transition(daemon_run(DaemonState::Started, outcomes), ok)]
            daemon_transition(daemon_run(DaemonState::Started, outcomes), ok).0 == daemon_run(
                DaemonState::Started,
                outcomes,
            ),
{
    lemma_daemon_budget(DaemonState::Started, outcomes);
}

} // verus!
