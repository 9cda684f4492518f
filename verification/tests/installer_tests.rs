//! Installer decisions: host reports, survey tally, deploy steps, recount
//! and the start of the user service.

use idlescreen_packages::installer::{
    RepoCommand, RepoStep, repo_setup, DaemonAction, DaemonState, DeployStep, OnFailure, PackageCommand, Survey, apt_candidate_from,
    captured_text, daemon_step, deploy, desktop_label_from, is_apt, is_cosmic_from, is_dnf,
    os_pretty_from, packages, pkg_present, recount, tally_survey,
};

fn strings(v: &[&str]) -> Vec<String> {
    v.iter().map(|s| s.to_string()).collect()
}

fn survey(upgrade: &[&str], install: &[&str]) -> Survey {
    Survey {
        upgrade: strings(upgrade),
        install: strings(install),
        current: Vec::new(),
    }
}

/// A step as plain values: story, command, packages, failure handling.
fn describe(step: &DeployStep) -> String {
    match step {
        DeployStep::Packages {
            story,
            command,
            packages,
            on_failure,
        } => {
            let fail = match on_failure {
                OnFailure::Continue(None) => "continue".to_string(),
                OnFailure::Continue(Some(w)) => format!("warn {w}"),
                OnFailure::Abort(e) => format!("abort {e}"),
                OnFailure::Retry {
                    warning,
                    packages,
                    error,
                } => format!("retry {warning} [{}] {error}", packages.join(" ")),
            };
            format!(
                "{} | {command:?} [{}] | {fail}",
                story.unwrap_or("-"),
                packages.join(" ")
            )
        }
        DeployStep::VerifyCore { heading, error } => format!("{heading} | verify | {error}"),
    }
}

#[test]
fn packages_plan_per_profile() {
    assert_eq!(
        packages(false),
        vec!["idle-daemon", "idle-cli", "idle-savers", "idle-tui", "idlescreen"]
    );
    assert_eq!(packages(true).last().copied(), Some("idle-cosmic"));
}

#[test]
fn package_manager_probes() {
    assert!(is_dnf(true, false));
    assert!(is_dnf(false, true));
    assert!(!is_dnf(false, false));
    assert!(is_apt(false, true));
    assert!(!is_apt(false, false));
}

#[test]
fn pkg_present_needs_success_and_output() {
    assert!(pkg_present(true, "2.5.10-1\n"));
    assert!(!pkg_present(true, "  \n"));
    assert!(!pkg_present(false, "2.5.10-1"));
}

#[test]
fn captured_text_trims() {
    assert_eq!(captured_text("  active\n").as_deref(), Some("active"));
    assert_eq!(captured_text("\n\t "), None);
}

#[test]
fn cosmic_detection() {
    assert!(is_cosmic_from(true, false, ""));
    assert!(is_cosmic_from(false, true, "GNOME"));
    assert!(is_cosmic_from(false, false, "pop:COSMIC"));
    assert!(!is_cosmic_from(false, false, "ubuntu:GNOME"));
}

#[test]
fn desktop_labels() {
    assert_eq!(desktop_label_from(true, true, true, "GNOME"), ("cosmic", "COSMIC Desktop"));
    assert_eq!(desktop_label_from(false, true, false, ""), ("hyprland", "Hyprland"));
    assert_eq!(desktop_label_from(false, false, false, "sway"), ("sway", "Sway"));
    assert_eq!(desktop_label_from(false, false, true, ""), ("sway", "Sway"));
    assert_eq!(desktop_label_from(false, false, false, "ubuntu:GNOME"), ("gnome", "GNOME"));
    assert_eq!(desktop_label_from(false, false, false, "KDE"), ("kde", "KDE Plasma"));
    assert_eq!(desktop_label_from(false, false, false, "plasma"), ("kde", "KDE Plasma"));
    assert_eq!(desktop_label_from(false, false, false, "XFCE"), ("xfce", "Xfce"));
    assert_eq!(
        desktop_label_from(false, false, false, "i3"),
        ("other", "Generic / unknown DE")
    );
}

#[test]
fn os_release_pretty_name() {
    let text = "NAME=\"Fedora Linux\"\nPRETTY_NAME=\"Fedora Linux 41 (Workstation Edition)\"\nID=fedora\n";
    assert_eq!(os_pretty_from(text), "Fedora Linux 41 (Workstation Edition)");
    assert_eq!(os_pretty_from("PRETTY_NAME=Debian\r\n"), "Debian");
    assert_eq!(os_pretty_from("ID=arch\n"), "Unknown Linux");
    assert_eq!(os_pretty_from(" PRETTY_NAME=\"x\""), "Unknown Linux");
    assert_eq!(os_pretty_from("PRETTY_NAME=\"a\"\nPRETTY_NAME=\"b\""), "a");
}

#[test]
fn apt_policy_candidate() {
    let out = "idle-cli:\n  Installed: 2.5.9-1\n  Candidate: 2.5.10-1\n  Version table:\n";
    assert_eq!(apt_candidate_from(out).as_deref(), Some("2.5.10-1"));
    assert_eq!(apt_candidate_from("x:\n  Candidate: (none)\n"), None);
    assert_eq!(apt_candidate_from("x:\n  Candidate:   \n  Candidate: 1\n"), None);
    assert_eq!(apt_candidate_from("x:\n  Installed: 1\n"), None);
}

#[test]
fn survey_tally_sorts_by_class() {
    let observed = vec![
        ("idle-daemon".to_string(), Some("2.5.9-1".to_string()), Some("2.5.10-1".to_string())),
        ("idle-cli".to_string(), None, Some("2.5.10-1".to_string())),
        ("idle-savers".to_string(), Some("2.5.10-1".to_string()), Some("2.5.10-1".to_string())),
        ("idle-tui".to_string(), Some("1.0".to_string()), None),
        ("idlescreen".to_string(), None, None),
    ];
    let s = tally_survey(&observed);
    assert_eq!(s.upgrade, strings(&["idle-daemon"]));
    assert_eq!(s.install, strings(&["idle-cli", "idlescreen"]));
    assert_eq!(s.current, strings(&["idle-savers", "idle-tui"]));
}

#[test]
fn recount_splits_present_and_missing() {
    let (present, missing) = recount(&[("a", true), ("b", false), ("c", true)]);
    assert_eq!(present, vec!["a", "c"]);
    assert_eq!(missing, vec!["b"]);
}

#[test]
fn deploy_dnf_full_plan() {
    let pkgs = ["idle-daemon", "idle-cli", "idle-tui"];
    let plan = deploy(true, &pkgs, &survey(&["idle-daemon"], &["idle-cli", "idle-tui"]));
    let got: Vec<String> = plan.iter().map(describe).collect();
    assert_eq!(
        got,
        vec![
            "Raising outdated IdleScreen modules to the current channel… | DnfUpgrade [idle-daemon] | warn dnf upgrade reported issues — continuing with install re-sync…",
            "Seating new IdleScreen modules… | DnfInstall [idle-cli idle-tui] | abort dnf install failed for: idle-cli idle-tui",
            "Re-syncing the full IdleScreen set against the channel… | DnfUpgrade [idle-daemon idle-cli idle-tui] | warn dnf upgrade (full set) soft-failed — trying install…",
            "- | DnfInstall [idle-daemon idle-cli idle-tui] | abort dnf install failed for: idle-daemon idle-cli idle-tui",
            "Verifying RPM database… | verify | idle-daemon / idle-cli missing after install",
        ]
    );
}

#[test]
fn deploy_apt_retries_without_tui() {
    let pkgs = ["idle-daemon", "idle-tui", "idle-cli"];
    let plan = deploy(false, &pkgs, &survey(&["idle-cli"], &["idle-tui"]));
    let got: Vec<String> = plan.iter().map(describe).collect();
    assert_eq!(
        got,
        vec![
            "Raising outdated IdleScreen modules to the current channel… | AptOnlyUpgrade [idle-cli] | warn apt only-upgrade soft-failed — continuing with full install…",
            "Seating new IdleScreen modules… | AptInstall [idle-tui] | continue",
            "Re-syncing the full IdleScreen set against the channel… | AptInstall [idle-daemon idle-tui idle-cli] | retry Full set failed — retrying without idle-tui… [idle-daemon idle-cli] apt-get install failed",
            "Verifying dpkg database… | verify | idle-daemon / idle-cli missing after install",
        ]
    );
}

#[test]
fn deploy_with_nothing_outdated_or_missing() {
    let plan = deploy(true, &["idle-daemon"], &survey(&[], &[]));
    assert_eq!(plan.len(), 3);
    match &plan[0] {
        DeployStep::Packages { command, .. } => assert_eq!(*command, PackageCommand::DnfUpgrade),
        _ => panic!("expected a package step"),
    }
    let plan = deploy(false, &["idle-daemon"], &survey(&[], &[]));
    assert_eq!(plan.len(), 2);
}

/// Drives the service start with a fixed run of outcomes.
fn run_daemon(outcomes: &[bool]) -> (DaemonState, Vec<DaemonAction>) {
    let mut state = DaemonState::Started;
    let mut actions = Vec::new();
    for ok in outcomes {
        let (next, action) = daemon_step(state, *ok);
        state = next;
        actions.push(action);
    }
    (state, actions)
}

#[test]
fn daemon_start_happy_path() {
    let (state, actions) = run_daemon(&[true, true, true]);
    assert_eq!(state, DaemonState::Done(true));
    assert_eq!(
        actions,
        vec![
            DaemonAction::CheckActive(0),
            DaemonAction::CheckActive(0),
            DaemonAction::ReportActive
        ]
    );
}

#[test]
fn daemon_start_retries_once_then_polls() {
    let (state, actions) = run_daemon(&[false, false, false, true, true]);
    assert_eq!(state, DaemonState::Done(true));
    assert_eq!(
        actions,
        vec![
            DaemonAction::RetryStart,
            DaemonAction::CheckActive(0),
            DaemonAction::CheckActive(200),
            DaemonAction::CheckActive(0),
            DaemonAction::ReportActive
        ]
    );
}

#[test]
fn daemon_start_gives_up_after_polls_and_spawn() {
    let mut outcomes = vec![true];
    outcomes.extend(std::iter::repeat(false).take(27));
    let (state, actions) = run_daemon(&outcomes);
    assert_eq!(state, DaemonState::Done(false));
    assert_eq!(actions.len(), 28);
    assert_eq!(actions[25], DaemonAction::CheckActive(200));
    assert_eq!(actions[26], DaemonAction::SpawnDirect);
    assert_eq!(actions[27], DaemonAction::ReportNotActive);
    assert_eq!(daemon_step(state, true), (DaemonState::Done(false), DaemonAction::Stop));
    let checks = actions
        .iter()
        .filter(|a| matches!(a, DaemonAction::CheckActive(_)))
        .count();
    assert_eq!(checks, 26);
}

#[test]
fn daemon_start_up_after_spawn() {
    let mut outcomes = vec![true];
    outcomes.extend(std::iter::repeat(false).take(26));
    outcomes.push(true);
    let (state, actions) = run_daemon(&outcomes);
    assert_eq!(state, DaemonState::Done(true));
    assert_eq!(actions.last(), Some(&DaemonAction::ReportUp));
}

fn describe_repo(step: &RepoStep) -> String {
    let cmd = |c: &RepoCommand| match c {
        RepoCommand::Sudo(args) => format!("sudo {}", args.join(" ")),
        RepoCommand::Shell(script) => format!("sh -c {script}"),
    };
    let fail = match &step.on_failure {
        OnFailure::Continue(None) => "continue".to_string(),
        OnFailure::Continue(Some(w)) => format!("warn {w}"),
        OnFailure::Abort(e) => format!("abort {e}"),
        OnFailure::Retry { error, .. } => format!("retry {error}"),
    };
    format!(
        "{} | {}{} | else {} | {} | ok {} | {}",
        step.story.unwrap_or("-"),
        cmd(&step.command),
        if step.quiet { " (quiet)" } else { "" },
        step.fallback.as_ref().map(|c| cmd(c)).unwrap_or_else(|| "-".into()),
        fail,
        step.done.as_deref().unwrap_or("-"),
        step.note.as_deref().unwrap_or("-"),
    )
}

#[test]
fn repo_setup_dnf_steps() {
    let got: Vec<String> = repo_setup(true).iter().map(describe_repo).collect();
    assert_eq!(
        got,
        vec![
            "Writing IdleScreen DNF repo file… | sudo curl -fsSL https://idlescreen.github.io/packages/rpm/idlescreen.repo -o /etc/yum.repos.d/idlescreen.repo | else - | abort repo install failed | ok /etc/yum.repos.d/idlescreen.repo | baseurl https://idlescreen.github.io/packages/rpm · package gpgcheck=1 · repo_gpgcheck=0",
            "Refreshing IdleScreen channel metadata… | sudo dnf clean metadata --repo=idlescreen (quiet) | else - | continue | ok - | -",
            "- | sudo dnf makecache --refresh --repo=idlescreen (quiet) | else sudo dnf makecache --refresh | warn Could not refresh DNF metadata — install will still try the channel | ok DNF metadata refreshed for this session | -",
        ]
    );
}

#[test]
fn repo_setup_apt_steps() {
    let got: Vec<String> = repo_setup(false).iter().map(describe_repo).collect();
    assert_eq!(
        got,
        vec![
            "Creating /etc/apt/keyrings if needed… | sudo mkdir -p /etc/apt/keyrings | else - | abort mkdir /etc/apt/keyrings failed | ok - | -",
            "Downloading IdleScreen APT signing keyring… | sh -c curl -fsSL https://idlescreen.github.io/packages/apt/idlescreen-keyring.gpg | sudo tee /etc/apt/keyrings/idlescreen-keyring.gpg >/dev/null | else - | abort Could not download APT keyring from https://idlescreen.github.io/packages/apt/idlescreen-keyring.gpg | ok /etc/apt/keyrings/idlescreen-keyring.gpg | -",
            "Writing APT source list (stable/main, signed-by keyring)… | sh -c echo 'deb [signed-by=/etc/apt/keyrings/idlescreen-keyring.gpg] https://idlescreen.github.io/packages/apt/ stable main' | sudo tee /etc/apt/sources.list.d/idlescreen.list >/dev/null | else - | abort Could not write /etc/apt/sources.list.d/idlescreen.list | ok - | -",
            "Running apt-get update… | sudo apt-get update | else - | abort apt-get update failed | ok APT index updated with IdleScreen source | -",
        ]
    );
}
