//! Installer copy: survey wording, plan, victory box and deploy lines.

use idlescreen_packages::install_honesty::survey::format_plan_blurb;
use idlescreen_packages::{
    CORE_PACKAGES, COSMIC_EXTRA, DNF_GPG_DISCLAIMER, OFFICIAL_SAVERS, PRODUCT_STACK_ON_REMOVE,
    REMOVE_BLURB, SurveyClass, VICTORY_BOX_INNER, VICTORY_ORNAMENT, center_in_width,
    classify_package, format_cosmic_line, format_deploy_result, format_survey_row_plain,
    format_survey_summary, format_victory_box, format_victory_box_title_row,
    format_victory_title_body, lines_same_width, packages_for_profile, strip_ansi,
    version_is_older, victory_banner, victory_box_border_inner_width,
};

#[test]
fn install_honesty_version_is_older_basic() {
    assert!(version_is_older("2.5.9-1", "2.5.10-1"));
    assert!(!version_is_older("2.5.10-1", "2.5.10-1"));
    assert!(!version_is_older("2.5.10-1", "2.5.9-1"));
    assert!(!version_is_older("", "1.0"));
    assert!(!version_is_older("1.0", ""));
}

#[test]
fn install_honesty_classify_install_upgrade_current() {
    assert_eq!(classify_package(None, Some("1.0")), SurveyClass::Install);
    assert_eq!(
        classify_package(Some("1.0-1"), Some("1.1-1")),
        SurveyClass::Upgrade
    );
    assert_eq!(
        classify_package(Some("1.1-1"), Some("1.1-1")),
        SurveyClass::Current
    );
    assert_eq!(
        classify_package(Some("1.2-1"), Some("1.1-1")),
        SurveyClass::Current
    );
    assert_eq!(
        classify_package(Some("1.0-1"), None),
        SurveyClass::CurrentUnknown
    );
}

#[test]
fn install_honesty_packages_core_same_without_cosmic() {
    let p = packages_for_profile(false);
    assert_eq!(p, CORE_PACKAGES);
    assert!(!p.contains(&COSMIC_EXTRA));
}

#[test]
fn install_honesty_packages_cosmic_adds_only_extra() {
    let p = packages_for_profile(true);
    assert_eq!(p.len(), CORE_PACKAGES.len() + 1);
    assert_eq!(p.last().copied(), Some(COSMIC_EXTRA));
    for c in &CORE_PACKAGES {
        assert!(p.contains(c));
    }
}

#[test]
fn install_honesty_plan_blurb_never_implies_generic_gets_less() {
    let g = format_plan_blurb(false);
    let c = format_plan_blurb(true);
    assert!(g.contains("Core stack (all DEs)"));
    assert!(c.contains("Core stack (all DEs)"));
    assert!(c.contains(COSMIC_EXTRA));
    assert!(!g.contains("full saver set"));
    assert!(!g.contains("core package set") || g.contains("Core stack"));
}

#[test]
fn install_honesty_survey_summary_uses_attempt_not_will_raise() {
    let lines = format_survey_summary(2, 1);
    let joined = lines.join("\n");
    assert!(joined.contains("will attempt upgrade"));
    assert!(joined.contains("will attempt install"));
    assert!(!joined.contains("will raise"));
    assert!(!joined.to_lowercase().contains("will install.") || joined.contains("attempt"));
}

#[test]
fn install_honesty_survey_summary_all_current_honest() {
    let lines = format_survey_summary(0, 0);
    assert_eq!(lines.len(), 1);
    assert!(lines[0].contains("look current"));
    assert!(lines[0].contains("re-sync"));
}

#[test]
fn install_honesty_victory_banner_three_truths() {
    assert_eq!(victory_banner(true, true).0, "INSTALL FINISHED");
    assert_eq!(victory_banner(true, false).0, "PACKAGES INSTALLED");
    assert_eq!(victory_banner(false, true).0, "INSTALL PARTIAL");
    assert_eq!(victory_banner(false, false).0, "INSTALL PARTIAL");
}

#[test]
fn install_honesty_victory_box_rows_same_width() {
    for t in ["INSTALL FINISHED", "PACKAGES INSTALLED", "INSTALL PARTIAL"] {
        let box_lines = format_victory_box(t);
        let refs: Vec<&str> = box_lines.iter().map(|s| s.as_str()).collect();
        assert!(
            lines_same_width(&refs),
            "mismatched widths for {t:?}: {:?}",
            box_lines
                .iter()
                .map(|s| s.chars().count())
                .collect::<Vec<_>>()
        );
        let w = box_lines[0].chars().count();
        for line in &box_lines {
            assert_eq!(line.chars().count(), w, "line={line:?}");
        }
    }
}

#[test]
fn install_honesty_victory_title_row_inner_is_fixed() {
    for t in ["INSTALL FINISHED", "PACKAGES INSTALLED", "INSTALL PARTIAL"] {
        let row = format_victory_box_title_row(t);
        assert!(row.starts_with('║') && row.ends_with('║'));
        let inner: String = row.chars().skip(1).take(row.chars().count() - 2).collect();
        assert_eq!(
            inner.chars().count(),
            VICTORY_BOX_INNER,
            "title={t:?} inner={inner:?}"
        );
    }
}

#[test]
fn install_honesty_victory_title_is_centered_not_left_padded_field() {
    // An old `{title:<20}` field left a lopsided gap before the right ornament.
    let body = format_victory_title_body("INSTALL FINISHED");
    assert_eq!(body.chars().count(), VICTORY_BOX_INNER);
    let trimmed = body.trim();
    assert!(
        trimmed.starts_with(VICTORY_ORNAMENT) && trimmed.ends_with(VICTORY_ORNAMENT),
        "body={body:?}"
    );
    // Leading and trailing pad should be nearly equal (off-by-one ok).
    let lead = body.chars().take_while(|c| *c == ' ').count();
    let trail = body.chars().rev().take_while(|c| *c == ' ').count();
    assert!(
        lead.abs_diff(trail) <= 1,
        "not centered: lead={lead} trail={trail} body={body:?}"
    );
    // Must not look like a left-aligned field: "INSTALL FINISHED      ✦"
    assert!(
        !body.contains("FINISHED      "),
        "left-aligned 20-col field still present: {body:?}"
    );
}

#[test]
fn install_honesty_center_in_width_basic() {
    assert_eq!(center_in_width("ab", 6), "  ab  ");
    assert_eq!(center_in_width("abc", 6), " abc  ");
    assert_eq!(center_in_width("abcdef", 4), "abcd");
}

#[test]
fn install_honesty_gpg_disclaimer_does_not_claim_repo_signed() {
    assert!(DNF_GPG_DISCLAIMER.contains("gpgcheck=1"));
    assert!(DNF_GPG_DISCLAIMER.contains("repo_gpgcheck=0"));
    assert!(!DNF_GPG_DISCLAIMER.to_lowercase().contains("repo signed"));
}

#[test]
fn install_honesty_deploy_result_honest_partial() {
    let s = format_deploy_result(3, 5);
    assert!(s.contains("3/5"));
    assert!(!s.contains("all 3"));
    let all = format_deploy_result(5, 5);
    assert!(all.contains("all 5"));
}

#[test]
fn install_honesty_cosmic_line_truth_table() {
    assert!(format_cosmic_line(false, false).is_none());
    let inst = format_cosmic_line(true, true).unwrap();
    assert!(inst.contains("is installed"));
    assert!(inst.contains("if not docked"));
    let miss = format_cosmic_line(true, false).unwrap();
    assert!(miss.contains("not installed"));
}

#[test]
fn install_honesty_survey_row_upgrade_shows_both_versions() {
    let r = format_survey_row_plain(
        "idle-daemon",
        SurveyClass::Upgrade,
        Some("2.5.9-1"),
        Some("2.5.10-1"),
    );
    assert!(r.contains("2.5.9-1"));
    assert!(r.contains("2.5.10-1"));
    assert!(r.contains("upgrade"));
}

#[test]
fn install_honesty_survey_row_unknown_channel_does_not_say_matches() {
    let r = format_survey_row_plain(
        "idle-cli",
        SurveyClass::CurrentUnknown,
        Some("2.5.5-1"),
        None,
    );
    assert!(r.contains("channel version unknown"));
    assert!(!r.contains("matches channel"));
}

#[test]
fn install_honesty_strip_ansi_removes_csi() {
    let s = "\x1b[38;5;82m✔\x1b[0m ok";
    assert_eq!(strip_ansi(s), "✔ ok");
}

#[test]
fn install_honesty_lines_same_width_detects_mismatch() {
    assert!(lines_same_width(&["abc", "xyz"]));
    assert!(!lines_same_width(&["abc", "abcd"]));
}

#[test]
fn format_gpg_disclaimer_does_not_claim_repo_signed() {
    assert!(DNF_GPG_DISCLAIMER.contains("gpgcheck=1"));
    assert!(DNF_GPG_DISCLAIMER.contains("repo_gpgcheck=0"));
    assert!(!DNF_GPG_DISCLAIMER.to_lowercase().contains("repo signed"));
}

#[test]
fn format_deploy_result_honest_partial() {
    let s = format_deploy_result(3, 5);
    assert!(s.contains("3/5"));
    assert!(!s.contains("all 3"));
    let all = format_deploy_result(5, 5);
    assert!(all.contains("all 5"));
}

#[test]
fn format_cosmic_line_truth_table() {
    assert!(format_cosmic_line(false, false).is_none());
    let inst = format_cosmic_line(true, true).unwrap();
    assert!(inst.contains("is installed"));
    assert!(inst.contains("if not docked"));
    let miss = format_cosmic_line(true, false).unwrap();
    assert!(miss.contains("not installed"));
}

#[test]
fn format_strip_ansi_removes_csi() {
    let s = "\x1b[38;5;82m✔\x1b[0m ok";
    assert_eq!(strip_ansi(s), "✔ ok");
}

#[test]
fn format_lines_same_width_detects_mismatch() {
    assert!(lines_same_width(&["abc", "xyz"]));
    assert!(!lines_same_width(&["abc", "abcd"]));
}

#[test]
fn survey_version_is_older_basic() {
    assert!(version_is_older("2.5.9-1", "2.5.10-1"));
    assert!(!version_is_older("2.5.10-1", "2.5.10-1"));
    assert!(!version_is_older("2.5.10-1", "2.5.9-1"));
    assert!(!version_is_older("", "1.0"));
    assert!(!version_is_older("1.0", ""));
}

#[test]
fn survey_classify_install_upgrade_current() {
    assert_eq!(classify_package(None, Some("1.0")), SurveyClass::Install);
    assert_eq!(
        classify_package(Some("1.0-1"), Some("1.1-1")),
        SurveyClass::Upgrade
    );
    assert_eq!(
        classify_package(Some("1.1-1"), Some("1.1-1")),
        SurveyClass::Current
    );
    assert_eq!(
        classify_package(Some("1.2-1"), Some("1.1-1")),
        SurveyClass::Current
    );
    assert_eq!(
        classify_package(Some("1.0-1"), None),
        SurveyClass::CurrentUnknown
    );
}

#[test]
fn survey_packages_core_same_without_cosmic() {
    let p = packages_for_profile(false);
    assert_eq!(p, CORE_PACKAGES);
    assert!(!p.contains(&COSMIC_EXTRA));
}

#[test]
fn survey_packages_cosmic_adds_only_extra() {
    let p = packages_for_profile(true);
    assert_eq!(p.len(), CORE_PACKAGES.len() + 1);
    assert_eq!(p.last().copied(), Some(COSMIC_EXTRA));
    for c in &CORE_PACKAGES {
        assert!(p.contains(c));
    }
}

#[test]
fn survey_plan_blurb_never_implies_generic_gets_less() {
    let g = format_plan_blurb(false);
    let c = format_plan_blurb(true);
    assert!(g.contains("Core stack (all DEs)"));
    assert!(c.contains("Core stack (all DEs)"));
    assert!(c.contains(COSMIC_EXTRA));
    assert!(!g.contains("full saver set"));
    assert!(!g.contains("core package set") || g.contains("Core stack"));
}

#[test]
fn survey_survey_summary_uses_attempt_not_will_raise() {
    let lines = format_survey_summary(2, 1);
    let joined = lines.join("\n");
    assert!(joined.contains("will attempt upgrade"));
    assert!(joined.contains("will attempt install"));
    assert!(!joined.contains("will raise"));
    assert!(!joined.to_lowercase().contains("will install.") || joined.contains("attempt"));
}

#[test]
fn survey_survey_summary_all_current_honest() {
    let lines = format_survey_summary(0, 0);
    assert_eq!(lines.len(), 1);
    assert!(lines[0].contains("look current"));
    assert!(lines[0].contains("re-sync"));
}

#[test]
fn survey_survey_row_upgrade_shows_both_versions() {
    let r = format_survey_row_plain(
        "idle-daemon",
        SurveyClass::Upgrade,
        Some("2.5.9-1"),
        Some("2.5.10-1"),
    );
    assert!(r.contains("2.5.9-1"));
    assert!(r.contains("2.5.10-1"));
    assert!(r.contains("upgrade"));
}

#[test]
fn survey_survey_row_unknown_channel_does_not_say_matches() {
    let r = format_survey_row_plain(
        "idle-cli",
        SurveyClass::CurrentUnknown,
        Some("2.5.5-1"),
        None,
    );
    assert!(r.contains("channel version unknown"));
    assert!(!r.contains("matches channel"));
}

#[test]
fn victory_victory_banner_three_truths() {
    assert_eq!(victory_banner(true, true).0, "INSTALL FINISHED");
    assert_eq!(victory_banner(true, false).0, "PACKAGES INSTALLED");
    assert_eq!(victory_banner(false, true).0, "INSTALL PARTIAL");
    assert_eq!(victory_banner(false, false).0, "INSTALL PARTIAL");
}

#[test]
fn victory_victory_box_rows_same_width() {
    for t in ["INSTALL FINISHED", "PACKAGES INSTALLED", "INSTALL PARTIAL"] {
        let box_lines = format_victory_box(t);
        let refs: Vec<&str> = box_lines.iter().map(|s| s.as_str()).collect();
        assert!(
            lines_same_width(&refs),
            "mismatched widths for {t:?}: {:?}",
            box_lines
                .iter()
                .map(|s| s.chars().count())
                .collect::<Vec<_>>()
        );
        let w = box_lines[0].chars().count();
        for line in &box_lines {
            assert_eq!(line.chars().count(), w, "line={line:?}");
        }
    }
}

#[test]
fn victory_victory_title_row_inner_is_fixed() {
    for t in ["INSTALL FINISHED", "PACKAGES INSTALLED", "INSTALL PARTIAL"] {
        let row = format_victory_box_title_row(t);
        assert!(row.starts_with('║') && row.ends_with('║'));
        let inner: String = row.chars().skip(1).take(row.chars().count() - 2).collect();
        assert_eq!(
            inner.chars().count(),
            VICTORY_BOX_INNER,
            "title={t:?} inner={inner:?}"
        );
    }
}

#[test]
fn victory_victory_title_is_centered_not_left_padded_field() {
    // An old `{title:<20}` field left a lopsided gap before the right ornament.
    let body = format_victory_title_body("INSTALL FINISHED");
    assert_eq!(body.chars().count(), VICTORY_BOX_INNER);
    let trimmed = body.trim();
    assert!(
        trimmed.starts_with(VICTORY_ORNAMENT) && trimmed.ends_with(VICTORY_ORNAMENT),
        "body={body:?}"
    );
    // Leading and trailing pad should be nearly equal (off-by-one ok).
    let lead = body.chars().take_while(|c| *c == ' ').count();
    let trail = body.chars().rev().take_while(|c| *c == ' ').count();
    assert!(
        lead.abs_diff(trail) <= 1,
        "not centered: lead={lead} trail={trail} body={body:?}"
    );
    // Must not look like a left-aligned field: "INSTALL FINISHED      ✦"
    assert!(
        !body.contains("FINISHED      "),
        "left-aligned 20-col field still present: {body:?}"
    );
}

#[test]
fn victory_center_in_width_basic() {
    assert_eq!(center_in_width("ab", 6), "  ab  ");
    assert_eq!(center_in_width("abc", 6), " abc  ");
    assert_eq!(center_in_width("abcdef", 4), "abcd");
}

#[test]
fn product_stack_on_remove_covers_installer_and_savers() {
    for p in [
        "idle-daemon",
        "idle-cli",
        "idle-savers",
        "idle-tui",
        "idle-cosmic",
    ] {
        assert!(
            PRODUCT_STACK_ON_REMOVE.contains(&p),
            "missing module {p} from remove list"
        );
    }
    for s in &OFFICIAL_SAVERS {
        assert!(
            PRODUCT_STACK_ON_REMOVE.contains(s),
            "missing saver {s} from remove list"
        );
    }
    // The brand package is removed by the package manager itself.
    assert!(!PRODUCT_STACK_ON_REMOVE.contains(&"idlescreen"));
}

#[test]
fn remove_blurb_documents_stack_wipe() {
    assert!(REMOVE_BLURB.contains("dnf remove idlescreen"));
    assert!(REMOVE_BLURB.contains("modules") || REMOVE_BLURB.contains("savers"));
}

#[test]
fn plan_blurb_exact_text() {
    assert_eq!(
        format_plan_blurb(false),
        "Core stack (all DEs): idle-daemon idle-cli idle-savers idle-tui idlescreen"
    );
    assert_eq!(
        format_plan_blurb(true),
        "Core stack (all DEs): idle-daemon idle-cli idle-savers idle-tui idlescreen  ·  COSMIC: also idle-cosmic"
    );
}

#[test]
fn survey_rows_exact_text() {
    assert_eq!(
        format_survey_row_plain("idle-tui", SurveyClass::Install, None, Some("1.0")),
        "idle-tui  not installed  →  install"
    );
    assert_eq!(
        format_survey_row_plain("idle-tui", SurveyClass::Current, Some("1.0"), Some("1.0")),
        "idle-tui  1.0  matches channel (=1.0)"
    );
    assert_eq!(
        format_survey_row_plain("idle-tui", SurveyClass::Upgrade, None, None),
        "idle-tui  ?  →  ?  upgrade"
    );
}

#[test]
fn survey_summary_exact_lines() {
    assert_eq!(
        format_survey_summary(2, 0),
        vec!["Survey: 2 outdated module(s) — will attempt upgrade to channel.".to_string()]
    );
    assert_eq!(
        format_survey_summary(0, 3),
        vec!["Survey: 3 missing module(s) — will attempt install.".to_string()]
    );
    assert_eq!(
        format_survey_summary(0, 0),
        vec!["Survey: planned modules look current — will still re-sync (may no-op).".to_string()]
    );
}

#[test]
fn victory_banner_notes() {
    assert_eq!(victory_banner(true, true).1, "packages present · daemon active");
    assert_eq!(victory_banner(true, false).1, "daemon not active yet — see notes above");
    assert_eq!(victory_banner(false, true).1, "some planned packages missing — see list above");
}

#[test]
fn victory_box_exact_rows() {
    let b = format_victory_box("INSTALL PARTIAL");
    assert_eq!(b[0], format!("╔{}╗", "═".repeat(54)));
    assert_eq!(b[1], format!("║{}║", " ".repeat(54)));
    assert_eq!(b[4], format!("╚{}╝", "═".repeat(54)));
    assert_eq!(
        format_victory_title_body("INSTALL PARTIAL"),
        format!("{}✦  INSTALL PARTIAL  ✦{}", " ".repeat(16), " ".repeat(17))
    );
    assert_eq!(victory_box_border_inner_width(), 54);
}

#[test]
fn center_in_width_edges() {
    assert_eq!(center_in_width("", 3), "   ");
    assert_eq!(center_in_width("abc", 3), "abc");
    assert_eq!(center_in_width("✦✦", 1), "✦");
}

#[test]
fn deploy_result_exact_text() {
    assert_eq!(
        format_deploy_result(5, 5),
        "Deploy finished — all 5 planned package(s) present."
    );
    assert_eq!(
        format_deploy_result(3, 5),
        "Deploy finished — 3/5 planned package(s) present."
    );
    assert_eq!(format_deploy_result(0, 0), "Deploy finished — empty plan.");
}

#[test]
fn strip_ansi_keeps_plain_text() {
    assert_eq!(strip_ansi("plain"), "plain");
    assert_eq!(strip_ansi("\x1b[1mbold\x1b[0m"), "bold");
    assert_eq!(strip_ansi(""), "");
}

#[test]
fn lines_same_width_counts_chars() {
    assert!(lines_same_width(&[]));
    assert!(lines_same_width(&["✦a", "bc"]));
    assert!(!lines_same_width(&["a", "b", "cd"]));
}
