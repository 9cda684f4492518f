//! Survey of installed versus channel packages, and the plan wording.

use vstd::prelude::*;
use super::constants::{CORE_PACKAGES, COSMIC_EXTRA};
use crate::decimal::{decimal, push_decimal};
use crate::text::join_with;
use crate::version_cmp::{version_order, version_order_of};

verus! {

/// Survey classification for one package (no I/O).
#[derive(Debug, Clone, Copy, PartialEq, Eq, Structural)]
pub enum SurveyClass {
    /// Not installed: will attempt install.
    Install,
    /// Installed older than channel: will attempt upgrade.
    Upgrade,
    /// Installed and matches (or is not older than) channel.
    Current,
    /// Installed but channel version unknown: do not claim "matches channel".
    CurrentUnknown,
}

/// Both versions are known and the installed one sorts strictly before the
/// candidate.
pub open spec fn is_older(installed: Seq<char>, candidate: Seq<char>) -> bool {
    installed.len() > 0 && candidate.len() > 0 && version_order(installed, candidate) == -1
}

/// The class of a package from its optional installed and channel versions.
pub open spec fn classify(installed: Option<Seq<char>>, candidate: Option<Seq<char>>) -> SurveyClass {
    match (installed, candidate) {
        (None, _) => SurveyClass::Install,
        (Some(i), Some(c)) => if is_older(i, c) {
            SurveyClass::Upgrade
        } else {
            SurveyClass::Current
        },
        (Some(_), None) => SurveyClass::CurrentUnknown,
    }
}

/// The text of an optional string slice.
pub open spec fn opt_text(o: Option<&str>) -> Option<Seq<char>> {
    match o {
        Some(s) => Some(s@),
        None => None,
    }
}

/// True when installed version is strictly older than candidate.
pub fn version_is_older(installed: &str, candidate: &str) -> (r: bool)
    ensures
        r == is_older(installed@, candidate@),
{
    installed.unicode_len() > 0 && candidate.unicode_len() > 0 && version_order_of(
        installed,
        candidate,
    ) == -1
}

/// Classify one package from optional installed + candidate versions.
pub fn classify_package(installed: Option<&str>, candidate: Option<&str>) -> (c: SurveyClass)
    ensures
        c == classify(opt_text(installed), opt_text(candidate)),
{
    match (installed, candidate) {
        (None, _) => SurveyClass::Install,
        (Some(i), Some(c)) => if version_is_older(i, c) {
            SurveyClass::Upgrade
        } else {
            SurveyClass::Current
        },
        (Some(_), None) => SurveyClass::CurrentUnknown,
    }
}

/// The packages planned for a desktop: the core set, plus the COSMIC applet
/// on COSMIC.
pub open spec fn profile_packages(cosmic: bool) -> Seq<&'static str> {
    if cosmic {
        CORE_PACKAGES@.push(COSMIC_EXTRA)
    } else {
        CORE_PACKAGES@
    }
}

/// Package list for a desktop profile (pure).
pub fn packages_for_profile(cosmic: bool) -> (p: Vec<&'static str>)
    ensures
        p@ == profile_packages(cosmic),
{
    let mut p: Vec<&'static str> = Vec::new();
    let mut i: usize = 0;
    while i < 5
        invariant
            i <= 5,
            p@ == CORE_PACKAGES@.take(i as int),
        decreases 5 - i,
    {
        p.push(CORE_PACKAGES[i]);
        i = i + 1;
        assert(p@ =~= CORE_PACKAGES@.take(i as int));
    }
    assert(CORE_PACKAGES@.take(5) =~= CORE_PACKAGES@);
    if cosmic {
        p.push(COSMIC_EXTRA);
    }
    p
}

/// The core packages separated by single spaces.
pub open spec fn core_list() -> Seq<char> {
    join_with(CORE_PACKAGES@.map_values(|s: &str| s@), " "@)
}

fn push_core_list(out: &mut String)
    ensures
        final(out)@ == old(out)@ + core_list(),
{
    let ghost views = CORE_PACKAGES@.map_values(|s: &str| s@);
    let mut i: usize = 0;
    assert(views.take(0) =~= Seq::<Seq<char>>::empty());
    assert(old(out)@ + join_with(views.take(0), " "@) =~= old(out)@);
    while i < 5
        invariant
            i <= 5,
            views == CORE_PACKAGES@.map_values(|s: &str| s@),
            out@ == old(out)@ + join_with(views.take(i as int), " "@),
        decreases 5 - i,
    {
        assert(views.take(i + 1).drop_last() =~= views.take(i as int));
        assert(views.take(i + 1).last() == CORE_PACKAGES[i as int]@);
        if i > 0 {
            out.append(" ");
        }
        out.append(CORE_PACKAGES[i]);
        i = i + 1;
        if i == 1 {
            assert(out@ =~= old(out)@ + join_with(views.take(i as int), " "@));
        } else {
            assert(out@ =~= old(out)@ + join_with(views.take(i as int), " "@));
        }
    }
    assert(views.take(5) =~= views);
}

/// The plan wording: the same core on every desktop, and the applet only
/// added on COSMIC.
pub open spec fn plan_blurb(cosmic: bool) -> Seq<char> {
    if cosmic {
        "Core stack (all DEs): "@ + core_list() + "  ·  COSMIC: also "@ + COSMIC_EXTRA@
    } else {
        "Core stack (all DEs): "@ + core_list()
    }
}

/// Honest one-liner describing the package plan (no DE gets a fake "full" vs "core" split).
pub fn format_plan_blurb(cosmic: bool) -> (s: String)
    ensures
        s@ == plan_blurb(cosmic),
{
    let mut s = String::from_str("Core stack (all DEs): ");
    push_core_list(&mut s);
    if cosmic {
        s.append("  ·  COSMIC: also ");
        s.append(COSMIC_EXTRA);
    }
    s
}

/// A version to show, `?` when unknown.
pub open spec fn shown(v: Option<Seq<char>>) -> Seq<char> {
    match v {
        Some(s) => s,
        None => "?"@,
    }
}

/// One survey row without colour.
pub open spec fn survey_row(
    pkg: Seq<char>,
    class: SurveyClass,
    installed: Option<Seq<char>>,
    candidate: Option<Seq<char>>,
) -> Seq<char> {
    match class {
        SurveyClass::Install => pkg + "  not installed  →  install"@,
        SurveyClass::Upgrade => pkg + "  "@ + shown(installed) + "  →  "@ + shown(candidate)
            + "  upgrade"@,
        SurveyClass::Current => pkg + "  "@ + shown(installed) + "  matches channel (="@ + shown(
            candidate,
        ) + ")"@,
        SurveyClass::CurrentUnknown => pkg + "  "@ + shown(installed)
            + "  (installed; channel version unknown)"@,
    }
}

fn shown_str<'a>(v: Option<&'a str>) -> (r: &'a str)
    ensures
        r@ == shown(opt_text(v)),
{
    match v {
        Some(s) => s,
        None => "?",
    }
}

/// Human survey row without ANSI (for goldens / tests).
pub fn format_survey_row_plain(
    pkg: &str,
    class: SurveyClass,
    installed: Option<&str>,
    candidate: Option<&str>,
) -> (row: String)
    ensures
        row@ == survey_row(pkg@, class, opt_text(installed), opt_text(candidate)),
{
    let mut row = String::from_str(pkg);
    match class {
        SurveyClass::Install => {
            row.append("  not installed  →  install");
        },
        SurveyClass::Upgrade => {
            row.append("  ");
            row.append(shown_str(installed));
            row.append("  →  ");
            row.append(shown_str(candidate));
            row.append("  upgrade");
        },
        SurveyClass::Current => {
            row.append("  ");
            row.append(shown_str(installed));
            row.append("  matches channel (=");
            row.append(shown_str(candidate));
            row.append(")");
        },
        SurveyClass::CurrentUnknown => {
            row.append("  ");
            row.append(shown_str(installed));
            row.append("  (installed; channel version unknown)");
        },
    }
    row
}

/// The summary lines after a survey: one per kind of work planned, or one
/// saying everything looks current.
pub open spec fn survey_summary(upgrade_n: nat, install_n: nat) -> Seq<Seq<char>> {
    let up: Seq<Seq<char>> = if upgrade_n > 0 {
        seq![
            "Survey: "@ + decimal(upgrade_n) + " outdated module(s) — will attempt upgrade to channel."@,
        ]
    } else {
        Seq::empty()
    };
    let ins: Seq<Seq<char>> = if install_n > 0 {
        seq!["Survey: "@ + decimal(install_n) + " missing module(s) — will attempt install."@]
    } else {
        Seq::empty()
    };
    let none: Seq<Seq<char>> = if upgrade_n == 0 && install_n == 0 {
        seq!["Survey: planned modules look current — will still re-sync (may no-op)."@]
    } else {
        Seq::empty()
    };
    up + ins + none
}

/// Summary lines after survey (honest wording: "will attempt", not "will raise").
pub fn format_survey_summary(upgrade_n: usize, install_n: usize) -> (lines: Vec<String>)
    ensures
        lines@.map_values(|l: String| l@) == survey_summary(upgrade_n as nat, install_n as nat),
{
    let mut lines: Vec<String> = Vec::new();
    if upgrade_n > 0 {
        let mut l = String::from_str("Survey: ");
        push_decimal(&mut l, upgrade_n);
        l.append(" outdated module(s) — will attempt upgrade to channel.");
        lines.push(l);
    }
    if install_n > 0 {
        let mut l = String::from_str("Survey: ");
        push_decimal(&mut l, install_n);
        l.append(" missing module(s) — will attempt install.");
        lines.push(l);
    }
    if upgrade_n == 0 && install_n == 0 {
        lines.push(
            String::from_str("Survey: planned modules look current — will still re-sync (may no-op)."),
        );
    }
    assert(lines@.map_values(|l: String| l@) =~= survey_summary(upgrade_n as nat, install_n as nat));
    lines
}

} // verus!
