//! Package names and fixed wording shared by the installer.

use vstd::prelude::*;

verus! {

/// Core packages always requested (every DE).
pub const CORE_PACKAGES: [&'static str; 5] = ["idle-daemon", "idle-cli", "idle-savers", "idle-tui", "idlescreen"];

/// Extra package only when COSMIC is detected.
pub const COSMIC_EXTRA: &'static str = "idle-cosmic";

/// Official saver plugins pulled by `idle-savers` (and wiped when idlescreen is removed).
pub const OFFICIAL_SAVERS: [&'static str; 10] = [
    "idle-saver-beams",
    "idle-saver-bursts",
    "idle-saver-chaos",
    "idle-saver-cosmos",
    "idle-saver-glyphs",
    "idle-saver-gnats",
    "idle-saver-hearth",
    "idle-saver-radar",
    "idle-saver-ripple",
    "idle-saver-storm",
];

/// Full product stack erased by `dnf/apt remove idlescreen` (idlescreen 2.6+).
/// Does not include `idlescreen` itself (already being removed) or user config.
pub const PRODUCT_STACK_ON_REMOVE: [&'static str; 15] = [
    "idle-cosmic",
    "idle-tui",
    "idle-cli",
    "idle-savers",
    "idle-saver-beams",
    "idle-saver-bursts",
    "idle-saver-chaos",
    "idle-saver-cosmos",
    "idle-saver-glyphs",
    "idle-saver-gnats",
    "idle-saver-hearth",
    "idle-saver-radar",
    "idle-saver-ripple",
    "idle-saver-storm",
    "idle-daemon",
];

/// Honest one-liner for uninstall docs / victory footer.
pub const REMOVE_BLURB: &'static str =
    "sudo dnf remove idlescreen   # also removes modules, savers, idle-cosmic, repo drop-in";

/// Truthful DNF channel disclaimer (packages GPG-checked; repo metadata not).
pub const DNF_GPG_DISCLAIMER: &'static str = "package gpgcheck=1 · repo_gpgcheck=0";

} // verus!
