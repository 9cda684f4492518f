//! Helpers for maintaining a signed package repository: version ordering,
//! package filename parsing, prune selection, pool path construction,
//! signing macro generation, installer copy and installer decisions.
//!
//! GPG identity comes from `IDLESCREEN_GPG_*`, with the legacy
//! `CRATERIA_GPG_*` names still accepted.

pub mod text;
pub mod decimal;
pub mod version_cmp;
pub mod version_laws;
pub mod package_parse;
pub mod paths;
pub mod prune_core;
pub mod sign_macros;
pub mod install_honesty;
pub mod installer;
pub mod repo_tools;

pub use install_honesty::{
    CORE_PACKAGES, COSMIC_EXTRA, DNF_GPG_DISCLAIMER, OFFICIAL_SAVERS, PRODUCT_STACK_ON_REMOVE,
    REMOVE_BLURB, SurveyClass, VICTORY_BOX_INNER, VICTORY_ORNAMENT, center_in_width,
    classify_package, format_cosmic_line, format_deploy_result, format_plan_blurb,
    format_survey_row_plain, format_survey_summary, format_victory_box,
    format_victory_box_title_row, format_victory_title_body, lines_same_width,
    packages_for_profile, strip_ansi, version_is_older, victory_banner,
    victory_box_border_inner_width,
};
pub use package_parse::{PackageId, parse_deb_filename, parse_rpm_filename};
pub use paths::{
    deb_pool_dest, file_name_of, is_rpm_path, is_under_base, package_sweep_dest, rpm_pool_dest,
    safe_join_under, sweep_target,
};
pub use prune_core::{PackageFile, PackageGroups, group_by_name, select_to_remove};
pub use repo_tools::{
    ReleaseSigning, RpmIndexer, RpmSignSetup, collect_packages, collect_rpms, parse_keep_arg, pool_entry,
    prune_targets, release_signing, rpm_indexer, rpm_sign_setup, rpm_to_sign, split_dry_run,
};
pub use sign_macros::{
    build_rpmmacros, gpg_name_is_valid, resolve_gpg_bin, resolve_gpg_bin_from_vars,
    resolve_gpg_name_from_vars, resolve_gpg_path_from_vars, resolve_signing_key,
};
pub use version_cmp::{compare_versions, split_parts};
