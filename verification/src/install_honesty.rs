//! Pure installer copy and survey logic, so the installer cannot claim more
//! than it did.

pub mod constants;

pub use constants::{
    CORE_PACKAGES, COSMIC_EXTRA, DNF_GPG_DISCLAIMER, OFFICIAL_SAVERS, PRODUCT_STACK_ON_REMOVE,
    REMOVE_BLURB,
};
pub mod survey;

pub use survey::{
    classify_package, format_plan_blurb, format_survey_row_plain, format_survey_summary,
    packages_for_profile, version_is_older, SurveyClass,
};
pub mod victory;

pub use victory::{
    center_in_width, format_victory_box, format_victory_box_title_row, format_victory_title_body,
    victory_banner, victory_box_border_inner_width, VICTORY_BOX_INNER, VICTORY_ORNAMENT,
};
pub mod format;

pub use format::{format_cosmic_line, format_deploy_result, lines_same_width, strip_ansi};
