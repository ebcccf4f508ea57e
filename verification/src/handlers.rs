//! The decisions behind the interface's filter-configuration handlers,
//! as pure functions of the widget values. The surrounding program reads
//! the widgets, calls these, and applies the returned state and status;
//! persistence and display stay outside.

use vstd::prelude::*;
use vstd::string::StringExecFns;
use crate::config::{
    build_filter_config, spec_default_exclude_patterns, spec_default_include_patterns,
    spec_size_mb, spec_size_mb_ok, FilterConfig,
};
use crate::utils::{csv_items, invalid_of};
use crate::text::{
    chars_join, chars_to_string, dec_rep, join_with, str_to_chars, strings_to_char_vecs,
    u64_to_string,
};

verus! {

/// What the toggle handler does to the configuration panel: its
/// visibility is inverted, nothing else changes.
pub fn setup_toggle_filter_config_handler(show_filter_config: bool) -> (r: bool)
    ensures
        r == !show_filter_config,
{
    !show_filter_config
}

/// What the save handler decides: either a configuration to persist,
/// with the saved notice and the panel hidden, or the first complaint
/// with the panel left open.
pub struct FilterSaveAction {
    pub config: Option<FilterConfig>,
    pub status_text: String,
    pub is_error: bool,
    pub hide_panel: bool,
}

/// Decides what saving the filter settings does with the widget values:
/// a valid size and valid pattern lists yield the configuration to
/// persist and the saved notice; any fault yields its complaint instead.
/// Whether persisting itself succeeds is the caller's to report.
pub fn setup_save_filter_config_handler(
    enable_filtering: bool,
    exclude_text: &str,
    include_text: &str,
    max_file_size_text: &str,
) -> (r: FilterSaveAction)
    ensures
        match r.config {
            Option::Some(c) => {
                &&& spec_size_mb_ok(max_file_size_text@)
                &&& c.enable_filtering == enable_filtering
                &&& c.exclude_patterns.deep_view() == csv_items(exclude_text@)
                &&& c.include_patterns.deep_view() == csv_items(include_text@)
                &&& c.max_file_size == spec_size_mb(max_file_size_text@) * 1048576
                &&& r.status_text@ == "Đã lưu cấu hình lọc file"@
                &&& !r.is_error
                &&& r.hide_panel
            },
            Option::None => {
                &&& (!spec_size_mb_ok(max_file_size_text@) || invalid_of(
                    csv_items(exclude_text@),
                ).len() > 0 || invalid_of(csv_items(include_text@)).len() > 0)
                &&& r.is_error
                &&& !r.hide_panel
            },
        },
{
    match build_filter_config(
        enable_filtering,
        exclude_text,
        include_text,
        max_file_size_text,
    ) {
        Result::Ok(config) => FilterSaveAction {
            config: Option::Some(config),
            status_text: String::from_str("Đã lưu cấu hình lọc file"),
            is_error: false,
            hide_panel: true,
        },
        Result::Err(message) => FilterSaveAction {
            config: Option::None,
            status_text: message,
            is_error: true,
            hide_panel: false,
        },
    }
}

/// What the reset handler writes back into the widgets: the default
/// settings, rendered as the widgets show them.
pub struct FilterResetAction {
    pub enable_filtering: bool,
    pub exclude_patterns_text: String,
    pub include_patterns_text: String,
    pub max_file_size_text: String,
    pub status_text: String,
}

/// Renders the default filter settings for the widgets: the pattern
/// lists joined by commas, the size cap in mebibytes, filtering on, and
/// the reset notice.
pub fn setup_reset_filter_config_handler() -> (r: FilterResetAction)
    ensures
        r.enable_filtering,
        r.exclude_patterns_text@ == join_with(spec_default_exclude_patterns(), ", "@),
        r.include_patterns_text@ == join_with(spec_default_include_patterns(), ", "@),
        r.max_file_size_text@ == dec_rep(104857600int / 1048576),
        r.status_text@ == "Đã reset cấu hình lọc file"@,
{
    let defaults = FilterConfig::default();
    let sep = str_to_chars(", ");
    let exclude_pieces = strings_to_char_vecs(&defaults.exclude_patterns);
    let exclude_joined = chars_join(&exclude_pieces, &sep);
    let include_pieces = strings_to_char_vecs(&defaults.include_patterns);
    let include_joined = chars_join(&include_pieces, &sep);
    let max_mb = defaults.max_file_size / (1024 * 1024);
    FilterResetAction {
        enable_filtering: defaults.enable_filtering,
        exclude_patterns_text: chars_to_string(&exclude_joined),
        include_patterns_text: chars_to_string(&include_joined),
        max_file_size_text: u64_to_string(max_mb),
        status_text: String::from_str("Đã reset cấu hình lọc file"),
    }
}

} // verus!
