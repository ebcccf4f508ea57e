//! Run configuration: the filter settings, the application settings, and
//! the numeric tuning values read once at run start.

use vstd::prelude::*;
use vstd::string::StringExecFns;
use crate::text::{
    chars_join, chars_to_string, join_with, parse_u64_chars, parse_u64_spec, push_all,
    str_to_chars, strings_to_char_vecs,
};
use crate::utils::{csv_items, invalid_of, split_pattern_list, validate_glob_patterns};

verus! {

/// Per-run file filtering settings.
#[derive(Debug, Clone)]
pub struct FilterConfig {
    pub exclude_patterns: Vec<String>,
    pub include_patterns: Vec<String>,
    pub max_file_size: u64,
    pub enable_filtering: bool,
}

/// The exclusion patterns a fresh configuration starts with.
pub open spec fn spec_default_exclude_patterns() -> Seq<Seq<char>> {
    seq![
        "node_modules"@,
        ".git"@,
        "target"@,
        ".vscode"@,
        ".idea"@,
        "dist"@,
        "build"@,
        "*.tmp"@,
        "*.log"@,
        ".DS_Store"@,
        "Thumbs.db"@,
    ]
}

/// The inclusion patterns a fresh configuration starts with: the usual
/// web-asset extensions.
pub open spec fn spec_default_include_patterns() -> Seq<Seq<char>> {
    seq![
        "*.html"@,
        "*.css"@,
        "*.js"@,
        "*.json"@,
        "*.png"@,
        "*.jpg"@,
        "*.jpeg"@,
        "*.gif"@,
        "*.svg"@,
        "*.ico"@,
        "*.woff"@,
        "*.woff2"@,
        "*.ttf"@,
        "*.otf"@,
        "*.eot"@,
    ]
}

pub fn default_exclude_patterns() -> (r: Vec<String>)
    ensures
        r.deep_view() == spec_default_exclude_patterns(),
{
    let mut r: Vec<String> = Vec::new();
    r.push(String::from_str("node_modules"));
    r.push(String::from_str(".git"));
    r.push(String::from_str("target"));
    r.push(String::from_str(".vscode"));
    r.push(String::from_str(".idea"));
    r.push(String::from_str("dist"));
    r.push(String::from_str("build"));
    r.push(String::from_str("*.tmp"));
    r.push(String::from_str("*.log"));
    r.push(String::from_str(".DS_Store"));
    r.push(String::from_str("Thumbs.db"));
    proof {
        assert(r.deep_view() =~~= spec_default_exclude_patterns());
    }
    r
}

pub fn default_include_patterns() -> (r: Vec<String>)
    ensures
        r.deep_view() == spec_default_include_patterns(),
{
    let mut r: Vec<String> = Vec::new();
    r.push(String::from_str("*.html"));
    r.push(String::from_str("*.css"));
    r.push(String::from_str("*.js"));
    r.push(String::from_str("*.json"));
    r.push(String::from_str("*.png"));
    r.push(String::from_str("*.jpg"));
    r.push(String::from_str("*.jpeg"));
    r.push(String::from_str("*.gif"));
    r.push(String::from_str("*.svg"));
    r.push(String::from_str("*.ico"));
    r.push(String::from_str("*.woff"));
    r.push(String::from_str("*.woff2"));
    r.push(String::from_str("*.ttf"));
    r.push(String::from_str("*.otf"));
    r.push(String::from_str("*.eot"));
    proof {
        assert(r.deep_view() =~~= spec_default_include_patterns());
    }
    r
}

/// The default size cap: one hundred mebibytes.
pub fn default_max_file_size() -> (r: u64)
    ensures
        r == 104857600,
{
    100 * 1024 * 1024
}

pub fn default_true() -> (r: bool)
    ensures
        r,
{
    true
}

impl Default for FilterConfig {
    /// A fresh filter configuration: filtering on, the default pattern
    /// lists, and the default size cap.
    fn default() -> (r: Self)
        ensures
            r.exclude_patterns.deep_view() == spec_default_exclude_patterns(),
            r.include_patterns.deep_view() == spec_default_include_patterns(),
            r.max_file_size == 104857600,
            r.enable_filtering,
    {
        FilterConfig {
            exclude_patterns: default_exclude_patterns(),
            include_patterns: default_include_patterns(),
            max_file_size: default_max_file_size(),
            enable_filtering: default_true(),
        }
    }
}

/// The bucket names offered before the operator has configured any.
pub open spec fn spec_default_buckets() -> Seq<Seq<char>> {
    seq![
        "ien-corp-dev-contents"@,
        "i-ocean-global-stg-contents"@,
        "i-ocean-global-prod-contents"@,
        "ien-corp-prod-contents"@,
    ]
}

pub fn default_buckets() -> (r: Vec<String>)
    ensures
        r.deep_view() == spec_default_buckets(),
{
    let mut r: Vec<String> = Vec::new();
    r.push(String::from_str("ien-corp-dev-contents"));
    r.push(String::from_str("i-ocean-global-stg-contents"));
    r.push(String::from_str("i-ocean-global-prod-contents"));
    r.push(String::from_str("ien-corp-prod-contents"));
    proof {
        assert(r.deep_view() =~~= spec_default_buckets());
    }
    r
}

/// The region names offered before the operator has configured any.
pub open spec fn spec_default_regions() -> Seq<Seq<char>> {
    seq![
        "ap-northeast-1"@,
        "ap-southeast-1"@,
        "us-east-1"@,
        "us-west-2"@,
        "eu-west-1"@,
    ]
}

pub fn default_regions() -> (r: Vec<String>)
    ensures
        r.deep_view() == spec_default_regions(),
{
    let mut r: Vec<String> = Vec::new();
    r.push(String::from_str("ap-northeast-1"));
    r.push(String::from_str("ap-southeast-1"));
    r.push(String::from_str("us-east-1"));
    r.push(String::from_str("us-west-2"));
    r.push(String::from_str("eu-west-1"));
    proof {
        assert(r.deep_view() =~~= spec_default_regions());
    }
    r
}

pub fn default_region() -> (r: String)
    ensures
        r@ == "ap-northeast-1"@,
{
    String::from_str("ap-northeast-1")
}

/// Application settings, as they are persisted between runs.
#[derive(Debug)]
pub struct AppConfig {
    pub log_path: String,
    pub s3_base_path: String,
    pub filter_config: FilterConfig,
    pub buckets: Vec<String>,
    pub regions: Vec<String>,
    pub selected_bucket: String,
    pub selected_region: String,
}

impl Default for AppConfig {
    /// A fresh application configuration: empty paths and selections,
    /// the default filter configuration, and empty name lists.
    fn default() -> (r: Self)
        ensures
            r.log_path@ == Seq::<char>::empty(),
            r.s3_base_path@ == Seq::<char>::empty(),
            r.filter_config.exclude_patterns.deep_view()
                == spec_default_exclude_patterns(),
            r.filter_config.include_patterns.deep_view()
                == spec_default_include_patterns(),
            r.filter_config.max_file_size == 104857600,
            r.filter_config.enable_filtering,
            r.buckets@.len() == 0,
            r.regions@.len() == 0,
            r.selected_bucket@ == Seq::<char>::empty(),
            r.selected_region@ == Seq::<char>::empty(),
    {
        AppConfig {
            log_path: String::new(),
            s3_base_path: String::new(),
            filter_config: FilterConfig::default(),
            buckets: Vec::new(),
            regions: Vec::new(),
            selected_bucket: String::new(),
            selected_region: String::new(),
        }
    }
}

/// How the concurrency-limit setting is read: a decimal value of at
/// least one; a missing, malformed or zero setting falls back to the
/// default of fifty.
pub open spec fn spec_concurrency_limit(raw: Option<Seq<char>>) -> u64 {
    match raw {
        Option::None => 50,
        Option::Some(s) => match parse_u64_spec(s) {
            Option::Some(v) => if v >= 1 {
                v
            } else {
                50
            },
            Option::None => 50,
        },
    }
}

/// Reads the concurrency limit from the raw setting text, if any.
pub fn concurrency_limit_setting(raw: Option<&String>) -> (r: u64)
    ensures
        r == spec_concurrency_limit(match raw {
            Option::Some(s) => Option::Some(s@),
            Option::None => Option::None,
        }),
        r >= 1,
{
    match raw {
        Option::None => 50,
        Option::Some(s) => {
            let chars = str_to_chars(s.as_str());
            match parse_u64_chars(&chars) {
                Option::Some(v) => if v >= 1 {
                    v
                } else {
                    50
                },
                Option::None => 50,
            }
        },
    }
}

/// How the cache time-to-live setting is read: a decimal number of
/// seconds; a missing or malformed setting falls back to the default of
/// three hundred.
pub open spec fn spec_cache_ttl_secs(raw: Option<Seq<char>>) -> u64 {
    match raw {
        Option::None => 300,
        Option::Some(s) => match parse_u64_spec(s) {
            Option::Some(v) => v,
            Option::None => 300,
        },
    }
}

/// Reads the prefix-cache time-to-live from the raw setting text, if any.
pub fn cache_ttl_setting(raw: Option<&String>) -> (r: u64)
    ensures
        r == spec_cache_ttl_secs(match raw {
            Option::Some(s) => Option::Some(s@),
            Option::None => Option::None,
        }),
{
    match raw {
        Option::None => 300,
        Option::Some(s) => {
            let chars = str_to_chars(s.as_str());
            match parse_u64_chars(&chars) {
                Option::Some(v) => v,
                Option::None => 300,
            }
        },
    }
}

/// Whether the size text names a whole number of mebibytes in the
/// accepted range (one mebibyte to ten gibibytes).
pub open spec fn spec_size_mb_ok(s: Seq<char>) -> bool {
    match parse_u64_spec(s) {
        Option::Some(v) => 1 <= v <= 10240,
        Option::None => false,
    }
}

/// The number of mebibytes the size text names.
pub open spec fn spec_size_mb(s: Seq<char>) -> u64
    recommends
        spec_size_mb_ok(s),
{
    parse_u64_spec(s)->Some_0
}

/// Builds a filter configuration out of the operator's raw settings, or
/// reports the first fault: a size outside the accepted range, then a
/// non-compiling exclusion pattern, then a non-compiling inclusion
/// pattern. Malformed patterns are rejected here, never during per-file
/// evaluation.
pub fn build_filter_config(
    enable_filtering: bool,
    exclude_text: &str,
    include_text: &str,
    max_file_size_text: &str,
) -> (r: Result<FilterConfig, String>)
    ensures
        match r {
            Result::Ok(c) => {
                &&& spec_size_mb_ok(max_file_size_text@)
                &&& invalid_of(csv_items(exclude_text@)).len() == 0
                &&& invalid_of(csv_items(include_text@)).len() == 0
                &&& c.enable_filtering == enable_filtering
                &&& c.exclude_patterns.deep_view() == csv_items(exclude_text@)
                &&& c.include_patterns.deep_view() == csv_items(include_text@)
                &&& c.max_file_size == spec_size_mb(max_file_size_text@) * 1048576
            },
            Result::Err(m) => {
                ||| (!spec_size_mb_ok(max_file_size_text@) && m@
                    == "Max file size phải là số từ 1 đến 10240 MB"@)
                ||| (spec_size_mb_ok(max_file_size_text@) && invalid_of(
                    csv_items(exclude_text@),
                ).len() > 0 && m@ == "Pattern không hợp lệ trong Exclude: "@ + join_with(
                    invalid_of(csv_items(exclude_text@)),
                    ", "@,
                ))
                ||| (spec_size_mb_ok(max_file_size_text@) && invalid_of(
                    csv_items(exclude_text@),
                ).len() == 0 && invalid_of(csv_items(include_text@)).len() > 0 && m@
                    == "Pattern không hợp lệ trong Include: "@ + join_with(
                    invalid_of(csv_items(include_text@)),
                    ", "@,
                ))
            },
        },
{
    let size_chars = str_to_chars(max_file_size_text);
    let size_mb: u64 = match parse_u64_chars(&size_chars) {
        Option::Some(v) => {
            if 1 <= v && v <= 10240 {
                v
            } else {
                return Result::Err(
                    String::from_str("Max file size phải là số từ 1 đến 10240 MB"),
                );
            }
        },
        Option::None => {
            return Result::Err(
                String::from_str("Max file size phải là số từ 1 đến 10240 MB"),
            );
        },
    };
    let invalid_exclude = validate_glob_patterns(exclude_text);
    if invalid_exclude.len() > 0 {
        return Result::Err(
            pattern_fault_message(
                "Pattern không hợp lệ trong Exclude: ",
                &invalid_exclude,
            ),
        );
    }
    let invalid_include = validate_glob_patterns(include_text);
    if invalid_include.len() > 0 {
        return Result::Err(
            pattern_fault_message(
                "Pattern không hợp lệ trong Include: ",
                &invalid_include,
            ),
        );
    }
    let exclude_patterns = split_pattern_list(exclude_text);
    let include_patterns = split_pattern_list(include_text);
    Result::Ok(
        FilterConfig {
            exclude_patterns,
            include_patterns,
            max_file_size: size_mb * 1024 * 1024,
            enable_filtering,
        },
    )
}

/// The size cap the preview uses: the stated mebibytes, saturated at the
/// type's top, or the default hundred when the text does not parse.
pub open spec fn spec_preview_size_cap(s: Seq<char>) -> u64 {
    match parse_u64_spec(s) {
        Option::Some(v) => if v <= u64::MAX / 1048576 {
            (v * 1048576) as u64
        } else {
            u64::MAX
        },
        Option::None => (100 * 1048576) as u64,
    }
}

/// Builds the throwaway configuration the preview runs under: the raw
/// widget values, taken leniently — an unreadable size falls back to
/// the default and patterns are not validated, since nothing is
/// persisted.
pub fn preview_filter_config(
    enable_filtering: bool,
    exclude_text: &str,
    include_text: &str,
    max_file_size_text: &str,
) -> (c: FilterConfig)
    ensures
        c.enable_filtering == enable_filtering,
        c.exclude_patterns.deep_view() == csv_items(exclude_text@),
        c.include_patterns.deep_view() == csv_items(include_text@),
        c.max_file_size == spec_preview_size_cap(max_file_size_text@),
{
    let size_chars = str_to_chars(max_file_size_text);
    let max_file_size: u64 = match parse_u64_chars(&size_chars) {
        Option::Some(v) => {
            if v <= u64::MAX / 1048576 {
                v * 1048576
            } else {
                u64::MAX
            }
        },
        Option::None => 100 * 1048576,
    };
    FilterConfig {
        exclude_patterns: split_pattern_list(exclude_text),
        include_patterns: split_pattern_list(include_text),
        max_file_size,
        enable_filtering,
    }
}

/// Joins the offending patterns onto the given complaint prefix.
fn pattern_fault_message(prefix: &str, invalid: &Vec<String>) -> (r: String)
    ensures
        r@ == prefix@ + join_with(invalid.deep_view(), ", "@),
{
    let mut out = str_to_chars(prefix);
    let pieces = strings_to_char_vecs(invalid);
    let sep = str_to_chars(", ");
    let joined = chars_join(&pieces, &sep);
    push_all(&mut out, &joined);
    chars_to_string(&out)
}

} // verus!
