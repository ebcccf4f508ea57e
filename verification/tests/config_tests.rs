use s3_sync_tool::config::{
    build_filter_config, cache_ttl_setting, concurrency_limit_setting, default_buckets,
    default_exclude_patterns, default_include_patterns, default_max_file_size,
    default_region, default_regions, default_true, AppConfig, FilterConfig,
};
use s3_sync_tool::config::preview_filter_config;
use s3_sync_tool::utils::{aggregate_stats, split_pattern_list, FilteringStats};

#[test]
fn filter_defaults() {
    let c = FilterConfig::default();
    assert!(c.enable_filtering);
    assert_eq!(c.max_file_size, 100 * 1024 * 1024);
    assert!(c.exclude_patterns.contains(&"node_modules".to_string()));
    assert!(c.exclude_patterns.contains(&"*.tmp".to_string()));
    assert!(c.include_patterns.contains(&"*.html".to_string()));
    assert_eq!(c.exclude_patterns, default_exclude_patterns());
    assert_eq!(c.include_patterns, default_include_patterns());
    assert_eq!(c.max_file_size, default_max_file_size());
    assert!(default_true());
}

#[test]
fn app_defaults() {
    let a = AppConfig::default();
    assert_eq!(a.log_path, "");
    assert_eq!(a.s3_base_path, "");
    assert_eq!(a.selected_bucket, "");
    assert_eq!(a.selected_region, "");
    assert!(a.buckets.is_empty());
    assert!(a.regions.is_empty());
    assert_eq!(default_buckets().len(), 4);
    assert_eq!(default_regions().len(), 5);
    assert_eq!(default_region(), "ap-northeast-1");
}

#[test]
fn concurrency_setting_falls_back_silently() {
    assert_eq!(concurrency_limit_setting(None), 50);
    assert_eq!(concurrency_limit_setting(Some(&"7".to_string())), 7);
    assert_eq!(concurrency_limit_setting(Some(&"0".to_string())), 50);
    assert_eq!(concurrency_limit_setting(Some(&"many".to_string())), 50);
    assert_eq!(concurrency_limit_setting(Some(&"".to_string())), 50);
}

#[test]
fn ttl_setting_falls_back_silently() {
    assert_eq!(cache_ttl_setting(None), 300);
    assert_eq!(cache_ttl_setting(Some(&"60".to_string())), 60);
    assert_eq!(cache_ttl_setting(Some(&"6x".to_string())), 300);
    assert_eq!(
        cache_ttl_setting(Some(&"99999999999999999999999".to_string())),
        300
    );
}

#[test]
fn build_filter_config_accepts_good_settings() {
    let c = build_filter_config(true, "node_modules, *.tmp", "*.html , *.css", "200")
        .unwrap();
    assert!(c.enable_filtering);
    assert_eq!(c.max_file_size, 200 * 1024 * 1024);
    assert_eq!(
        c.exclude_patterns,
        vec!["node_modules".to_string(), "*.tmp".to_string()]
    );
    assert_eq!(
        c.include_patterns,
        vec!["*.html".to_string(), "*.css".to_string()]
    );
}

#[test]
fn build_filter_config_rejects_bad_size() {
    let err = build_filter_config(true, "", "", "0").unwrap_err();
    assert_eq!(err, "Max file size phải là số từ 1 đến 10240 MB");
    let err = build_filter_config(true, "", "", "10241").unwrap_err();
    assert_eq!(err, "Max file size phải là số từ 1 đến 10240 MB");
    let err = build_filter_config(true, "", "", "big").unwrap_err();
    assert_eq!(err, "Max file size phải là số từ 1 đến 10240 MB");
}

#[test]
fn build_filter_config_rejects_bad_patterns() {
    let err = build_filter_config(true, "[, [a", "*.css", "10").unwrap_err();
    assert_eq!(err, "Pattern không hợp lệ trong Exclude: [, [a");
    let err = build_filter_config(true, "*.css", "[", "10").unwrap_err();
    assert_eq!(err, "Pattern không hợp lệ trong Include: [");
}

#[test]
fn preview_config_is_lenient() {
    let c = preview_filter_config(true, "node_modules", "*.html", "2");
    assert_eq!(c.max_file_size, 2 * 1024 * 1024);
    assert_eq!(c.exclude_patterns, vec!["node_modules".to_string()]);
    assert_eq!(c.include_patterns, vec!["*.html".to_string()]);
    // An unreadable size falls back to the default hundred mebibytes.
    let c = preview_filter_config(true, "", "", "lots");
    assert_eq!(c.max_file_size, 100 * 1024 * 1024);
    // An enormous size saturates instead of wrapping.
    let c = preview_filter_config(true, "", "", "18446744073709551615");
    assert_eq!(c.max_file_size, u64::MAX);
}

#[test]
fn stats_aggregate_fieldwise() {
    let a = FilteringStats {
        total_files: 10,
        included_files: 7,
        excluded_files: 3,
        total_size: 1000,
        excluded_size: 300,
    };
    let b = FilteringStats {
        total_files: 5,
        included_files: 5,
        excluded_files: 0,
        total_size: 400,
        excluded_size: 0,
    };
    let sum = aggregate_stats(&a, &b);
    assert_eq!(sum.total_files, 15);
    assert_eq!(sum.included_files, 12);
    assert_eq!(sum.excluded_files, 3);
    assert_eq!(sum.total_size, 1400);
    assert_eq!(sum.excluded_size, 300);
}

#[test]
fn pattern_lists_are_trimmed_and_pruned() {
    assert_eq!(
        split_pattern_list(" a , , b,,c "),
        vec!["a".to_string(), "b".to_string(), "c".to_string()]
    );
    assert!(split_pattern_list("  ,  ").is_empty());
    assert!(split_pattern_list("").is_empty());
}
