use s3_sync_tool::config::FilterConfig;
use s3_sync_tool::utils::{
    get_filtering_stats, get_mime_type, is_valid_glob_pattern, matches_pattern,
    should_include_file, validate_credentials, validate_glob_patterns, FileEntry,
};

#[test]
fn test_get_mime_type_custom() {
    assert_eq!(get_mime_type("file.woff2"), "font/woff2");
    assert_eq!(get_mime_type("file.css"), "text/css");
    assert_eq!(get_mime_type("file.js"), "application/javascript");
}

#[test]
fn test_get_mime_type_fallback() {
    // Assuming the guesser recognizes .txt as text/plain
    assert_eq!(get_mime_type("file.txt"), "text/plain");
}

#[test]
fn test_get_mime_type_unknown() {
    assert_eq!(get_mime_type("file.unknown"), "application/octet-stream");
}

#[test]
fn test_should_include_file_disabled_filtering() {
    let config = FilterConfig {
        enable_filtering: false,
        ..Default::default()
    };

    // All files should be included when filtering is disabled
    assert!(should_include_file(
        "node_modules/package.json",
        ".",
        0,
        &config
    ));
    assert!(should_include_file("test.tmp", ".", 0, &config));
}

#[test]
fn test_exclude_patterns() {
    let config = FilterConfig {
        enable_filtering: true,
        exclude_patterns: vec!["node_modules".to_string(), "*.tmp".to_string()],
        include_patterns: vec![],
        max_file_size: 100 * 1024 * 1024,
    };

    assert!(!should_include_file(
        "node_modules/package.json",
        ".",
        0,
        &config
    ));

    assert!(!should_include_file("test.tmp", ".", 0, &config));

    assert!(should_include_file("index.html", ".", 0, &config));
}

#[test]
fn test_include_patterns() {
    let config = FilterConfig {
        enable_filtering: true,
        exclude_patterns: vec![],
        include_patterns: vec!["*.html".to_string(), "*.css".to_string()],
        max_file_size: 100 * 1024 * 1024,
    };

    assert!(should_include_file("index.html", ".", 0, &config));

    assert!(should_include_file("styles.css", ".", 0, &config));

    assert!(!should_include_file("script.js", ".", 0, &config));

    assert!(!should_include_file("README.md", ".", 0, &config));
}

#[test]
fn test_max_file_size() {
    let config = FilterConfig {
        enable_filtering: true,
        exclude_patterns: vec![],
        include_patterns: vec![],
        max_file_size: 1024, // 1KB
    };

    assert!(should_include_file("index.html", ".", 0, &config));
}

#[test]
fn test_pattern_matching() {
    assert!(matches_pattern("index.html", "index.html", "index.html"));
    assert!(matches_pattern(
        "node_modules/package.json",
        "package.json",
        "node_modules"
    ));
    assert!(matches_pattern("test.tmp", "test.tmp", "*.tmp"));
    assert!(matches_pattern("styles/main.css", "main.css", "*.css"));

    assert!(!matches_pattern("index.html", "index.html", "*.css"));
    assert!(!matches_pattern("main.js", "main.js", "node_modules"));
}

#[test]
fn size_boundary_is_exact() {
    let config = FilterConfig {
        enable_filtering: true,
        exclude_patterns: vec![],
        include_patterns: vec![],
        max_file_size: 1024,
    };
    // A file of exactly the cap is included; one byte more is excluded.
    assert!(should_include_file("data.bin", ".", 1024, &config));
    assert!(!should_include_file("data.bin", ".", 1025, &config));
}

#[test]
fn exclude_beats_include() {
    let config = FilterConfig {
        enable_filtering: true,
        exclude_patterns: vec!["*.html".to_string()],
        include_patterns: vec!["*.html".to_string()],
        max_file_size: 1024,
    };
    assert!(!should_include_file("index.html", ".", 10, &config));
}

#[test]
fn should_include_is_deterministic() {
    let config = FilterConfig::default();
    let first = should_include_file("site/index.html", "site", 500, &config);
    let second = should_include_file("site/index.html", "site", 500, &config);
    assert_eq!(first, second);
    assert!(first);
}

#[test]
fn glob_pattern_validation() {
    assert!(is_valid_glob_pattern("*.css"));
    assert!(is_valid_glob_pattern("node_modules"));
    assert!(!is_valid_glob_pattern("["));
    let invalid = validate_glob_patterns(" *.html , [ , *.css ");
    assert_eq!(invalid, vec!["[".to_string()]);
    let none_invalid = validate_glob_patterns("*.html, *.css");
    assert!(none_invalid.is_empty());
}

#[test]
fn credentials_validation_messages() {
    assert_eq!(
        validate_credentials("  ", "sk", "bucket-1"),
        Some("Access Key không được để trống".to_string())
    );
    assert_eq!(
        validate_credentials("ak", "", "bucket-1"),
        Some("Secret Key không được để trống".to_string())
    );
    assert_eq!(
        validate_credentials("ak", "sk", " "),
        Some("Bucket name không được để trống".to_string())
    );
    assert_eq!(
        validate_credentials("ak", "sk", "AB"),
        Some(
            "Bucket name không hợp lệ (3-63 ký tự, chỉ chữ thường, số, dấu gạch ngang)"
                .to_string()
        )
    );
    assert_eq!(
        validate_credentials("ak", "sk", "-abc"),
        Some(
            "Bucket name không hợp lệ (3-63 ký tự, chỉ chữ thường, số, dấu gạch ngang)"
                .to_string()
        )
    );
    assert_eq!(validate_credentials("ak", "sk", "my-bucket-01"), None);
}

#[test]
fn filtering_stats_counts_and_sizes() {
    let config = FilterConfig {
        enable_filtering: true,
        exclude_patterns: vec!["node_modules".to_string()],
        include_patterns: vec![],
        max_file_size: 1000,
    };
    let files = vec![
        FileEntry {
            path: "site/index.html".to_string(),
            size: 500,
        },
        FileEntry {
            path: "site/node_modules/x.js".to_string(),
            size: 200,
        },
        FileEntry {
            path: "site/huge.bin".to_string(),
            size: 2000,
        },
    ];
    let stats = get_filtering_stats(&files, "site", &config);
    assert_eq!(stats.total_files, 3);
    assert_eq!(stats.included_files, 1);
    assert_eq!(stats.excluded_files, 2);
    assert_eq!(stats.total_size, 2700);
    assert_eq!(stats.excluded_size, 2200);
}

#[test]
fn mime_type_is_case_insensitive_for_known_extensions() {
    assert_eq!(get_mime_type("FONT.WOFF"), "font/woff");
    assert_eq!(get_mime_type("page.HTM"), "text/html");
    assert_eq!(get_mime_type("a/b/archive.tar.gz"), "application/gzip");
}
