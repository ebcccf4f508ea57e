use s3_sync_tool::handlers::{
    setup_reset_filter_config_handler, setup_save_filter_config_handler,
    setup_toggle_filter_config_handler,
};

#[test]
fn toggle_inverts_panel_visibility() {
    assert!(setup_toggle_filter_config_handler(false));
    assert!(!setup_toggle_filter_config_handler(true));
}

#[test]
fn save_accepts_valid_settings() {
    let action = setup_save_filter_config_handler(true, "node_modules, *.tmp", "*.html", "200");
    let config = action.config.expect("valid settings yield a configuration");
    assert_eq!(config.max_file_size, 200 * 1024 * 1024);
    assert_eq!(
        config.exclude_patterns,
        vec!["node_modules".to_string(), "*.tmp".to_string()]
    );
    assert_eq!(config.include_patterns, vec!["*.html".to_string()]);
    assert!(config.enable_filtering);
    assert_eq!(action.status_text, "Đã lưu cấu hình lọc file");
    assert!(!action.is_error);
    assert!(action.hide_panel);
}

#[test]
fn save_rejects_bad_size_and_patterns() {
    let action = setup_save_filter_config_handler(true, "", "", "0");
    assert!(action.config.is_none());
    assert_eq!(action.status_text, "Max file size phải là số từ 1 đến 10240 MB");
    assert!(action.is_error);
    assert!(!action.hide_panel);

    let action = setup_save_filter_config_handler(true, "[", "", "10");
    assert!(action.config.is_none());
    assert_eq!(action.status_text, "Pattern không hợp lệ trong Exclude: [");
    assert!(action.is_error);

    let action = setup_save_filter_config_handler(false, "", "[a", "10");
    assert!(action.config.is_none());
    assert_eq!(action.status_text, "Pattern không hợp lệ trong Include: [a");
}

#[test]
fn reset_renders_the_defaults() {
    let action = setup_reset_filter_config_handler();
    assert!(action.enable_filtering);
    assert_eq!(action.max_file_size_text, "100");
    assert!(action.exclude_patterns_text.starts_with("node_modules, .git, "));
    assert!(action.exclude_patterns_text.ends_with("Thumbs.db"));
    assert!(action.include_patterns_text.starts_with("*.html, *.css, "));
    assert!(action.include_patterns_text.ends_with("*.eot"));
    assert_eq!(action.status_text, "Đã reset cấu hình lọc file");
}
