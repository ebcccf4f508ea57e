use s3_sync_tool::managers::{add_name, remove_name, stored_name, update_name, validate_bucket_name, validate_region_name};

#[test]
fn bucket_name_rules() {
    let current = vec!["kept-bucket".to_string()];
    assert_eq!(
        validate_bucket_name("  ", &current, None),
        Some("Bucket name cannot be empty".to_string())
    );
    assert_eq!(
        validate_bucket_name("ab", &current, None),
        Some("Bucket name must be between 3 and 63 characters long".to_string())
    );
    assert_eq!(
        validate_bucket_name("Bad_Name", &current, None),
        Some(
            "Invalid characters (only a-z, 0-9, . and - allowed, must start/end with letter/digit)"
                .to_string()
        )
    );
    assert_eq!(
        validate_bucket_name("a..b", &current, None),
        Some("Bucket name cannot contain consecutive periods".to_string())
    );
    assert_eq!(
        validate_bucket_name("xn--bucket", &current, None),
        Some("Bucket name cannot start with 'xn--' or 'sthree-'".to_string())
    );
    assert_eq!(
        validate_bucket_name("sthree-bucket", &current, None),
        Some("Bucket name cannot start with 'xn--' or 'sthree-'".to_string())
    );
    assert_eq!(
        validate_bucket_name("bucket-s3alias", &current, None),
        Some("Bucket name cannot end with '-s3alias' or '--ol-s3'".to_string())
    );
    assert_eq!(
        validate_bucket_name("bucket--ol-s3", &current, None),
        Some("Bucket name cannot end with '-s3alias' or '--ol-s3'".to_string())
    );
    assert_eq!(
        validate_bucket_name("192.168.1.1", &current, None),
        Some("Bucket name cannot be formatted as an IP address".to_string())
    );
    assert_eq!(
        validate_bucket_name("kept-bucket", &current, None),
        Some("Bucket name already exists".to_string())
    );
    assert_eq!(validate_bucket_name("new-bucket.01", &current, None), None);
    // A trimmed name is compared against the stored list.
    assert_eq!(
        validate_bucket_name("  kept-bucket  ", &current, None),
        Some("Bucket name already exists".to_string())
    );
}

#[test]
fn bucket_rename_skips_own_slot() {
    let current = vec!["one-bucket".to_string(), "two-bucket".to_string()];
    // Renaming slot 0 to its own current name is fine.
    assert_eq!(validate_bucket_name("one-bucket", &current, Some(0)), None);
    // Renaming slot 1 to slot 0's name collides.
    assert_eq!(
        validate_bucket_name("one-bucket", &current, Some(1)),
        Some("Bucket name already exists".to_string())
    );
}

#[test]
fn region_name_rules() {
    let current = vec!["ap-northeast-1".to_string()];
    assert_eq!(
        validate_region_name("  ", &current, None),
        Some("Region name cannot be empty".to_string())
    );
    assert_eq!(
        validate_region_name("AP_1", &current, None),
        Some("Invalid characters (only a-z, 0-9, and - allowed)".to_string())
    );
    assert_eq!(
        validate_region_name("ap-northeast-1", &current, None),
        Some("Region already exists".to_string())
    );
    assert_eq!(validate_region_name("eu-central-1", &current, None), None);
    assert_eq!(validate_region_name("eu-central-1", &current, Some(0)), None);
}

#[test]
fn names_are_stored_trimmed() {
    assert_eq!(stored_name("  my-bucket  "), "my-bucket");
    assert_eq!(stored_name("plain"), "plain");
}

#[test]
fn list_edits_follow_the_selection() {
    let mut buckets = vec!["one-bucket".to_string()];
    add_name(&mut buckets, "  two-bucket ");
    assert_eq!(buckets, vec!["one-bucket".to_string(), "two-bucket".to_string()]);

    // Renaming the selected entry carries the selection along.
    let (stored, was_selected) = update_name(&mut buckets, 0, " first-bucket ", "one-bucket");
    assert_eq!(stored, "first-bucket");
    assert!(was_selected);
    assert_eq!(buckets[0], "first-bucket");

    // Renaming another entry leaves the selection alone.
    let (_, was_selected) = update_name(&mut buckets, 1, "second-bucket", "first-bucket");
    assert!(!was_selected);

    // Deleting the selected entry clears the selection.
    assert!(remove_name(&mut buckets, 0, "first-bucket"));
    assert_eq!(buckets, vec!["second-bucket".to_string()]);
    assert!(!remove_name(&mut buckets, 0, "first-bucket"));
    assert!(buckets.is_empty());
}

#[test]
fn numbers_render_in_decimal() {
    assert_eq!(s3_sync_tool::text::u64_to_string(0), "0");
    assert_eq!(s3_sync_tool::text::u64_to_string(12345), "12345");
    assert_eq!(s3_sync_tool::text::u64_to_string(u64::MAX), "18446744073709551615");
    assert_eq!(s3_sync_tool::text::i64_to_string(-42), "-42");
    assert_eq!(
        s3_sync_tool::text::i64_to_string(i64::MIN),
        "-9223372036854775808"
    );
}
