use s3_sync_tool::s3::prefix::{
    calculate_s3_path, find_best_s3_prefix, get_preview_prefix, needs_refresh,
    normalize_path_parts, refresh_from_listing, PrefixCache, PrefixCacheStore,
};

#[test]
fn normalize_drops_generic_segments() {
    let parts = normalize_path_parts("C:\\Users\\admin\\Desktop\\my-site");
    assert_eq!(parts, vec!["my-site".to_string()]);

    let parts = normalize_path_parts("/home/u/site");
    assert_eq!(parts, vec!["u".to_string(), "site".to_string()]);
}

#[test]
fn preview_prefix_takes_last_three_segments() {
    assert_eq!(get_preview_prefix("/var/www/html/site"), "www/html/site");
    assert_eq!(get_preview_prefix("/data/site"), "data/site");
    assert_eq!(get_preview_prefix("/home/users/project"), "project");
    // Nothing survives normalization: fall back to the bare name.
    assert_eq!(get_preview_prefix("/home/admin"), "admin");
}

#[test]
fn existing_bucket_prefix_beats_preview() {
    // The bucket already holds "app-assets/": the resolver returns it,
    // not the three-segment preview.
    let cache = PrefixCache {
        prefixes: vec!["app-assets".to_string()],
        cache_time: 0,
    };
    let best = find_best_s3_prefix("/data/projects/app-assets", &cache);
    assert_eq!(best, "app-assets");
}

#[test]
fn unrelated_single_word_prefix_is_rejected() {
    // "backup" exists on the bucket but has nothing to do with the
    // path: the resolver stays with the preview.
    let cache = PrefixCache {
        prefixes: vec!["backup".to_string()],
        cache_time: 0,
    };
    let best = find_best_s3_prefix("/data/projects/app-assets", &cache);
    assert_eq!(best, "data/projects/app-assets");
}

#[test]
fn most_specific_suffix_wins() {
    let cache = PrefixCache {
        prefixes: vec!["app-assets".to_string(), "projects/app-assets".to_string()],
        cache_time: 0,
    };
    let best = find_best_s3_prefix("/data/projects/app-assets", &cache);
    assert_eq!(best, "projects/app-assets");
}

#[test]
fn resolver_falls_back_to_preview_on_empty_cache() {
    let cache = PrefixCache::new(0);
    let best = find_best_s3_prefix("/var/www/site", &cache);
    assert_eq!(best, "var/www/site");
}

#[test]
fn cache_lookup_normalizes_separators() {
    let cache = PrefixCache {
        prefixes: vec!["assets".to_string()],
        cache_time: 0,
    };
    assert!(cache.contains_prefix("assets"));
    assert!(cache.contains_prefix("assets/"));
    assert!(cache.contains_prefix("assets//"));
    assert!(!cache.contains_prefix("asset"));
}

#[test]
fn refresh_builds_prefixes_from_listing() {
    let cps = vec!["assets/".to_string(), "/img/".to_string()];
    let keys = vec![
        "docs/readme.md".to_string(),
        "rootfile.bin".to_string(),
        "a/b/c.txt".to_string(),
    ];
    let cache = refresh_from_listing(&cps, &keys, 42);
    assert_eq!(cache.cache_time, 42);
    assert_eq!(
        cache.prefixes,
        vec![
            "assets".to_string(),
            "img".to_string(),
            "docs".to_string(),
            "a/b".to_string()
        ]
    );
}

#[test]
fn fresh_entry_needs_no_second_listing() {
    // One lookup at an empty cache plans exactly one listing; a lookup
    // right after the refresh plans none.
    let ttl = 300;
    let mut listings = 0;
    let mut entry: Option<PrefixCache> = None;

    // First lookup, at second 100.
    if needs_refresh(entry.as_ref(), 100, ttl) {
        listings += 1;
        entry = Some(refresh_from_listing(&vec!["assets/".to_string()], &vec![], 100));
    }
    assert_eq!(listings, 1);

    // Second lookup, still at second 100: served from the cache.
    if needs_refresh(entry.as_ref(), 100, ttl) {
        listings += 1;
    }
    assert_eq!(listings, 1);

    // Within the time-to-live: still no refresh.
    assert!(!needs_refresh(entry.as_ref(), 400, ttl));

    // One second past the time-to-live: exactly one more refresh.
    if needs_refresh(entry.as_ref(), 401, ttl) {
        listings += 1;
    }
    assert_eq!(listings, 2);
}

#[test]
fn store_keeps_one_entry_per_bucket() {
    let mut store = PrefixCacheStore::new();
    assert!(store.lookup("alpha").is_none());
    store.put("alpha", PrefixCache::new(1));
    store.put("beta", PrefixCache::new(2));
    assert_eq!(store.lookup("alpha").unwrap().cache_time, 1);
    assert_eq!(store.lookup("beta").unwrap().cache_time, 2);
    // A refresh overwrites in place, never duplicates.
    store.put("alpha", PrefixCache::new(9));
    assert_eq!(store.lookup("alpha").unwrap().cache_time, 9);
    assert_eq!(store.entries.len(), 2);
}

#[test]
fn calculated_path_prefers_base_relative() {
    assert_eq!(
        calculate_s3_path("/srv/content/site/a", "/srv/content"),
        "site/a"
    );
    assert_eq!(calculate_s3_path("/srv/content", "/srv/content"), "content");
    assert_eq!(calculate_s3_path("/var/www/html/site", ""), "www/html/site");
}
