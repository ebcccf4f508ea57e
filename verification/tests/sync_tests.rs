use s3_sync_tool::config::FilterConfig;
use s3_sync_tool::s3::sync::{
    collect_tasks, error_detail_line, errors_header_line, final_status_message,
    log_file_name, log_file_path, open_error_message, outcome_status_text,
    progress_message, session_header_line, summary_log_line, upload_error_message,
    CollectionPlan, FileTask, LocalTree, Mapping, SyncOutcome, UploadScheduler,
};
use s3_sync_tool::utils::FileEntry;

#[test]
fn directory_mapping_expands_and_filters() {
    // One mapped directory with an empty destination: the folder's bare
    // name becomes the prefix, the default filters drop node_modules.
    let mappings = vec![Mapping {
        local_path: "/home/u/site".to_string(),
        s3_prefix: "".to_string(),
        tree: LocalTree::Directory {
            files: vec![
                FileEntry {
                    path: "/home/u/site/index.html".to_string(),
                    size: 500,
                },
                FileEntry {
                    path: "/home/u/site/node_modules/x.js".to_string(),
                    size: 200,
                },
            ],
        },
    }];
    let plan: CollectionPlan = collect_tasks(&mappings, &FilterConfig::default());
    assert_eq!(plan.tasks.len(), 1);
    assert_eq!(plan.tasks[0].local_path, "/home/u/site/index.html");
    assert_eq!(plan.tasks[0].destination_key, "site/index.html");
    assert_eq!(plan.filtered_out, 1);
    assert_eq!(
        plan.log_lines,
        vec!["Folder: /home/u/site -> S3 Folder: ".to_string()]
    );
}

#[test]
fn explicit_prefix_is_used_verbatim() {
    let mappings = vec![Mapping {
        local_path: "/data/site".to_string(),
        s3_prefix: "assets/web".to_string(),
        tree: LocalTree::Directory {
            files: vec![FileEntry {
                path: "/data/site/css/main.css".to_string(),
                size: 10,
            }],
        },
    }];
    let plan = collect_tasks(&mappings, &FilterConfig::default());
    assert_eq!(plan.tasks.len(), 1);
    assert_eq!(plan.tasks[0].destination_key, "assets/web/css/main.css");
}

#[test]
fn single_file_mapping_maps_to_its_prefix() {
    let config = FilterConfig::default();
    let mappings = vec![
        Mapping {
            local_path: "/data/logo.png".to_string(),
            s3_prefix: "branding".to_string(),
            tree: LocalTree::SingleFile { size: 100 },
        },
        Mapping {
            local_path: "/data/icon.svg".to_string(),
            s3_prefix: "".to_string(),
            tree: LocalTree::SingleFile { size: 100 },
        },
    ];
    let plan = collect_tasks(&mappings, &config);
    assert_eq!(plan.tasks.len(), 2);
    assert_eq!(plan.tasks[0].destination_key, "branding");
    assert_eq!(plan.tasks[1].destination_key, "icon.svg");
    assert_eq!(
        plan.log_lines,
        vec![
            "File: /data/logo.png -> S3: branding".to_string(),
            "File: /data/icon.svg -> S3: ".to_string()
        ]
    );
}

#[test]
fn destination_keys_use_forward_slashes_only() {
    let mappings = vec![Mapping {
        local_path: "C:\\data\\site".to_string(),
        s3_prefix: "/assets\\web/".to_string(),
        tree: LocalTree::Directory {
            files: vec![FileEntry {
                path: "C:\\data\\site\\img\\logo.png".to_string(),
                size: 10,
            }],
        },
    }];
    let config = FilterConfig {
        enable_filtering: false,
        ..Default::default()
    };
    let plan = collect_tasks(&mappings, &config);
    assert_eq!(plan.tasks.len(), 1);
    let key = &plan.tasks[0].destination_key;
    assert!(!key.contains('\\'));
    assert!(!key.starts_with('/'));
    assert_eq!(key, "assets/web/img/logo.png");
}

#[test]
fn scheduler_respects_concurrency_limit() {
    // Ten tasks under a limit of three: never more than three in
    // flight, and the run's outcome accounts for every task.
    let mut s = UploadScheduler::new(10, 3);
    assert!(s.can_start());
    s.start();
    s.start();
    s.start();
    assert_eq!(s.in_flight, 3);
    // The third slot is the last: nothing more may start.
    assert!(!s.can_start());
    s.finish_success();
    assert!(s.can_start());
    s.start();
    assert!(!s.can_start());
    assert_eq!(s.in_flight, 3);
    assert_eq!(s.pending, 6);
}

#[test]
fn run_to_completion_aggregates_failures() {
    // Ten tasks, limit three, one transfer failure: the run goes to
    // completion and reports nine succeeded, one failed, with the
    // failure's message in the list.
    let mut s = UploadScheduler::new(10, 3);
    let mut done = 0;
    while done < 10 {
        while s.can_start() {
            s.start();
        }
        assert!(s.in_flight <= 3);
        if done == 3 {
            s.finish_failure(upload_error_message("site/broken.bin", "connection reset"));
        } else {
            s.finish_success();
        }
        done += 1;
    }
    assert!(s.is_done());
    assert_eq!(s.completed(), 9);
    let outcome = s.outcome();
    assert_eq!(outcome.total, 10);
    assert_eq!(outcome.succeeded, 9);
    assert_eq!(outcome.failed.len(), 1);
    assert_eq!(
        outcome.failed[0],
        "Lỗi upload site/broken.bin: connection reset"
    );
    let (message, is_error) = final_status_message(&outcome);
    assert_eq!(message, "Hoàn tất 9/10, 1 lỗi");
    assert!(is_error);
}

#[test]
fn full_success_has_plain_terminal_message() {
    let mut s = UploadScheduler::new(2, 50);
    s.start();
    s.finish_success();
    s.start();
    s.finish_success();
    let outcome = s.outcome();
    let (message, is_error) = final_status_message(&outcome);
    assert_eq!(message, "Đồng bộ hoàn tất!");
    assert!(!is_error);
    assert_eq!(outcome_status_text(&outcome), "success");
}

#[test]
fn status_and_error_lines() {
    assert_eq!(
        progress_message("index.html", 3, 10),
        "Đang upload: index.html (3/10)"
    );
    assert_eq!(
        upload_error_message("a/b.css", "timeout"),
        "Lỗi upload a/b.css: timeout"
    );
    assert_eq!(
        open_error_message("/data/a.css", "permission denied"),
        "Lỗi mở file /data/a.css: permission denied"
    );
    assert_eq!(error_detail_line("boom"), "  - boom");
    assert_eq!(errors_header_line(), "Errors:");
    let failed = SyncOutcome {
        total: 5,
        succeeded: 3,
        failed: vec!["x".to_string(), "y".to_string()],
    };
    assert_eq!(outcome_status_text(&failed), "failed (2 errors)");
}

#[test]
fn log_file_names_are_dated_and_padded() {
    assert_eq!(log_file_name(5, 3, 2026), "sync_log_05_03_2026.log");
    assert_eq!(log_file_name(31, 12, 2026), "sync_log_31_12_2026.log");
    assert_eq!(
        log_file_path("/var/log/sync", 5, 3, 2026),
        "/var/log/sync/sync_log_05_03_2026.log"
    );
}

#[test]
fn session_log_lines() {
    assert_eq!(
        session_header_line("my-bucket"),
        "Sync Session Started - Bucket: my-bucket"
    );
    let outcome = SyncOutcome {
        total: 10,
        succeeded: 9,
        failed: vec!["oops".to_string()],
    };
    let line = summary_log_line(&outcome, "my-bucket");
    assert!(line.starts_with("Uploaded: 9/10 files | Time: "));
    assert!(line.ends_with(" | Bucket: my-bucket | Status: failed (1 errors)"));
}

#[test]
fn current_log_path_is_dated() {
    let p = s3_sync_tool::s3::sync::current_log_file_path("/tmp/logs");
    assert!(p.starts_with("/tmp/logs/sync_log_"));
    assert!(p.ends_with(".log"));
}

#[test]
fn file_task_fields_carry_over() {
    let t = FileTask {
        local_path: "/a/b".to_string(),
        destination_key: "b".to_string(),
    };
    assert_eq!(t.local_path, "/a/b");
    assert_eq!(t.destination_key, "b");
}
