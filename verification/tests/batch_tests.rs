use stac_cli::batch::{
    apply_outcomes, classify, download_exit_code, failure_line, failure_lines, BatchStatus,
    DownloadOutcome, FetchError,
};
use stac_cli::model::{Asset, Item};

fn asset(href: &str) -> Asset {
    Asset {
        href: href.to_string(),
        title: None,
        media_type: None,
        roles: Vec::new(),
    }
}

fn empty_item(id: &str) -> Item {
    Item {
        id: id.to_string(),
        base_href: None,
        assets: Vec::new(),
        links: Vec::new(),
    }
}

fn success(key: &str, href: &str) -> DownloadOutcome {
    DownloadOutcome::Success {
        key: key.to_string(),
        asset: asset(href),
    }
}

fn failure(key: &str, href: &str, error: FetchError) -> DownloadOutcome {
    DownloadOutcome::Failure {
        key: key.to_string(),
        asset: asset(href),
        error,
    }
}

#[test]
fn full_success_batch() {
    let mut item = empty_item("it");
    let outcomes = vec![
        success("a", "./a.tif"),
        success("b", "./b.tif"),
        success("c", "./c.tif"),
    ];
    let failures = apply_outcomes(&mut item, outcomes);
    assert_eq!(item.assets.len(), 3);
    assert!(failures.is_empty());
    assert_eq!(item.assets[0].0, "a");
    assert_eq!(item.assets[1].0, "b");
    assert_eq!(item.assets[2].0, "c");
    for (_, a) in &item.assets {
        assert!(a.href.starts_with("./"));
    }
    let status = classify(item.assets.len(), failures.len());
    assert_eq!(status, BatchStatus::FullSuccess);
    assert_eq!(download_exit_code(status, true), 0);
}

#[test]
fn single_failure_batch() {
    let mut item = empty_item("it");
    let outcomes = vec![
        success("a", "./a.tif"),
        failure("b", "http://x/b.tif", FetchError::HttpError("404".to_string())),
        success("c", "./c.tif"),
    ];
    let failures = apply_outcomes(&mut item, outcomes);
    assert_eq!(item.assets.len(), 2);
    assert_eq!(failures.len(), 1);
    assert_eq!(failures[0].key.as_deref(), Some("b"));
    assert_eq!(failures[0].message, "404");
    let status = classify(item.assets.len(), failures.len());
    assert_eq!(status, BatchStatus::PartialSuccess);
    assert_eq!(download_exit_code(status, true), 0);
    let line = failure_line(&failures[0], true);
    assert_eq!(line, "WARN: b: 404");
}

#[test]
fn total_failure_batch() {
    let mut item = empty_item("it");
    let outcomes = vec![
        failure("a", "nope", FetchError::InvalidUrl("nope".to_string())),
        failure("b", "http://x/b", FetchError::IoError("disk full".to_string())),
    ];
    let failures = apply_outcomes(&mut item, outcomes);
    assert_eq!(item.assets.len(), 0);
    assert_eq!(failures.len(), 2);
    let status = classify(item.assets.len(), failures.len());
    assert_eq!(status, BatchStatus::TotalFailure);
    assert_eq!(download_exit_code(status, true), 1);
    assert_eq!(download_exit_code(status, false), 1);
    let lines = failure_lines(&failures, false);
    assert_eq!(lines.len(), 2);
    assert_eq!(lines[0], "ERR: a: invalid URL: nope");
    assert_eq!(lines[1], "ERR: b: disk full");
}

#[test]
fn empty_batch_is_full_success() {
    let mut item = empty_item("it");
    let failures = apply_outcomes(&mut item, Vec::new());
    assert_eq!(item.assets.len(), 0);
    assert!(failures.is_empty());
    let status = classify(0, 0);
    assert_eq!(status, BatchStatus::FullSuccess);
    assert_eq!(download_exit_code(status, true), 0);
}

#[test]
fn task_failure_is_keyless() {
    let mut item = empty_item("it");
    let outcomes = vec![DownloadOutcome::TaskFailure {
        message: "task aborted".to_string(),
    }];
    let failures = apply_outcomes(&mut item, outcomes);
    assert_eq!(failures.len(), 1);
    assert!(failures[0].key.is_none());
    let line = failure_line(&failures[0], false);
    assert_eq!(line, "ERR: task aborted");
}

#[test]
fn fifty_outcomes_all_settle() {
    let mut item = empty_item("big");
    let mut outcomes = Vec::new();
    for i in 0..50 {
        let key = format!("asset-{}", i);
        if i % 5 == 0 {
            outcomes.push(failure(
                &key,
                "http://unreachable.invalid/x.tif",
                FetchError::HttpError("connect failed".to_string()),
            ));
        } else {
            outcomes.push(success(&key, "./x.tif"));
        }
    }
    let failures = apply_outcomes(&mut item, outcomes);
    assert_eq!(item.assets.len() + failures.len(), 50);
    assert_eq!(item.assets.len(), 40);
    assert_eq!(failures.len(), 10);
    let status = classify(item.assets.len(), failures.len());
    assert_eq!(status, BatchStatus::PartialSuccess);
    assert_eq!(download_exit_code(status, true), 0);
}

#[test]
fn fetch_error_messages() {
    assert_eq!(
        FetchError::InvalidUrl("x y".to_string()).message(),
        "invalid URL: x y"
    );
    assert_eq!(
        FetchError::NoFileName("data:,a".to_string()).message(),
        "no file name: data:,a"
    );
    assert_eq!(FetchError::HttpError("500".to_string()).message(), "500");
    assert_eq!(
        FetchError::IoError("denied".to_string()).message(),
        "denied"
    );
}

#[test]
fn settling_is_deterministic() {
    let build = || {
        vec![
            success("a", "./a.tif"),
            failure("b", "http://x/b", FetchError::HttpError("410".to_string())),
        ]
    };
    let mut first = empty_item("it");
    let mut second = empty_item("it");
    let f1 = apply_outcomes(&mut first, build());
    let f2 = apply_outcomes(&mut second, build());
    assert_eq!(first.assets.len(), second.assets.len());
    for (left, right) in first.assets.iter().zip(second.assets.iter()) {
        assert_eq!(left.0, right.0);
        assert_eq!(left.1.href, right.1.href);
    }
    assert_eq!(f1.len(), f2.len());
    assert_eq!(f1[0].key, f2[0].key);
    assert_eq!(f1[0].message, f2[0].message);
}
