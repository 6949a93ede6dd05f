use std::collections::HashMap;
use std::path::PathBuf;

use cityfeed_puller::diagnostics::{
    connection_hint, hint_from_parts, path_style_hint, tls_name_mismatch_hint,
};
use cityfeed_puller::error::{ConsistencyError, PullError, ValidationError};
use cityfeed_puller::failover::{first_attempt, next_attempt, Attempt};
use cityfeed_puller::layout::{
    current_points_to, pointer_temp_name, sanitize_prefix, snapshot_target, staging_prefix,
};
use cityfeed_puller::manifest::{validate_hash, validate_manifest, Manifest, ManifestFile};
use cityfeed_puller::origins::{
    accept_origin, manifest_url, normalize_origin, normalize_origins, object_url, OriginError,
    UrlParts,
};
use cityfeed_puller::paths::{validate_rel_path, PathError};
use cityfeed_puller::pipeline::{Action, Event, Run, Stage};
use cityfeed_puller::response::{ensure_success, is_success, summarize_body, BODY_LIMIT};
use cityfeed_puller::text::{
    contains_str, find_part, is_space_char, join_range, split_str, str_eq, strip_trailing_str,
    trim_str,
};

#[test]
fn validate_rel_path_rejects_absolute_and_parent() {
    assert!(validate_rel_path("/etc/passwd").is_err());
    assert!(validate_rel_path("../x").is_err());
    assert!(validate_rel_path("a/../../b").is_err());
}

#[test]
fn validate_rel_path_accepts_simple() {
    let p = validate_rel_path("index.html").unwrap();
    assert_eq!(PathBuf::from(p), PathBuf::from("index.html"));

    let p = validate_rel_path("a/b/c.txt").unwrap();
    assert_eq!(PathBuf::from(p), PathBuf::from("a/b/c.txt"));

    let p = validate_rel_path("a/./b").unwrap();
    assert_eq!(PathBuf::from(p), PathBuf::from("a/b"));
}

#[test]
fn normalize_origin_trims_and_rejects_bad_schemes() {
    assert_eq!(
        normalize_origin(" https://example.com/ ").unwrap(),
        "https://example.com"
    );
    assert!(normalize_origin("").is_err());
    assert!(normalize_origin("ftp://example.com").is_err());
    assert!(normalize_origin("not a url").is_err());
}

#[test]
fn tls_name_mismatch_hint_for_dotted_bucket() {
    let hint = tls_name_mismatch_hint("https://foo.bar.s3.fr-par.scw.cloud").unwrap();
    assert!(hint.contains("path-style origin"));
    assert!(hint.contains("https://s3.fr-par.scw.cloud/foo.bar"));
    assert!(tls_name_mismatch_hint("http://foo.bar.s3.fr-par.scw.cloud").is_none());
    assert!(tls_name_mismatch_hint("https://puller.s3.fr-par.scw.cloud").is_none());
}

#[test]
fn path_errors_name_the_first_offence() {
    assert_eq!(validate_rel_path(""), Err(PathError::Empty));
    assert_eq!(validate_rel_path("/"), Err(PathError::Absolute));
    assert_eq!(validate_rel_path("/etc/passwd"), Err(PathError::Absolute));
    assert_eq!(validate_rel_path("a//b"), Err(PathError::EmptyComponent));
    assert_eq!(validate_rel_path("a/"), Err(PathError::EmptyComponent));
    assert_eq!(validate_rel_path(".."), Err(PathError::ParentDir));
    assert_eq!(validate_rel_path("../x"), Err(PathError::ParentDir));
    assert_eq!(validate_rel_path("a/../../b"), Err(PathError::ParentDir));
    assert_eq!(validate_rel_path("a/b/.."), Err(PathError::ParentDir));
    assert_eq!(validate_rel_path("."), Err(PathError::CurrentDir));
    assert_eq!(validate_rel_path("./a"), Err(PathError::CurrentDir));
    assert_eq!(validate_rel_path("a//../b"), Err(PathError::EmptyComponent));
}

#[test]
fn path_normal_form_drops_inner_dots_only() {
    assert_eq!(validate_rel_path("a/./b"), Ok("a/b".to_string()));
    assert_eq!(validate_rel_path("a/."), Ok("a".to_string()));
    assert_eq!(validate_rel_path("a/./././b/."), Ok("a/b".to_string()));
    assert_eq!(validate_rel_path("..a/b.."), Ok("..a/b..".to_string()));
    assert_eq!(validate_rel_path("...") , Ok("...".to_string()));
    assert_eq!(validate_rel_path(".hidden/x"), Ok(".hidden/x".to_string()));
    assert_eq!(validate_rel_path("d\u{e9}j\u{e0}/vu"), Ok("d\u{e9}j\u{e0}/vu".to_string()));
}

#[test]
fn origin_errors_by_kind() {
    assert_eq!(normalize_origin(""), Err(OriginError::Empty));
    assert_eq!(normalize_origin(" \t\n"), Err(OriginError::Empty));
    assert_eq!(normalize_origin("/"), Err(OriginError::Unparsable));
    assert_eq!(normalize_origin("not a url"), Err(OriginError::Unparsable));
    assert_eq!(normalize_origin("example.com"), Err(OriginError::Unparsable));
    assert_eq!(
        normalize_origin("ftp://example.com"),
        Err(OriginError::UnsupportedScheme)
    );
    assert_eq!(
        normalize_origin("file:///tmp/x"),
        Err(OriginError::UnsupportedScheme)
    );
}

#[test]
fn origin_normal_form() {
    assert_eq!(
        normalize_origin("http://example.com///"),
        Ok("http://example.com".to_string())
    );
    assert_eq!(
        normalize_origin("\u{a0}https://example.com:8443/base/ \u{3000}"),
        Ok("https://example.com:8443/base".to_string())
    );
    assert_eq!(
        normalize_origin("HTTPS://Example.COM"),
        Ok("HTTPS://Example.COM".to_string())
    );
}

#[test]
fn accept_origin_goes_by_the_scheme() {
    let parts = |scheme: &str| {
        Some(UrlParts {
            scheme: scheme.to_string(),
            host: Some("example.com".to_string()),
        })
    };
    assert_eq!(accept_origin("x", parts("http")), Ok("x".to_string()));
    assert_eq!(accept_origin("y", parts("https")), Ok("y".to_string()));
    assert_eq!(
        accept_origin("x", parts("httpx")),
        Err(OriginError::UnsupportedScheme)
    );
    assert_eq!(
        accept_origin("x", parts("ftp")),
        Err(OriginError::UnsupportedScheme)
    );
    assert_eq!(accept_origin("x", None), Err(OriginError::Unparsable));
}

#[test]
fn origins_are_kept_once_in_order() {
    let given = vec![
        "https://b.example/".to_string(),
        " https://a.example".to_string(),
        "https://b.example".to_string(),
        "https://a.example//".to_string(),
        "http://c.example".to_string(),
    ];
    assert_eq!(
        normalize_origins(&given),
        Ok(vec![
            "https://b.example".to_string(),
            "https://a.example".to_string(),
            "http://c.example".to_string(),
        ])
    );
}

#[test]
fn origins_fail_as_a_whole() {
    let none: Vec<String> = Vec::new();
    assert_eq!(normalize_origins(&none), Err(OriginError::NoOrigins));
    let given = vec![
        "https://a.example".to_string(),
        "ftp://b.example".to_string(),
        "".to_string(),
    ];
    assert_eq!(normalize_origins(&given), Err(OriginError::UnsupportedScheme));
    let given = vec!["https://a.example".to_string(), "  ".to_string()];
    assert_eq!(normalize_origins(&given), Err(OriginError::Empty));
}

#[test]
fn urls_of_an_origin() {
    assert_eq!(
        manifest_url("https://example.com"),
        "https://example.com/manifests/latest.json"
    );
    assert_eq!(
        object_url("https://example.com", "abc"),
        "https://example.com/objects/abc"
    );
}

#[test]
fn names_under_the_root() {
    assert_eq!(sanitize_prefix("v-test-1"), "v_test_1");
    assert_eq!(sanitize_prefix("2024.01/x y\u{e9}Z"), "2024_01_x_y_Z");
    assert_eq!(sanitize_prefix(""), "");
    assert_eq!(staging_prefix("v-test-1"), ".v_test_1.staging-");
    assert_eq!(snapshot_target("v1"), "snapshots/v1");
    assert_eq!(pointer_temp_name("4711"), ".current.new.4711");
}

#[test]
fn pointer_is_compared_by_its_text() {
    assert!(current_points_to(&Some("snapshots/v1".to_string()), "snapshots/v1"));
    assert!(!current_points_to(&Some("snapshots/v2".to_string()), "snapshots/v1"));
    assert!(!current_points_to(&Some("snapshots/v1/".to_string()), "snapshots/v1"));
    assert!(!current_points_to(&None, "snapshots/v1"));
}

#[test]
fn hashes_cannot_leave_the_store() {
    let bad = Err(PullError::Validation(ValidationError::InvalidHash));
    assert_eq!(validate_hash("abc"), Ok(()));
    assert_eq!(validate_hash(".."), Ok(()));
    assert_eq!(validate_hash(""), bad);
    assert_eq!(validate_hash("a/b"), bad);
    assert_eq!(validate_hash("a\\b"), bad);
    assert_eq!(validate_hash("/"), bad);
}

fn manifest(version: &str, files: &[(&str, &str, u64)]) -> Manifest {
    Manifest {
        version: version.to_string(),
        files: files
            .iter()
            .map(|(path, hash, size)| ManifestFile {
                path: path.to_string(),
                hash: hash.to_string(),
                size: *size,
            })
            .collect(),
    }
}

#[test]
fn manifest_needs_a_version() {
    let bad = Err(PullError::Validation(ValidationError::EmptyVersion));
    assert_eq!(validate_manifest(&manifest("v1", &[])), Ok(()));
    assert_eq!(validate_manifest(&manifest("", &[])), bad);
    assert_eq!(validate_manifest(&manifest(" \n", &[("a", "b", 1)])), bad);
}

#[test]
fn status_decides_success() {
    assert!(is_success(200));
    assert!(is_success(204));
    assert!(is_success(299));
    assert!(!is_success(199));
    assert!(!is_success(300));
    assert!(!is_success(404));
    assert_eq!(ensure_success(200), Ok(()));
    assert_eq!(ensure_success(404), Err(PullError::Protocol { status: 404 }));
    assert_eq!(ensure_success(500), Err(PullError::Protocol { status: 500 }));
}

#[test]
fn refusal_body_is_flattened_and_cut() {
    assert_eq!(summarize_body("not\r\nfound\n"), "not  found ");
    assert_eq!(summarize_body(""), "");
    let exact = "x".repeat(BODY_LIMIT);
    assert_eq!(summarize_body(&exact), exact);
    let long = "y\n".repeat(BODY_LIMIT);
    let cut = summarize_body(&long);
    assert_eq!(cut.chars().count(), BODY_LIMIT + 1);
    assert_eq!(cut, format!("{}\u{2026}", "y ".repeat(BODY_LIMIT / 2)));
}

#[test]
fn fail_over_moves_on_only_for_the_origin_s_own_failures() {
    assert_eq!(
        first_attempt(0),
        Attempt::GiveUp(PullError::Configuration(OriginError::NoOrigins))
    );
    assert_eq!(first_attempt(2), Attempt::Try(0));
    assert_eq!(next_attempt(2, 0, Ok(())), Attempt::Settled(0));
    assert_eq!(next_attempt(2, 0, Err(PullError::Transport)), Attempt::Try(1));
    assert_eq!(
        next_attempt(2, 0, Err(PullError::Protocol { status: 503 })),
        Attempt::Try(1)
    );
    assert_eq!(
        next_attempt(2, 1, Err(PullError::Protocol { status: 503 })),
        Attempt::GiveUp(PullError::Protocol { status: 503 })
    );
    assert_eq!(
        next_attempt(3, 0, Err(PullError::Filesystem)),
        Attempt::GiveUp(PullError::Filesystem)
    );
    assert_eq!(next_attempt(2, 1, Ok(())), Attempt::Settled(1));
    assert!(PullError::Transport.is_retryable());
    assert!(!PullError::Validation(ValidationError::EmptyVersion).is_retryable());
}

#[test]
fn hint_is_for_dotted_buckets_only() {
    assert_eq!(
        path_style_hint("foo.bar.s3.fr-par.scw.cloud"),
        Some(
            "Try path-style origin for dotted bucket names, e.g. `https://s3.fr-par.scw.cloud/foo.bar`"
                .to_string()
        )
    );
    assert_eq!(
        path_style_hint("a.b.c.s3-website.eu.example"),
        Some(
            "Try path-style origin for dotted bucket names, e.g. `https://s3.eu.example/a.b.c`"
                .to_string()
        )
    );
    assert_eq!(
        path_style_hint("a.b.s3"),
        Some("Try path-style origin for dotted bucket names, e.g. `https://s3/a.b`".to_string())
    );
    assert_eq!(path_style_hint("puller.s3.fr-par.scw.cloud"), None);
    assert_eq!(path_style_hint("s3.fr-par.scw.cloud"), None);
    assert_eq!(path_style_hint("foo.bar.example.com"), None);
    assert_eq!(path_style_hint("a.b.s3x.example"), None);
    assert_eq!(path_style_hint("x.s3.a.b.s3-website.c"), None);
}

#[test]
fn hint_needs_https_and_a_host() {
    let parts = |scheme: &str, host: Option<&str>| {
        Some(UrlParts {
            scheme: scheme.to_string(),
            host: host.map(|h| h.to_string()),
        })
    };
    assert!(hint_from_parts(&parts("https", Some("a.b.s3.example"))).is_some());
    assert_eq!(hint_from_parts(&parts("http", Some("a.b.s3.example"))), None);
    assert_eq!(hint_from_parts(&parts("https", None)), None);
    assert_eq!(hint_from_parts(&None), None);
}

#[test]
fn hint_goes_with_a_certificate_name_failure_only() {
    let origin = "https://foo.bar.s3.fr-par.scw.cloud";
    let message = "error trying to connect: certificate not valid for name \"foo.bar.s3\"";
    assert!(connection_hint(true, message, origin).is_some());
    assert_eq!(connection_hint(false, message, origin), None);
    assert_eq!(connection_hint(true, "connection refused", origin), None);
    assert_eq!(connection_hint(true, message, "https://example.com"), None);
    assert_eq!(connection_hint(true, message, "not a url"), None);
}

#[test]
fn text_helpers() {
    assert_eq!(trim_str("  a b \t"), "a b");
    assert_eq!(trim_str("\u{2003}x\u{85}"), "x");
    assert_eq!(trim_str("   "), "");
    assert_eq!(trim_str(""), "");
    assert!(is_space_char(' '));
    assert!(is_space_char('\u{200a}'));
    assert!(!is_space_char('\u{200b}'));
    assert!(!is_space_char('a'));
    assert_eq!(strip_trailing_str("a/b///", '/'), "a/b");
    assert_eq!(strip_trailing_str("///", '/'), "");
    assert_eq!(split_str("a//b/", '/'), vec!["a", "", "b", ""]);
    assert_eq!(split_str("", '/'), vec![""]);
    assert_eq!(split_str("abc", '.'), vec!["abc"]);
    let parts = vec!["a", "b", "c", "d"];
    assert_eq!(join_range(&parts, 1, 3, "."), "b.c");
    assert_eq!(join_range(&parts, 0, 4, "--"), "a--b--c--d");
    assert_eq!(join_range(&parts, 2, 2, "."), "");
    assert_eq!(find_part(&parts, "c"), 2);
    assert_eq!(find_part(&parts, "x"), 4);
    assert!(str_eq("abc", "abc"));
    assert!(!str_eq("abc", "abd"));
    assert!(!str_eq("abc", "ab"));
    assert!(contains_str("hello world", "lo w"));
    assert!(contains_str("hello", ""));
    assert!(contains_str("hello", "hello"));
    assert!(!contains_str("hello", "hello!"));
    assert!(!contains_str("aab", "abb"));
}

/// A root directory and some origins, held in memory.
struct World {
    /// What each origin serves; `None` for one that cannot be reached.
    origins: Vec<Option<HashMap<String, Vec<u8>>>>,
    objects: HashMap<String, Vec<u8>>,
    staging: HashMap<String, Vec<u8>>,
    snapshots: HashMap<String, HashMap<String, Vec<u8>>>,
    current: Option<String>,
    temp: Vec<u8>,
    /// The requests that were answered with success, as (origin, hash).
    served: Vec<(usize, String)>,
    /// The requests that were made at all.
    asked: usize,
    actions: Vec<Action>,
    /// Stop, as if killed, once so many actions were carried out.
    kill_after: Option<usize>,
}

fn world(origins: Vec<Option<HashMap<String, Vec<u8>>>>) -> World {
    World {
        origins,
        objects: HashMap::new(),
        staging: HashMap::new(),
        snapshots: HashMap::new(),
        current: None,
        temp: Vec::new(),
        served: Vec::new(),
        asked: 0,
        actions: Vec::new(),
        kill_after: None,
    }
}

fn serving(objects: &[(&str, &str)]) -> Option<HashMap<String, Vec<u8>>> {
    Some(
        objects
            .iter()
            .map(|(hash, bytes)| (hash.to_string(), bytes.as_bytes().to_vec()))
            .collect(),
    )
}

/// Runs the puller against the world; `None` where the run was killed.
fn pull(w: &mut World, m: &Manifest) -> Option<Result<(), PullError>> {
    let mut run = Run::new(w.origins.len());
    let mut action = run.step(m, Event::Begin);
    loop {
        if let Some(limit) = w.kill_after {
            if w.actions.len() >= limit {
                return None;
            }
        }
        w.actions.push(action);
        let event = match action {
            Action::Inspect => Event::Inspected {
                snapshot_present: w.snapshots.contains_key(&m.version),
                pointer_current: current_points_to(&w.current, &snapshot_target(&m.version)),
            },
            Action::ProbeObject(i) => Event::Found(w.objects.contains_key(&m.files[i].hash)),
            Action::Fetch { file, origin } => {
                w.asked += 1;
                match &w.origins[origin] {
                    None => Event::Failed(PullError::Transport),
                    Some(served) => match served.get(&m.files[file].hash) {
                        None => Event::Failed(PullError::Protocol { status: 404 }),
                        Some(bytes) => {
                            w.served.push((origin, m.files[file].hash.clone()));
                            w.temp = bytes.clone();
                            Event::Wrote(bytes.len() as u64)
                        }
                    },
                }
            }
            Action::Persist(i) => {
                let bytes = w.temp.clone();
                w.objects.entry(m.files[i].hash.clone()).or_insert(bytes);
                Event::Done
            }
            Action::CreateStaging => {
                w.staging.clear();
                Event::Done
            }
            Action::StatObject(i) => match w.objects.get(&m.files[i].hash) {
                Some(bytes) => Event::Size(bytes.len() as u64),
                None => Event::Missing,
            },
            Action::ProbeDestination(i) => {
                let to = validate_rel_path(&m.files[i].path).unwrap();
                Event::Found(w.staging.contains_key(&to))
            }
            Action::CopyFile(i) => {
                let to = validate_rel_path(&m.files[i].path).unwrap();
                let bytes = w.objects[&m.files[i].hash].clone();
                w.staging.insert(to, bytes);
                Event::Done
            }
            Action::Promote => {
                let tree = std::mem::take(&mut w.staging);
                w.snapshots.insert(m.version.clone(), tree);
                Event::Done
            }
            Action::Switch => {
                let target = snapshot_target(&m.version);
                if !current_points_to(&w.current, &target) {
                    w.current = Some(target);
                }
                Event::Done
            }
            Action::Finish => return Some(Ok(())),
            Action::Abort(e) => return Some(Err(e)),
        };
        action = run.step(m, event);
    }
}

#[test]
fn run_builds_snapshot_and_switches_current_once() {
    let m = manifest("v1", &[("index.html", "abc", 11)]);
    let mut w = world(vec![serving(&[("abc", "hello world")])]);
    assert_eq!(pull(&mut w, &m), Some(Ok(())));
    assert_eq!(w.objects["abc"], b"hello world".to_vec());
    assert_eq!(w.snapshots["v1"]["index.html"], b"hello world".to_vec());
    assert_eq!(w.current, Some("snapshots/v1".to_string()));
    assert_eq!(
        w.actions,
        vec![
            Action::Inspect,
            Action::ProbeObject(0),
            Action::Fetch { file: 0, origin: 0 },
            Action::Persist(0),
            Action::CreateStaging,
            Action::StatObject(0),
            Action::ProbeDestination(0),
            Action::CopyFile(0),
            Action::Promote,
            Action::Switch,
            Action::Finish,
        ]
    );

    w.actions.clear();
    assert_eq!(pull(&mut w, &m), Some(Ok(())));
    assert_eq!(w.actions, vec![Action::Inspect, Action::Finish]);
    assert_eq!(w.served, vec![(0, "abc".to_string())]);
    assert_eq!(w.asked, 1);
    assert_eq!(w.current, Some("snapshots/v1".to_string()));
}

#[test]
fn run_with_snapshot_in_place_only_switches() {
    let m = manifest("v2", &[("index.html", "abc", 11)]);
    let mut w = world(vec![serving(&[("abc", "hello world")])]);
    w.snapshots.insert("v2".to_string(), HashMap::new());
    w.current = Some("snapshots/v1".to_string());
    assert_eq!(pull(&mut w, &m), Some(Ok(())));
    assert_eq!(w.actions, vec![Action::Inspect, Action::Switch, Action::Finish]);
    assert_eq!(w.current, Some("snapshots/v2".to_string()));
    assert_eq!(w.asked, 0);
}

#[test]
fn run_fetches_each_object_once() {
    let m = manifest(
        "v1",
        &[("a.txt", "h1", 2), ("b/a.txt", "h1", 2), ("c.txt", "h2", 3)],
    );
    let mut w = world(vec![serving(&[("h1", "xy"), ("h2", "xyz")])]);
    w.objects.insert("h2".to_string(), b"xyz".to_vec());
    assert_eq!(pull(&mut w, &m), Some(Ok(())));
    assert_eq!(w.served, vec![(0, "h1".to_string())]);
    assert_eq!(w.snapshots["v1"].len(), 3);
    assert_eq!(w.snapshots["v1"]["b/a.txt"], b"xy".to_vec());
}

#[test]
fn run_fails_over_to_the_next_origin() {
    let m = manifest("v1", &[("index.html", "abc", 11)]);
    let mut w = world(vec![
        None,
        serving(&[]),
        serving(&[("abc", "hello world")]),
        serving(&[("abc", "hello world")]),
    ]);
    assert_eq!(pull(&mut w, &m), Some(Ok(())));
    assert_eq!(w.served, vec![(2, "abc".to_string())]);
    assert_eq!(w.asked, 3);
    assert_eq!(w.snapshots["v1"]["index.html"], b"hello world".to_vec());
}

#[test]
fn run_gives_up_with_the_last_origin_s_error() {
    let m = manifest("v1", &[("index.html", "abc", 11)]);
    let mut w = world(vec![serving(&[]), None]);
    assert_eq!(pull(&mut w, &m), Some(Err(PullError::Transport)));
    assert_eq!(w.asked, 2);
    assert!(w.snapshots.is_empty());
    assert_eq!(w.current, None);

    let mut w = world(vec![]);
    assert_eq!(
        pull(&mut w, &m),
        Some(Err(PullError::Configuration(OriginError::NoOrigins)))
    );
}

#[test]
fn run_does_not_fail_over_on_a_wrong_length() {
    let m = manifest("v1", &[("index.html", "abc", 11)]);
    let mut w = world(vec![serving(&[("abc", "hello")]), serving(&[("abc", "hello world")])]);
    assert_eq!(
        pull(&mut w, &m),
        Some(Err(PullError::Validation(ValidationError::SizeMismatch {
            expected: 11,
            actual: 5
        })))
    );
    assert_eq!(w.asked, 1);
    assert!(w.objects.is_empty());
    assert!(w.snapshots.is_empty());
}

#[test]
fn run_refuses_a_stored_object_of_another_length() {
    let m = manifest("v1", &[("index.html", "abc", 11)]);
    let mut w = world(vec![serving(&[("abc", "hello world")])]);
    w.objects.insert("abc".to_string(), b"hello".to_vec());
    assert_eq!(
        pull(&mut w, &m),
        Some(Err(PullError::Validation(ValidationError::SizeMismatch {
            expected: 11,
            actual: 5
        })))
    );
    assert_eq!(w.asked, 0);
    assert!(w.snapshots.is_empty());
    assert_eq!(w.current, None);
}

#[test]
fn run_refuses_unsafe_paths_and_hashes_before_fetching() {
    let mut w = world(vec![serving(&[("abc", "hello world")])]);
    let m = manifest("v1", &[("ok", "abc", 11), ("../escape", "abc", 11)]);
    assert_eq!(
        pull(&mut w, &m),
        Some(Err(PullError::Validation(ValidationError::UnsafePath(
            PathError::ParentDir
        ))))
    );
    assert!(w.snapshots.is_empty());

    let mut w = world(vec![serving(&[("abc", "hello world")])]);
    let m = manifest("v1", &[("ok", "../abc", 11)]);
    assert_eq!(
        pull(&mut w, &m),
        Some(Err(PullError::Validation(ValidationError::InvalidHash)))
    );
    assert_eq!(w.asked, 0);
}

#[test]
fn run_refuses_two_files_at_one_place() {
    let m = manifest("v1", &[("a/b", "h1", 2), ("a/./b", "h1", 2)]);
    let mut w = world(vec![serving(&[("h1", "xy")])]);
    assert_eq!(
        pull(&mut w, &m),
        Some(Err(PullError::Consistency(
            ConsistencyError::DestinationExists
        )))
    );
    assert!(w.snapshots.is_empty());
}

#[test]
fn run_killed_before_promotion_shows_no_snapshot() {
    let m = manifest("v1", &[("a", "h1", 2), ("b", "h2", 3)]);
    let mut limit = 0;
    loop {
        let mut w = world(vec![serving(&[("h1", "xy"), ("h2", "xyz")])]);
        w.kill_after = Some(limit);
        let ended = pull(&mut w, &m);
        if w.actions.contains(&Action::Promote) {
            assert_eq!(w.snapshots["v1"].len(), 2);
        } else {
            assert!(w.snapshots.is_empty());
            assert!(ended.is_none());
        }
        if let Some(end) = ended {
            assert_eq!(end, Ok(()));
            break;
        }
        // A second run on what the killed one left converges.
        w.kill_after = None;
        w.actions.clear();
        let served_before = w.served.len();
        let missing = if w.snapshots.is_empty() { 2 - w.objects.len() } else { 0 };
        assert_eq!(pull(&mut w, &m), Some(Ok(())));
        assert_eq!(w.snapshots["v1"]["a"], b"xy".to_vec());
        assert_eq!(w.snapshots["v1"]["b"], b"xyz".to_vec());
        assert_eq!(w.current, Some("snapshots/v1".to_string()));
        assert_eq!(w.served.len() - served_before, missing);
        limit += 1;
    }
    assert!(limit > 10);
}

#[test]
fn run_rejects_what_it_did_not_ask_for() {
    let m = manifest("v1", &[("a", "h1", 2)]);
    let odd = Action::Abort(PullError::Consistency(ConsistencyError::UnexpectedEvent));
    let mut run = Run::new(1);
    assert!(!run.is_over());
    assert_eq!(run.step(&m, Event::Done), odd);
    assert_eq!(run.stage, Stage::Failed);
    assert!(run.is_over());
    assert_eq!(run.step(&m, Event::Begin), odd);

    let mut run = Run::new(1);
    assert_eq!(run.step(&m, Event::Begin), Action::Inspect);
    assert_eq!(
        run.step(&m, Event::Failed(PullError::Filesystem)),
        Action::Abort(PullError::Filesystem)
    );

    let mut run = Run { stage: Stage::Checking(0), origins: 1 };
    assert_eq!(
        run.step(&m, Event::Missing),
        Action::Abort(PullError::Consistency(ConsistencyError::MissingObject))
    );
    let mut run = Run { stage: Stage::Copying(7), origins: 1 };
    assert_eq!(run.step(&m, Event::Done), odd);
}

#[test]
fn run_with_no_files_promotes_an_empty_snapshot() {
    let m = manifest("v0", &[]);
    let mut w = world(vec![serving(&[])]);
    assert_eq!(pull(&mut w, &m), Some(Ok(())));
    assert_eq!(
        w.actions,
        vec![
            Action::Inspect,
            Action::CreateStaging,
            Action::Promote,
            Action::Switch,
            Action::Finish
        ]
    );
    assert!(w.snapshots["v0"].is_empty());
}
