use carlo::cache::{Cache, Name, Timestamp};
use carlo::carlo::{Context, Event};
use carlo::config::JenkinsConfig;
use carlo::jenkins::{BuildDuration, BuildNumber, BuildUrl, JBuild, JJob, JListener};

fn job(name: &str, result: Option<&str>, ts: u64, number: u32) -> JJob {
    JJob {
        name: Name(name.to_string()),
        last_build: JBuild {
            result: result.map(|r| r.to_string()),
            timestamp: Timestamp(ts),
            number: BuildNumber(number),
            duration: BuildDuration(12000),
            url: BuildUrl(format!("u{}", number)),
        },
    }
}

fn config() -> JenkinsConfig {
    JenkinsConfig {
        server: "http://ci-a.example/api/json".to_string(),
        id: "ci-a".to_string(),
        user: "bot".to_string(),
        token: "t".to_string(),
        notify: vec!["#dev".to_string(), "#ops".to_string()],
    }
}

fn ts_of(events: &[Event]) -> Vec<(String, u32)> {
    events
        .iter()
        .map(|e| match e {
            Event::UpdatedJob(_, name, _, number, _, _, _) => (name.0.clone(), number.0),
            Event::IncomingIrcMessage(_) => panic!("not an announcement"),
        })
        .collect()
}

#[test]
fn build_announcement_scenario() {
    let cfg = config();
    let mut l = JListener::new();
    let first = l.update(vec![job("web", Some("SUCCESS"), 1000, 5)], &cfg);
    assert!(first.is_empty());
    let second = l.update(vec![job("web", Some("FAILURE"), 2000, 6)], &cfg);
    assert_eq!(second.len(), 1);
    match &second[0] {
        Event::UpdatedJob(id, name, result, number, duration, url, notify) => {
            assert_eq!(id, "ci-a");
            assert_eq!(name.0, "web");
            assert_eq!(result, "FAILURE");
            assert_eq!(number.0, 6);
            assert_eq!(duration.0, 12000);
            assert_eq!(url.0, "u6");
            assert_eq!(notify, &vec!["#dev".to_string(), "#ops".to_string()]);
        }
        Event::IncomingIrcMessage(_) => panic!("not an announcement"),
    }
    let ctx = Context { nickname: "carlo".to_string(), owners: vec![], uptime: 0 };
    let out = ctx.handle(second.into_iter().next().unwrap());
    let text = "New build for job 'web' on 'ci-a'! Result: FAILURE";
    assert_eq!(out.len(), 2);
    assert_eq!((out[0].target.as_str(), out[0].body.as_str()), ("#dev", text));
    assert_eq!((out[1].target.as_str(), out[1].body.as_str()), ("#ops", text));
}

#[test]
fn same_response_twice_is_silent() {
    let cfg = config();
    let mut l = JListener::new();
    l.update(vec![job("a", Some("SUCCESS"), 1, 1), job("b", Some("SUCCESS"), 1, 1)], &cfg);
    let resp = || vec![job("a", Some("SUCCESS"), 5, 2), job("b", Some("SUCCESS"), 1, 1), job("c", None, 9, 1)];
    assert_eq!(ts_of(&l.update(resp(), &cfg)), vec![("a".to_string(), 2)]);
    assert!(l.update(resp(), &cfg).is_empty());
}

#[test]
fn announcements_count_strict_increases() {
    let cfg = config();
    let mut l = JListener::new();
    let mut count = 0;
    for ts in [10u64, 20, 20, 15, 30, 40] {
        count += l.update(vec![job("w", Some("SUCCESS"), ts, 1)], &cfg).len();
    }
    // 10->20, 15->30, 30->40
    assert_eq!(count, 3);
}

#[test]
fn running_build_does_not_evict_or_announce() {
    let cfg = config();
    let mut l = JListener::new();
    l.update(vec![job("w", Some("SUCCESS"), 10, 1)], &cfg);
    assert!(l.update(vec![job("w", None, 20, 2)], &cfg).is_empty());
    assert_eq!(l.update(vec![job("w", Some("SUCCESS"), 30, 3)], &cfg).len(), 1);
}

#[test]
fn vanished_job_is_forgotten() {
    let cfg = config();
    let mut l = JListener::new();
    l.update(vec![job("w", Some("SUCCESS"), 10, 1)], &cfg);
    l.update(vec![], &cfg);
    assert!(l.update(vec![job("w", Some("SUCCESS"), 30, 3)], &cfg).is_empty());
}

#[test]
fn failed_request_changes_nothing() {
    let cfg = config();
    let mut l = JListener::new();
    l.update(vec![job("w", Some("SUCCESS"), 10, 1)], &cfg);
    assert!(l.handle_response(Err("timeout".to_string()), &cfg).is_empty());
    assert_eq!(l.handle_response(Ok(vec![job("w", Some("SUCCESS"), 11, 2)]), &cfg).len(), 1);
}

#[test]
fn cache_insert_returns_previous() {
    let mut c = Cache::new();
    let s = "srv".to_string();
    let n = Name("job".to_string());
    assert_eq!(c.insert(&s, &n, &Timestamp(5)), None);
    assert_eq!(c.insert(&s, &n, &Timestamp(3)), Some(Timestamp(5)));
    assert_eq!(c.insert(&s, &n, &Timestamp(3)), Some(Timestamp(3)));
    assert_eq!(c.insert(&"other".to_string(), &n, &Timestamp(1)), None);
}

#[test]
fn keep_zero() {
    let mut c = Cache::new();
    let s = "srv".to_string();
    let o = "other".to_string();
    c.insert(&s, &Name("a".to_string()), &Timestamp(1));
    c.insert(&s, &Name("b".to_string()), &Timestamp(1));
    c.insert(&o, &Name("a".to_string()), &Timestamp(7));
    c.prune_except(&s, &Vec::new());
    assert_eq!(c.insert(&s, &Name("a".to_string()), &Timestamp(2)), None);
    assert_eq!(c.insert(&s, &Name("b".to_string()), &Timestamp(2)), None);
    assert_eq!(c.insert(&o, &Name("a".to_string()), &Timestamp(8)), Some(Timestamp(7)));
}

#[test]
fn keep_one() {
    let mut c = Cache::new();
    let s = "srv".to_string();
    let a = Name("a".to_string());
    c.insert(&s, &a, &Timestamp(1));
    c.insert(&s, &Name("b".to_string()), &Timestamp(1));
    c.prune_except(&s, &vec![&a]);
    assert_eq!(c.insert(&s, &a, &Timestamp(2)), Some(Timestamp(1)));
    assert_eq!(c.insert(&s, &Name("b".to_string()), &Timestamp(2)), None);
}

#[test]
fn prune_twice_keeps_intersection() {
    let mut c = Cache::new();
    let s = "srv".to_string();
    let (a, b, d) = (Name("a".to_string()), Name("b".to_string()), Name("d".to_string()));
    for n in [&a, &b, &d] {
        c.insert(&s, n, &Timestamp(1));
    }
    c.prune_except(&s, &vec![&a, &b]);
    c.prune_except(&s, &vec![&b, &d]);
    assert_eq!(c.insert(&s, &a, &Timestamp(2)), None);
    assert_eq!(c.insert(&s, &b, &Timestamp(2)), Some(Timestamp(1)));
    assert_eq!(c.insert(&s, &d, &Timestamp(2)), None);
}
