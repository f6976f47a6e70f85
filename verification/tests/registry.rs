use hwcli::job::{Job, Links};
use hwcli::layout::PREFIX;
use hwcli::registry::{Entry, Sighting, TOP_N};
use hwcli::path::AbsPath;

fn abs(text: &str) -> AbsPath {
    AbsPath::parse(text).expect("a normalized absolute path")
}

fn entry(name: &str, owner: Option<u32>, created: i64) -> Entry {
    Entry { name: name.to_string(), owner, created }
}

fn job(dir: &str, timestamp: i64) -> Job {
    Job { timestamp, dir: abs(dir) }
}

fn seen(dir: &str, timestamp: i64, reference: Option<&str>) -> Sighting {
    Sighting {
        job: job(dir, timestamp),
        links: Links { reference: reference.map(|t| t.to_string()), playbook: None },
    }
}

fn dirs(jobs: &Vec<Job>) -> Vec<String> {
    jobs.iter().map(|j| j.dir.to_text()).collect()
}

fn stamps(jobs: &Vec<Job>) -> Vec<i64> {
    jobs.iter().map(|j| j.timestamp).collect()
}

#[test]
fn the_prefix_and_the_default_number_are_fixed() {
    assert_eq!(PREFIX, "hotwings-");
    assert_eq!(TOP_N, 10);
}

#[test]
fn owned_of_an_empty_directory_is_empty() {
    assert!(Job::owned(&abs("/tmp"), &vec![], 1000).is_empty());
}

#[test]
fn owned_keeps_names_with_the_prefix() {
    let entries = vec![
        entry("hotwings-aaaaaa", Some(7), 10),
        entry("systemd-private", Some(7), 11),
        entry("hotwings", Some(7), 12),
        entry("xhotwings-bbbbbb", Some(7), 13),
        entry("hotwings-", Some(7), 14),
        entry("Hotwings-cccccc", Some(7), 15),
    ];
    let jobs = Job::owned(&abs("/tmp"), &entries, 7);
    assert_eq!(dirs(&jobs), vec!["/tmp/hotwings-aaaaaa", "/tmp/hotwings-"]);
    assert_eq!(stamps(&jobs), vec![10, 14]);
}

#[test]
fn owned_keeps_what_the_user_owns() {
    let entries = vec![
        entry("hotwings-mine01", Some(1000), 1),
        entry("hotwings-yours1", Some(1001), 2),
        entry("hotwings-mine02", Some(1000), 3),
        entry("hotwings-root01", Some(0), 4),
    ];
    let mine = Job::owned(&abs("/tmp"), &entries, 1000);
    assert_eq!(dirs(&mine), vec!["/tmp/hotwings-mine01", "/tmp/hotwings-mine02"]);
    let yours = Job::owned(&abs("/tmp"), &entries, 1001);
    assert_eq!(dirs(&yours), vec!["/tmp/hotwings-yours1"]);
    let nobody = Job::owned(&abs("/tmp"), &entries, 4242);
    assert!(nobody.is_empty());
}

#[test]
fn owned_leaves_out_an_entry_without_metadata() {
    let entries = vec![entry("hotwings-aaaaaa", None, 1), entry("hotwings-bbbbbb", Some(5), 2)];
    let jobs = Job::owned(&abs("/tmp"), &entries, 5);
    assert_eq!(dirs(&jobs), vec!["/tmp/hotwings-bbbbbb"]);
}

#[test]
fn owned_leaves_out_a_name_that_is_no_segment() {
    let entries = vec![entry("hotwings-a/b", Some(5), 1), entry("hotwings-ab", Some(5), 2)];
    let jobs = Job::owned(&abs("/tmp"), &entries, 5);
    assert_eq!(dirs(&jobs), vec!["/tmp/hotwings-ab"]);
}

#[test]
fn owned_keeps_the_order_of_the_entries() {
    let entries = vec![
        entry("hotwings-cccccc", Some(5), 30),
        entry("hotwings-aaaaaa", Some(5), 10),
        entry("hotwings-bbbbbb", Some(5), 20),
    ];
    let jobs = Job::owned(&abs("/staging/area"), &entries, 5);
    assert_eq!(
        dirs(&jobs),
        vec![
            "/staging/area/hotwings-cccccc",
            "/staging/area/hotwings-aaaaaa",
            "/staging/area/hotwings-bbbbbb"
        ]
    );
    assert_eq!(stamps(&jobs), vec![30, 10, 20]);
}

#[test]
fn owned_under_the_root_has_one_separator() {
    let jobs = Job::owned(&abs("/"), &vec![entry("hotwings-aaaaaa", Some(5), 1)], 5);
    assert_eq!(dirs(&jobs), vec!["/hotwings-aaaaaa"]);
}

#[test]
fn list_of_an_empty_directory_is_empty() {
    assert!(Job::list(&abs("/tmp"), &vec![]).is_empty());
}

#[test]
fn list_shows_the_workspaces_of_the_caller_only() {
    let me = nix::unistd::Uid::current().as_raw();
    let other = me.wrapping_add(1);
    let entries = vec![
        entry("hotwings-mine01", Some(me), 1),
        entry("hotwings-other1", Some(other), 2),
        entry("hotwings-mine02", Some(me), 3),
        entry("hotwings-nometa", None, 4),
        entry("unrelated", Some(me), 5),
    ];
    let jobs = Job::list(&abs("/tmp"), &entries);
    assert_eq!(dirs(&jobs), vec!["/tmp/hotwings-mine01", "/tmp/hotwings-mine02"]);
    assert_eq!(stamps(&jobs), vec![1, 3]);
}

#[test]
fn list_agrees_with_owned_for_the_caller() {
    let me = nix::unistd::Uid::current().as_raw();
    let entries = vec![
        entry("hotwings-aaaaaa", Some(me), 1),
        entry("hotwings-bbbbbb", Some(me.wrapping_add(7)), 2),
    ];
    assert_eq!(Job::list(&abs("/tmp"), &entries), Job::owned(&abs("/tmp"), &entries, me));
}

#[test]
fn newest_first_orders_by_time_of_creation() {
    let jobs = vec![job("/tmp/hotwings-t1", 100), job("/tmp/hotwings-t2", 200), job("/tmp/hotwings-t3", 300)];
    let ordered = Job::newest_first(jobs);
    assert_eq!(dirs(&ordered), vec!["/tmp/hotwings-t3", "/tmp/hotwings-t2", "/tmp/hotwings-t1"]);
    assert_eq!(stamps(&ordered), vec![300, 200, 100]);
}

#[test]
fn newest_first_orders_any_arrangement() {
    let jobs = vec![
        job("/tmp/hotwings-b", 20),
        job("/tmp/hotwings-e", 50),
        job("/tmp/hotwings-a", 10),
        job("/tmp/hotwings-d", 40),
        job("/tmp/hotwings-c", 30),
    ];
    let ordered = Job::newest_first(jobs);
    assert_eq!(stamps(&ordered), vec![50, 40, 30, 20, 10]);
    assert_eq!(
        dirs(&ordered),
        vec!["/tmp/hotwings-e", "/tmp/hotwings-d", "/tmp/hotwings-c", "/tmp/hotwings-b", "/tmp/hotwings-a"]
    );
}

#[test]
fn newest_first_keeps_the_order_of_equal_times() {
    let jobs = vec![
        job("/tmp/hotwings-first", 5),
        job("/tmp/hotwings-new", 9),
        job("/tmp/hotwings-second", 5),
        job("/tmp/hotwings-third", 5),
    ];
    let ordered = Job::newest_first(jobs);
    assert_eq!(
        dirs(&ordered),
        vec!["/tmp/hotwings-new", "/tmp/hotwings-first", "/tmp/hotwings-second", "/tmp/hotwings-third"]
    );
}

#[test]
fn newest_first_takes_times_before_the_epoch_and_extremes() {
    let jobs = vec![
        job("/tmp/hotwings-min", i64::MIN),
        job("/tmp/hotwings-max", i64::MAX),
        job("/tmp/hotwings-neg", -1),
        job("/tmp/hotwings-zero", 0),
    ];
    assert_eq!(stamps(&Job::newest_first(jobs)), vec![i64::MAX, 0, -1, i64::MIN]);
}

#[test]
fn newest_first_of_nothing_is_nothing() {
    assert!(Job::newest_first(vec![]).is_empty());
}

#[test]
fn top_two_of_three_are_the_two_newest() {
    let jobs = vec![job("/tmp/hotwings-t1", 100), job("/tmp/hotwings-t2", 200), job("/tmp/hotwings-t3", 300)];
    let ordered = Job::top(jobs, 2);
    assert_eq!(dirs(&ordered), vec!["/tmp/hotwings-t3", "/tmp/hotwings-t2"]);
}

#[test]
fn top_shows_all_where_there_are_fewer() {
    let jobs = vec![job("/tmp/hotwings-t2", 200), job("/tmp/hotwings-t3", 300)];
    assert_eq!(stamps(&Job::top(jobs.clone(), 10)), vec![300, 200]);
    assert_eq!(stamps(&Job::top(jobs.clone(), 2)), vec![300, 200]);
    assert_eq!(stamps(&Job::top(jobs, usize::MAX)), vec![300, 200]);
}

#[test]
fn top_zero_shows_nothing() {
    assert!(Job::top(vec![job("/tmp/hotwings-t1", 1)], 0).is_empty());
    assert!(Job::top(vec![], 0).is_empty());
}

#[test]
fn top_cuts_a_long_listing_at_the_default_number() {
    let mut jobs = Vec::new();
    for t in 0..25 {
        jobs.push(job("/tmp/hotwings-x", t));
    }
    let ordered = Job::top(jobs, TOP_N);
    assert_eq!(stamps(&ordered), vec![24, 23, 22, 21, 20, 19, 18, 17, 16, 15]);
}

#[test]
fn matching_keeps_the_jobs_of_exactly_this_directory() {
    let sightings = vec![
        seen("/tmp/hotwings-a", 1, Some("/home/u/proj")),
        seen("/tmp/hotwings-b", 2, Some("/home/u/other")),
        seen("/tmp/hotwings-c", 3, Some("/home/u/proj")),
    ];
    let jobs = Job::matching(&abs("/home/u/proj"), &sightings);
    assert_eq!(dirs(&jobs), vec!["/tmp/hotwings-c", "/tmp/hotwings-a"]);
}

#[test]
fn matching_from_below_the_reference_directory_finds_nothing() {
    let sightings = vec![seen("/tmp/hotwings-a", 1, Some("/home/u/proj"))];
    assert!(Job::matching(&abs("/home/u/proj/sub"), &sightings).is_empty());
}

#[test]
fn matching_from_above_the_reference_directory_finds_nothing() {
    let sightings = vec![seen("/tmp/hotwings-a", 1, Some("/home/u/proj"))];
    assert!(Job::matching(&abs("/home/u"), &sightings).is_empty());
    assert!(Job::matching(&abs("/"), &sightings).is_empty());
}

#[test]
fn matching_does_not_take_a_name_that_only_begins_alike() {
    let sightings = vec![seen("/tmp/hotwings-a", 1, Some("/home/u/project"))];
    assert!(Job::matching(&abs("/home/u/proj"), &sightings).is_empty());
}

#[test]
fn matching_leaves_out_what_did_not_resolve() {
    let sightings = vec![
        seen("/tmp/hotwings-a", 1, None),
        seen("/tmp/hotwings-b", 2, Some("not/normalized")),
        seen("/tmp/hotwings-c", 3, Some("/home/u/proj/")),
        seen("/tmp/hotwings-d", 4, Some("/home/u/proj")),
    ];
    let jobs = Job::matching(&abs("/home/u/proj"), &sightings);
    assert_eq!(dirs(&jobs), vec!["/tmp/hotwings-d"]);
}

#[test]
fn matching_of_one_workspace_reports_one_job_and_its_file() {
    let links = Links {
        reference: Some("/home/u/proj".to_string()),
        playbook: Some("/home/u/proj/jobs/run.yml".to_string()),
    };
    let sightings = vec![Sighting { job: job("/tmp/hotwings-a", 1), links: links.clone() }];
    let jobs = Job::matching(&abs("/home/u/proj"), &sightings);
    assert_eq!(jobs.len(), 1);
    let file = jobs[0].playbook(&links).expect("a resolved workspace");
    assert_eq!(file.to_text(), "jobs/run.yml");
}

#[test]
fn matching_of_nothing_is_nothing() {
    assert!(Job::matching(&abs("/home/u/proj"), &vec![]).is_empty());
}

#[test]
fn matching_at_the_root() {
    let sightings = vec![seen("/tmp/hotwings-a", 1, Some("/")), seen("/tmp/hotwings-b", 2, Some("/a"))];
    assert_eq!(dirs(&Job::matching(&abs("/"), &sightings)), vec!["/tmp/hotwings-a"]);
}
