use hwcli::error::{ConfigFault, Error};
use hwcli::remote::{Change, Config, Remote, CONFIG};

fn remote(name: &str, url: &str, default: bool) -> Remote {
    Remote { name: name.to_string(), url: url.to_string(), default }
}

fn config(remotes: Vec<Remote>) -> Config {
    Config { remotes: Some(remotes) }
}

#[test]
fn the_configuration_file_has_its_name() {
    assert_eq!(CONFIG, ".hwclirc");
}

#[test]
fn default_is_the_one_remote_marked() {
    let c = config(vec![
        remote("a", "http://a", false),
        remote("b", "http://b", true),
        remote("c", "http://c", false),
    ]);
    assert_eq!(Remote::default(&c), Some(remote("b", "http://b", true)));
}

#[test]
fn default_is_missing_where_none_is_marked() {
    let c = config(vec![remote("a", "http://a", false), remote("b", "http://b", false)]);
    assert_eq!(Remote::default(&c), None);
}

#[test]
fn default_is_missing_where_several_are_marked() {
    let c = config(vec![
        remote("a", "http://a", true),
        remote("b", "http://b", false),
        remote("c", "http://c", true),
    ]);
    assert_eq!(Remote::default(&c), None);
}

#[test]
fn default_is_missing_without_remotes() {
    assert_eq!(Remote::default(&Config { remotes: None }), None);
    assert_eq!(Remote::default(&config(vec![])), None);
}

#[test]
fn label_shows_name_and_location() {
    assert_eq!(remote("origin", "http://h/up", true).label(), "origin = http://h/up");
    assert_eq!(remote("", "", false).label(), " = ");
}

#[test]
fn lookup_finds_the_one_remote_of_a_name() {
    let c = config(vec![remote("a", "http://a", false), remote("b", "http://b", true)]);
    assert_eq!(c.lookup("a"), Ok("http://a".to_string()));
    assert_eq!(c.lookup("b"), Ok("http://b".to_string()));
}

#[test]
fn lookup_reports_an_unknown_name_as_undefined() {
    let c = config(vec![remote("a", "http://a", false)]);
    assert_eq!(c.lookup("b"), Err(Error::Config(ConfigFault::Undefined)));
    assert_eq!(c.lookup("A"), Err(Error::Config(ConfigFault::Undefined)));
    assert_eq!(config(vec![]).lookup("a"), Err(Error::Config(ConfigFault::Undefined)));
    assert_eq!(
        Config { remotes: None }.lookup("a"),
        Err(Error::Config(ConfigFault::Undefined))
    );
}

#[test]
fn lookup_reports_a_name_used_twice_as_duplicate() {
    let c = config(vec![
        remote("a", "http://first", false),
        remote("b", "http://b", false),
        remote("a", "http://second", false),
    ]);
    assert_eq!(c.lookup("a"), Err(Error::Config(ConfigFault::Duplicate)));
    assert_eq!(c.lookup("b"), Ok("http://b".to_string()));
}

#[test]
fn set_moves_the_remote_of_that_name() {
    let mut c = config(vec![remote("a", "http://a", true), remote("b", "http://b", false)]);
    assert_eq!(c.set("a", "http://new"), Ok(Change::Updated));
    assert_eq!(
        c,
        config(vec![remote("a", "http://new", true), remote("b", "http://b", false)])
    );
    assert_eq!(c.set("b", "http://other"), Ok(Change::Updated));
    assert_eq!(
        c,
        config(vec![remote("a", "http://new", true), remote("b", "http://other", false)])
    );
}

#[test]
fn set_adds_a_new_remote_at_the_end() {
    let mut c = config(vec![remote("a", "http://a", true)]);
    assert_eq!(c.set("b", "http://b"), Ok(Change::Added));
    assert_eq!(c, config(vec![remote("a", "http://a", true), remote("b", "http://b", false)]));
}

#[test]
fn set_starts_the_list_where_there_was_none() {
    let mut c = Config { remotes: None };
    assert_eq!(c.set("a", "http://a"), Ok(Change::Added));
    assert_eq!(c, config(vec![remote("a", "http://a", false)]));
    assert_eq!(c.lookup("a"), Ok("http://a".to_string()));
}

#[test]
fn set_refuses_a_duplicate_and_changes_nothing() {
    let before = config(vec![remote("a", "http://1", false), remote("a", "http://2", true)]);
    let mut c = before.clone();
    assert_eq!(c.set("a", "http://new"), Err(Error::Config(ConfigFault::Duplicate)));
    assert_eq!(c, before);
}

#[test]
fn set_then_lookup_gives_the_new_location() {
    let mut c = config(vec![remote("a", "http://a", false), remote("b", "http://b", false)]);
    assert_eq!(c.set("b", "http://moved"), Ok(Change::Updated));
    assert_eq!(c.lookup("b"), Ok("http://moved".to_string()));
    assert_eq!(c.lookup("a"), Ok("http://a".to_string()));
}

#[test]
fn clone_of_a_remote_is_equal() {
    let r = remote("a", "http://a", true);
    assert_eq!(r.clone(), r);
}
