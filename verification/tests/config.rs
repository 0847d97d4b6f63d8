use http_proxy::clock::LocalTime;
use http_proxy::config::{Config, Rule, User};
use http_proxy::crontab::{Crontab, ParseError};

const NOON: LocalTime = LocalTime { minute: 0, hour: 12, day_of_month: 1, month: 6, day_of_week: 1 };

fn user(username: &str, password: &str) -> User {
    User { username: username.to_string(), password: password.to_string() }
}

fn rule(timespec: &str, regex: &str) -> Rule {
    Rule { timespec: timespec.to_string(), regex: regex.to_string() }
}

fn config(default_allow: Option<bool>, allowed: Vec<Rule>, blocked: Vec<Rule>) -> Config {
    Config { bind_addr: None, bind_port: None, users: vec![], default_allow, allowed, blocked }
}

#[test]
fn defaults() {
    let config = config(None, vec![], vec![]);
    assert_eq!(config.get_bind_address(), "0.0.0.0");
    assert_eq!(config.get_bind_port(), 3000);
    assert!(!config.get_default_allow());
    assert!(config.get_users().is_empty());
}

#[test]
fn configured_values() {
    let config = Config {
        bind_addr: Some("127.0.0.1".to_string()),
        bind_port: Some(8100),
        users: vec![user("a", "b")],
        default_allow: Some(true),
        allowed: vec![],
        blocked: vec![],
    };
    assert_eq!(config.get_bind_address(), "127.0.0.1");
    assert_eq!(config.get_bind_port(), 8100);
    assert!(config.get_default_allow());
    assert_eq!(config.get_users().len(), 1);
    assert_eq!(config.get_users()[0].clone().username, "a");
}

#[test]
fn anybody_is_admitted_without_users() {
    assert!(config(None, vec![], vec![]).authenticate_user("who", "ever"));
}

#[test]
fn users_need_their_own_password() {
    let mut config = config(None, vec![], vec![]);
    config.users = vec![user("ann", "one"), user("bob", "two")];
    assert!(config.authenticate_user("ann", "one"));
    assert!(config.authenticate_user("bob", "two"));
    assert!(!config.authenticate_user("ann", "two"));
    assert!(!config.authenticate_user("carl", "one"));
    assert!(!config.authenticate_user("", ""));
    assert!(!config.authenticate_user("Ann", "one"));
}

#[test]
fn a_rule_needs_both_time_and_host() {
    assert_eq!(Config::match_host_against_rule_at("example.com:443", &rule("* 12 * * *", "^example"), &NOON), Some(true));
    assert_eq!(Config::match_host_against_rule_at("example.com:443", &rule("* 13 * * *", "^example"), &NOON), Some(false));
    assert_eq!(Config::match_host_against_rule_at("example.com:443", &rule("* 12 * * *", "^xample"), &NOON), Some(false));
    assert_eq!(Config::match_host_against_rule_at("example.com:443", &rule("* 12 * * *", "xample"), &NOON), Some(true));
}

#[test]
fn malformed_rules_match_nothing() {
    assert_eq!(Config::match_host_against_rule_at("host", &rule("bad", ".*"), &NOON), Some(false));
    assert_eq!(Config::match_host_against_rule_at("host", &rule("* * * * *", "("), &NOON), Some(false));
    assert_eq!(Config::match_host_against_rule("host", &rule("* * * * *", "(")), Some(false));
    assert_eq!(Config::match_host_against_rule("host", &rule("* * * * *", ".*")), Some(true));
}

#[test]
fn blocked_hosts_are_exceptions_from_an_open_proxy() {
    let config = config(Some(true), vec![], vec![rule("* * * * *", "bad\\.com")]);
    assert!(config.check_access("good.com:80"));
    assert!(!config.check_access("bad.com:80"));
    assert_eq!(config.checked_access("bad.com:80"), Some(false));
    assert_eq!(config.check_access_at("good.com:80", &vec![NOON]), Some(true));
}

#[test]
fn allowed_hosts_are_exceptions_from_a_shut_proxy() {
    for default_allow in [None, Some(false)] {
        let config = config(default_allow, vec![rule("* * * * *", "good\\.com")], vec![rule("* * * * *", ".")]);
        assert!(config.check_access("good.com:80"));
        assert!(!config.check_access("bad.com:80"));
    }
}

#[test]
fn without_exceptions_the_default_decides() {
    assert!(config(Some(true), vec![rule("* * * * *", ".")], vec![]).check_access("host:1"));
    assert!(!config(Some(false), vec![], vec![rule("* * * * *", ".")]).check_access("host:1"));
}

#[test]
fn the_same_rules_are_dual_under_the_two_defaults() {
    let rules = vec![rule("* 12 * * *", "a"), rule("* 13 * * *", "b")];
    let open = config(Some(true), vec![], rules.clone());
    let shut = config(Some(false), rules, vec![]);
    for host in ["a", "b", "ab", "c"] {
        let times = vec![NOON, NOON];
        assert_eq!(
            open.check_access_at(host, &times).map(|access| !access),
            shut.check_access_at(host, &times),
        );
    }
}

#[test]
fn each_rule_is_held_against_its_own_reading() {
    let shut = config(None, vec![rule("* 12 * * *", "x"), rule("* 13 * * *", "a")], vec![]);
    let later = LocalTime { hour: 13, ..NOON };
    assert_eq!(shut.check_access_at("a", &vec![NOON, later]), Some(true));
    assert_eq!(shut.check_access_at("a", &vec![later, NOON]), Some(false));
}

#[test]
fn a_step_of_zero_matters_only_when_it_is_come_to() {
    let broken = rule("*/0 * * * *", ".");
    assert_eq!(Config::match_host_against_rule("host", &broken), None);
    assert_eq!(Config::match_host_against_rule_at("host", &broken, &NOON), None);
    let first = config(None, vec![broken.clone(), rule("* * * * *", ".")], vec![]);
    assert_eq!(first.checked_access("host"), None);
    assert_eq!(first.check_access_at("host", &vec![NOON, NOON]), None);
    let second = config(None, vec![rule("* * * * *", "host"), broken], vec![]);
    assert_eq!(second.checked_access("host"), Some(true));
    assert!(second.check_access("host"));
    assert_eq!(second.checked_access("other"), None);
}

#[test]
fn one_more_exception_keeps_the_others() {
    let fewer = config(Some(true), vec![], vec![rule("* * * * *", "a")]);
    let more = config(Some(true), vec![], vec![rule("* * * * *", "a"), rule("* * * * *", "b")]);
    assert!(!fewer.check_access("a"));
    assert!(!more.check_access("a"));
    assert!(fewer.check_access("b"));
    assert!(!more.check_access("b"));
}

#[test]
fn a_rule_needs_a_schedule_and_a_find() {
    let always = || Crontab::new("* * * * *");
    let at_one = || Crontab::new("* 1 * * *");
    let refused = || Err(ParseError::InvalidFormat(String::new()));
    assert!(Config::rule_applies(&always(), &NOON, &Ok(true)));
    assert!(!Config::rule_applies(&always(), &NOON, &Ok(false)));
    assert!(!Config::rule_applies(&at_one(), &NOON, &Ok(true)));
    assert!(!Config::rule_applies(&refused(), &NOON, &Ok(true)));
    assert!(!Config::rule_applies(&always(), &NOON, &Err(regex::Error::Syntax(String::new()))));
}

#[test]
fn an_exception_reverses_the_default() {
    let open = config(Some(true), vec![], vec![]);
    let shut = config(None, vec![], vec![]);
    assert!(!open.decide_access(true));
    assert!(open.decide_access(false));
    assert!(shut.decide_access(true));
    assert!(!shut.decide_access(false));
}

#[test]
fn rules_with_and_without_steps_are_held_against_a_host() {
    let shut = config(None, vec![rule("*/1 * * * *", "a"), rule("9-3/0 * * * *", "b")], vec![]);
    assert_eq!(shut.checked_access("a"), Some(true));
    assert_eq!(shut.checked_access("b"), Some(false));
}
