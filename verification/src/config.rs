//! The configuration: where to listen, who may use the proxy, and which hosts may be reached.
use crate::clock::{local_now, LocalTime};
use crate::crontab::{Crontab, ParseError};
use crate::pattern::{regex_compiles, regex_finds, regex_is_match};
use crate::text::{find_char, text_words, white_space};
use crate::timespec::{
    field_failure, field_selects, law_first_failing_field, law_no_slash_no_zero_step, law_time_in_five_fields,
    law_time_in_schedule, one_word, timespec_failure, timespec_schedule, zero_step, Failure,
};
use vstd::pervasive::unreached;
use vstd::prelude::*;

verus! {

/// Somebody who may use the proxy.
#[derive(Debug)]
pub struct User {
    pub username: String,
    pub password: String,
}

impl Clone for User {
    fn clone(&self) -> (copy: User)
        ensures
            copy == *self,
    {
        User { username: self.username.clone(), password: self.password.clone() }
    }
}

/// A set of hosts, at certain times.
#[derive(Debug)]
pub struct Rule {
    /// When the rule applies; see [`Crontab::new`].
    pub timespec: String,
    /// A regular expression that is searched for in the address of a host.
    pub regex: String,
}

impl Clone for Rule {
    fn clone(&self) -> (copy: Rule)
        ensures
            copy == *self,
    {
        Rule { timespec: self.timespec.clone(), regex: self.regex.clone() }
    }
}

/// The configuration of a proxy.
#[derive(Debug)]
pub struct Config {
    pub bind_addr: Option<String>,
    pub bind_port: Option<u16>,
    pub users: Vec<User>,
    pub default_allow: Option<bool>,
    pub allowed: Vec<Rule>,
    pub blocked: Vec<Rule>,
}

/// Whether a user is listed with this name and this password.
pub open spec fn listed(users: Seq<User>, username: Seq<char>, password: Seq<char>) -> bool {
    exists|i: int|
        0 <= i < users.len() && (#[trigger] users[i]).username@ == username && users[i].password@
            == password
}

/// Whether the rule applies at the time `now` and its regular expression is found in `host`. A rule
/// with a malformed time specification or regular expression matches nothing.
#[verifier::opaque]
pub open spec fn rule_matches(rule: Rule, host: Seq<char>, now: LocalTime) -> bool {
    &&& timespec_failure(rule.timespec@) is None
    &&& timespec_schedule(rule.timespec@).includes_time(now)
    &&& regex_compiles(rule.regex@)
    &&& regex_finds(rule.regex@, host)
}

/// Whether the rule matches, if that can be told: not if its time specification divides by zero.
pub open spec fn rule_outcome(rule: Rule, host: Seq<char>, now: LocalTime) -> Option<bool> {
    if zero_step(rule.timespec@) {
        None
    } else {
        Some(rule_matches(rule, host, now))
    }
}

/// Whether `times` can be what the clock reads for each of `count` rules.
pub open spec fn readings(times: Seq<LocalTime>, count: nat) -> bool {
    times.len() == count && forall|i: int| 0 <= i < count ==> (#[trigger] times[i]).valid()
}

/// Whether a rule matches, where the rules are tried in order and the clock reads `times[i]` when
/// it comes to rule `i`. There is no answer if a rule whose time specification divides by zero is
/// come to before a rule that matches.
pub open spec fn rules_outcome(rules: Seq<Rule>, host: Seq<char>, times: Seq<LocalTime>) -> Option<bool>
    decreases rules.len(),
{
    if rules.len() == 0 {
        Some(false)
    } else {
        match rules_outcome(rules.drop_last(), host, times.drop_last()) {
            Some(false) => rule_outcome(rules.last(), host, times.last()),
            decided => decided,
        }
    }
}

impl Config {
    /// Whether a host is allowed where no rule says otherwise.
    pub open spec fn allows_by_default(&self) -> bool {
        self.default_allow == Some(true)
    }

    /// The rules that decide on access: the exceptions from the default.
    pub open spec fn exceptions(&self) -> Seq<Rule> {
        if self.allows_by_default() {
            self.blocked@
        } else {
            self.allowed@
        }
    }

    /// Whether `host` may be reached, where the clock reads `times[i]` when it comes to exception
    /// `i`. There is no answer where [`rules_outcome`] has none.
    pub open spec fn access_outcome(&self, host: Seq<char>, times: Seq<LocalTime>) -> Option<bool> {
        match rules_outcome(self.exceptions(), host, times) {
            Some(matched) => Some(matched != self.allows_by_default()),
            None => None,
        }
    }

    /// Whether somebody may use the proxy under this name with this password: anybody if there are
    /// no users, and otherwise the users alone.
    pub open spec fn admits(&self, username: Seq<char>, password: Seq<char>) -> bool {
        self.users@.len() == 0 || listed(self.users@, username, password)
    }

    /// The address to listen on.
    pub fn get_bind_address(&self) -> (address: String)
        ensures
            address@ == (match self.bind_addr {
                Some(configured) => configured@,
                None => "0.0.0.0"@,
            }),
    {
        match &self.bind_addr {
            Some(configured) => configured.clone(),
            None => "0.0.0.0".to_string(),
        }
    }

    /// The port to listen on.
    pub fn get_bind_port(&self) -> (port: u16)
        ensures
            port == (match self.bind_port {
                Some(configured) => configured,
                None => 3000,
            }),
    {
        self.bind_port.unwrap_or(3000)
    }

    /// The users.
    pub fn get_users(&self) -> (users: &Vec<User>)
        ensures
            *users == self.users,
    {
        &self.users
    }

    /// Tells whether a host is allowed where no rule says otherwise.
    pub fn get_default_allow(&self) -> (allow: bool)
        ensures
            allow == self.allows_by_default(),
            allow == (self.default_allow == Some(true)),
    {
        self.default_allow.unwrap_or(false)
    }

    /// Tells whether somebody may use the proxy under this name with this password.
    pub fn authenticate_user(&self, user: &str, password: &str) -> (admitted: bool)
        ensures
            admitted == self.admits(user@, password@),
            admitted == (self.users@.len() == 0 || exists|i: int|
                0 <= i < self.users@.len() && (#[trigger] self.users@[i]).username@ == user@
                    && self.users@[i].password@ == password@),
    {
        if self.users.is_empty() {
            return true;
        }
        let users = self.get_users();
        let wanted_name = user.to_string();
        let wanted_password = password.to_string();
        let mut i: usize = 0;
        while i < users.len()
            invariant
                users@ == self.users@,
                users@.len() > 0,
                wanted_name@ == user@,
                wanted_password@ == password@,
                i <= users@.len(),
                forall|k: int|
                    0 <= k < i ==> !((#[trigger] users@[k]).username@ == user@ && users@[k].password@
                        == password@),
            decreases users@.len() - i,
        {
            if users[i].username == wanted_name && users[i].password == wanted_password {
                return true;
            }
            i += 1;
        }
        false
    }

    /// Tells whether a rule matches, given what became of its time specification and what the
    /// search for its regular expression in the host found.
    pub fn rule_applies(
        crontab: &Result<Crontab, ParseError>,
        now: &LocalTime,
        found: &Result<bool, regex::Error>,
    ) -> (matched: bool)
        ensures
            matched <==> {
                &&& crontab matches Ok(schedule) && schedule@.includes_time(*now)
                &&& found matches Ok(hit) && *hit
            },
            matched <==> {
                &&& crontab matches Ok(schedule) && schedule@.minutes.contains(now.minute as int)
                    && schedule@.hours.contains(now.hour as int) && schedule@.days_of_month.contains(
                    now.day_of_month as int,
                ) && schedule@.months.contains(now.month as int) && schedule@.days_of_week.contains(
                    now.day_of_week as int,
                )
                &&& found matches Ok(hit) && *hit
            },
    {
        let time_matched = match crontab {
            Ok(crontab) => crontab.is_match_at(now),
            Err(_) => false,
        };
        let regex_matched = match found {
            Ok(found) => *found,
            Err(_) => false,
        };
        time_matched && regex_matched
    }

    /// Tells whether a rule matches a host at a given time.
    pub fn match_host_against_rule_at(host: &str, rule: &Rule, now: &LocalTime) -> (matched: Option<bool>)
        ensures
            matched == rule_outcome(*rule, host@, *now),
            matched is None <==> timespec_failure(rule.timespec@) == Some(Failure::ZeroStep),
            matched matches Some(hit) ==> (hit <==> {
                &&& timespec_failure(rule.timespec@) is None
                &&& field_selects(text_words(rule.timespec@)[0], 0, 60, now.minute as int)
                &&& field_selects(text_words(rule.timespec@)[1], 0, 24, now.hour as int)
                &&& field_selects(text_words(rule.timespec@)[2], 1, 32, now.day_of_month as int)
                &&& field_selects(text_words(rule.timespec@)[3], 1, 13, now.month as int)
                &&& field_selects(text_words(rule.timespec@)[4], 0, 7, now.day_of_week as int)
                &&& regex_compiles(rule.regex@)
                &&& regex_finds(rule.regex@, host@)
            }),
    {
        match Crontab::checked_new(&rule.timespec) {
            Some(crontab) => {
                reveal(rule_matches);
                let found = regex_is_match(&rule.regex, host);
                Some(Config::rule_applies(&crontab, now, &found))
            },
            None => None,
        }
    }

    /// Tells whether a rule matches a host now.
    pub fn match_host_against_rule(host: &str, rule: &Rule) -> (matched: Option<bool>)
        ensures
            exists|now: LocalTime| now.valid() && matched == rule_outcome(*rule, host@, now),
    {
        let now = local_now();
        Config::match_host_against_rule_at(host, rule, &now)
    }

    /// Tells whether one of the rules matches a host, where rule `i` is held against `times[i]`.
    pub fn match_host_against_rules_at(host: &str, rules: &Vec<Rule>, times: &Vec<LocalTime>) -> (matched:
        Option<bool>)
        requires
            times@.len() == rules@.len(),
        ensures
            matched == rules_outcome(rules@, host@, times@),
    {
        let mut i: usize = 0;
        while i < rules.len()
            invariant
                times@.len() == rules@.len(),
                i <= rules@.len(),
                rules_outcome(rules@.take(i as int), host@, times@.take(i as int)) == Some(false),
            decreases rules@.len() - i,
        {
            proof {
                assert(rules@.take(i + 1).drop_last() =~= rules@.take(i as int));
                assert(times@.take(i + 1).drop_last() =~= times@.take(i as int));
            }
            match Config::match_host_against_rule_at(host, &rules[i], &times[i]) {
                Some(false) => {},
                decided => {
                    proof {
                        lemma_decided(rules@, host@, times@, i + 1);
                    }
                    return decided;
                },
            }
            i += 1;
        }
        proof {
            assert(rules@.take(i as int) =~= rules@);
            assert(times@.take(i as int) =~= times@);
        }
        Some(false)
    }

    /// Tells whether one of the rules matches a host now. The clock is read for each rule.
    pub fn match_host_against_rules(host: &str, rules: &Vec<Rule>) -> (matched: Option<bool>)
        ensures
            exists|times: Seq<LocalTime>|
                readings(times, rules@.len()) && matched == rules_outcome(rules@, host@, times),
    {
        let ghost mut times: Seq<LocalTime> = Seq::empty();
        let mut i: usize = 0;
        while i < rules.len()
            invariant
                i <= rules@.len(),
                readings(times, i as nat),
                rules_outcome(rules@.take(i as int), host@, times) == Some(false),
            decreases rules@.len() - i,
        {
            let matched = Config::match_host_against_rule(host, &rules[i]);
            let ghost before = times;
            proof {
                times = times.push(
                    choose|now: LocalTime|
                        now.valid() && matched == rule_outcome(rules@[i as int], host@, now),
                );
                assert(times.drop_last() =~= before);
                assert(rules@.take(i + 1).drop_last() =~= rules@.take(i as int));
            }
            match matched {
                Some(false) => {},
                decided => {
                    proof {
                        lemma_completed(rules@, host@, times);
                    }
                    return decided;
                },
            }
            i += 1;
        }
        proof {
            assert(rules@.take(i as int) =~= rules@);
        }
        Some(false)
    }

    /// The rules that decide on access.
    fn get_exceptions(&self) -> (rules: &Vec<Rule>)
        ensures
            rules@ == self.exceptions(),
            rules@ == (if self.default_allow == Some(true) {
                self.blocked@
            } else {
                self.allowed@
            }),
    {
        if self.get_default_allow() {
            &self.blocked
        } else {
            &self.allowed
        }
    }

    /// Tells whether a host may be reached, given whether an exception matches it.
    pub fn decide_access(&self, matched: bool) -> (access: bool)
        ensures
            access == (matched != self.allows_by_default()),
            access == (if self.default_allow == Some(true) {
                !matched
            } else {
                matched
            }),
    {
        matched != self.get_default_allow()
    }

    /// Tells whether a host may be reached, where exception `i` is held against `times[i]`.
    pub fn check_access_at(&self, host: &str, times: &Vec<LocalTime>) -> (access: Option<bool>)
        requires
            times@.len() == self.exceptions().len(),
        ensures
            access == self.access_outcome(host@, times@),
    {
        let rules = self.get_exceptions();
        match Config::match_host_against_rules_at(host, rules, times) {
            Some(matched) => Some(self.decide_access(matched)),
            None => None,
        }
    }

    /// Tells whether a host may be reached now. The clock is read for each exception.
    ///
    /// Excluded is a configuration with which, at some time, an exception would be come to whose
    /// time specification divides by zero; see [`Config::checked_access`].
    pub fn check_access(&self, host: &str) -> (access: bool)
        requires
            forall|times: Seq<LocalTime>|
                readings(times, self.exceptions().len()) ==> (#[trigger] self.access_outcome(
                    host@,
                    times,
                )) is Some,
        ensures
            exists|times: Seq<LocalTime>|
                readings(times, self.exceptions().len()) && Some(access) == self.access_outcome(
                    host@,
                    times,
                ),
    {
        let rules = self.get_exceptions();
        let matched = Config::match_host_against_rules(host, rules);
        proof {
            let times = choose|times: Seq<LocalTime>|
                readings(times, rules@.len()) && matched == rules_outcome(rules@, host@, times);
            assert(self.access_outcome(host@, times) is Some);
        }
        match matched {
            Some(matched) => self.decide_access(matched),
            None => unreached(),
        }
    }

    /// Tells whether a host may be reached now, or gives no answer if an exception is come to
    /// whose time specification divides by zero. The clock is read for each exception.
    pub fn checked_access(&self, host: &str) -> (access: Option<bool>)
        ensures
            exists|times: Seq<LocalTime>|
                readings(times, self.exceptions().len()) && access == self.access_outcome(
                    host@,
                    times,
                ),
    {
        let rules = self.get_exceptions();
        if Config::without_slashes(rules) {
            proof {
                law_slashless_rules_are_readable(rules@);
                assert forall|times: Seq<LocalTime>|
                    readings(times, self.exceptions().len()) implies (#[trigger] self.access_outcome(
                    host@,
                    times,
                )) is Some by {
                    law_readable_rules_decide(rules@, host@, times);
                }
            }
            return Some(self.check_access(host));
        }
        match Config::match_host_against_rules(host, rules) {
            Some(matched) => Some(self.decide_access(matched)),
            None => None,
        }
    }

    /// Tells whether no time specification holds a slash.
    fn without_slashes(rules: &Vec<Rule>) -> (plain: bool)
        ensures
            plain == slashless_rules(rules@),
    {
        let mut i: usize = 0;
        while i < rules.len()
            invariant
                i <= rules@.len(),
                forall|k: int| 0 <= k < i ==> !(#[trigger] rules@[k]).timespec@.contains('/'),
            decreases rules@.len() - i,
        {
            proof {
                rules@[i as int].timespec@.index_of_first_ensures('/');
            }
            if find_char(&rules[i].timespec, '/').is_some() {
                return false;
            }
            i += 1;
        }
        true
    }
}

/// Whether no time specification holds a slash.
pub open spec fn slashless_rules(rules: Seq<Rule>) -> bool {
    forall|i: int| 0 <= i < rules.len() ==> !(#[trigger] rules[i]).timespec@.contains('/')
}

/// Rules without a slash in their time specifications have no steps, so none divides by zero.
pub proof fn law_slashless_rules_are_readable(rules: Seq<Rule>)
    requires
        slashless_rules(rules),
    ensures
        readable_rules(rules),
{
    assert forall|i: int| 0 <= i < rules.len() implies !zero_step((#[trigger] rules[i]).timespec@) by {
        law_no_slash_no_zero_step(rules[i].timespec@);
    }
}

/// Whether no time specification divides by zero.
pub open spec fn readable_rules(rules: Seq<Rule>) -> bool {
    forall|i: int| 0 <= i < rules.len() ==> !zero_step((#[trigger] rules[i]).timespec@)
}

/// Whether a rule matches at the time that the clock reads when it is come to.
pub open spec fn some_rule_matches(rules: Seq<Rule>, host: Seq<char>, times: Seq<LocalTime>) -> bool {
    exists|i: int| 0 <= i < rules.len() && rule_matches(#[trigger] rules[i], host, times[i])
}

/// Rules none of which divides by zero always give an answer: whether one of them matches.
pub proof fn law_readable_rules_decide(rules: Seq<Rule>, host: Seq<char>, times: Seq<LocalTime>)
    requires
        readable_rules(rules),
        times.len() == rules.len(),
    ensures
        rules_outcome(rules, host, times) == Some(some_rule_matches(rules, host, times)),
    decreases rules.len(),
{
    if rules.len() > 0 {
        let count = rules.len() - 1;
        let fewer = rules.drop_last();
        let earlier_times = times.drop_last();
        assert(readable_rules(fewer)) by {
            assert forall|i: int| 0 <= i < fewer.len() implies !zero_step(
                (#[trigger] fewer[i]).timespec@,
            ) by {
                assert(fewer[i] == rules[i]);
            }
        }
        law_readable_rules_decide(fewer, host, earlier_times);
        assert(!zero_step(rules[count].timespec@));
        assert(rules[count] == rules.last());
        assert forall|i: int| 0 <= i < count implies rule_matches(
            #[trigger] fewer[i],
            host,
            earlier_times[i],
        ) == rule_matches(rules[i], host, times[i]) by {
        }
        if some_rule_matches(rules, host, times) {
            let i = choose|i: int|
                0 <= i < rules.len() && rule_matches(#[trigger] rules[i], host, times[i]);
            assert(i < count ==> rule_matches(fewer[i], host, earlier_times[i]));
        }
    }
}

/// A time in the calendar.
spec fn midnight() -> LocalTime {
    LocalTime { minute: 0, hour: 0, day_of_month: 1, month: 1, day_of_week: 0 }
}

/// The clock reads something for every number of rules.
pub proof fn lemma_readings_exist(count: nat) -> (times: Seq<LocalTime>)
    ensures
        readings(times, count),
{
    Seq::new(count, |i: int| midnight())
}

/// Where the first rules decide, the rest have no say.
proof fn lemma_decided(rules: Seq<Rule>, host: Seq<char>, times: Seq<LocalTime>, count: int)
    requires
        times.len() == rules.len(),
        0 <= count <= rules.len(),
        rules_outcome(rules.take(count), host, times.take(count)) != Some(false),
    ensures
        rules_outcome(rules, host, times) == rules_outcome(rules.take(count), host, times.take(count)),
    decreases rules.len(),
{
    if count < rules.len() {
        assert(rules.drop_last().take(count) =~= rules.take(count));
        assert(times.drop_last().take(count) =~= times.take(count));
        lemma_decided(rules.drop_last(), host, times.drop_last(), count);
    } else {
        assert(rules.take(count) =~= rules);
        assert(times.take(count) =~= times);
    }
}

/// Readings for the first rules, on which these decide, extend to readings for all.
proof fn lemma_completed(rules: Seq<Rule>, host: Seq<char>, times: Seq<LocalTime>)
    requires
        times.len() <= rules.len(),
        readings(times, times.len()),
        rules_outcome(rules.take(times.len() as int), host, times) != Some(false),
    ensures
        exists|all: Seq<LocalTime>|
            readings(all, rules.len()) && rules_outcome(rules, host, all) == rules_outcome(
                rules.take(times.len() as int),
                host,
                times,
            ),
{
    let rest = Seq::new((rules.len() - times.len()) as nat, |i: int| midnight());
    let all = times + rest;
    assert(all.take(times.len() as int) =~= times);
    lemma_decided(rules, host, all, times.len() as int);
    assert(readings(all, rules.len()));
}

/// Without users anybody may use the proxy.
pub proof fn law_no_users(config: Config, username: Seq<char>, password: Seq<char>)
    requires
        config.users@.len() == 0,
    ensures
        config.admits(username, password),
{
}

/// With users, nobody but a listed user with the right password may use the proxy.
pub proof fn law_users_alone(config: Config, username: Seq<char>, password: Seq<char>)
    requires
        config.users@.len() > 0,
    ensures
        config.admits(username, password) <==> exists|i: int|
            0 <= i < config.users@.len() && (#[trigger] config.users@[i]).username@ == username
                && config.users@[i].password@ == password,
{
}

/// A rule whose time specification or regular expression is malformed never matches.
pub proof fn law_malformed_rule(rule: Rule, host: Seq<char>, now: LocalTime)
    requires
        timespec_failure(rule.timespec@) is Some || !regex_compiles(rule.regex@),
    ensures
        !rule_matches(rule, host, now),
{
    reveal(rule_matches);
}

/// Where there are no exceptions, the default decides.
pub proof fn law_no_exceptions(config: Config, host: Seq<char>, times: Seq<LocalTime>)
    requires
        config.exceptions().len() == 0,
    ensures
        config.access_outcome(host, times) == Some(config.allows_by_default()),
{
}

/// Where no exception divides by zero, the default decides unless an exception matches.
pub proof fn law_access(config: Config, host: Seq<char>, times: Seq<LocalTime>)
    requires
        readable_rules(config.exceptions()),
        times.len() == config.exceptions().len(),
    ensures
        config.access_outcome(host, times) == Some(
            config.allows_by_default() != some_rule_matches(config.exceptions(), host, times),
        ),
{
    law_readable_rules_decide(config.exceptions(), host, times);
}

/// The same rules block with one default what they allow with the other.
pub proof fn law_defaults_are_dual(
    open_config: Config,
    shut_config: Config,
    host: Seq<char>,
    times: Seq<LocalTime>,
)
    requires
        open_config.allows_by_default(),
        !shut_config.allows_by_default(),
        open_config.blocked@ == shut_config.allowed@,
    ensures
        match (open_config.access_outcome(host, times), shut_config.access_outcome(host, times)) {
            (Some(open_access), Some(shut_access)) => open_access != shut_access,
            (None, None) => true,
            _ => false,
        },
{
}

/// What is an exception remains one when another rule is added at the end.
pub proof fn law_more_exceptions(
    config: Config,
    extended: Config,
    rule: Rule,
    host: Seq<char>,
    times: Seq<LocalTime>,
    time: LocalTime,
)
    requires
        extended.allows_by_default() == config.allows_by_default(),
        extended.exceptions() == config.exceptions().push(rule),
        config.access_outcome(host, times) == Some(!config.allows_by_default()),
    ensures
        extended.access_outcome(host, times.push(time)) == config.access_outcome(host, times),
{
    assert(config.exceptions().push(rule).drop_last() =~= config.exceptions());
    assert(times.push(time).drop_last() =~= times);
}

/// A rule matches a host at a time if and only if its time specification and its regular expression
/// are well formed, each field of the one selects its own part of the time, and the other is found
/// in the host.
pub proof fn law_rule_matches(rule: Rule, host: Seq<char>, now: LocalTime)
    requires
        text_words(rule.timespec@).len() == 5,
    ensures
        rule_matches(rule, host, now) <==> {
            &&& field_failure(text_words(rule.timespec@)[0], 0, 60) is None
            &&& field_failure(text_words(rule.timespec@)[1], 0, 24) is None
            &&& field_failure(text_words(rule.timespec@)[2], 1, 32) is None
            &&& field_failure(text_words(rule.timespec@)[3], 1, 13) is None
            &&& field_failure(text_words(rule.timespec@)[4], 0, 7) is None
            &&& field_selects(text_words(rule.timespec@)[0], 0, 60, now.minute as int)
            &&& field_selects(text_words(rule.timespec@)[1], 0, 24, now.hour as int)
            &&& field_selects(text_words(rule.timespec@)[2], 1, 32, now.day_of_month as int)
            &&& field_selects(text_words(rule.timespec@)[3], 1, 13, now.month as int)
            &&& field_selects(text_words(rule.timespec@)[4], 0, 7, now.day_of_week as int)
            &&& regex_compiles(rule.regex@)
            &&& regex_finds(rule.regex@, host)
        },
{
    reveal(rule_matches);
    law_first_failing_field(rule.timespec@);
    law_time_in_schedule(rule.timespec@, now);
}

/// A rule whose time specification is written as five well-formed fields, with any white space
/// between them, and whose regular expression compiles: it matches a host at a time if and only if
/// each field selects its own part of the time and the expression is found in the host.
pub proof fn law_rule_of_five_fields(
    rule: Rule,
    minute: Seq<char>,
    hour: Seq<char>,
    day_of_month: Seq<char>,
    month: Seq<char>,
    day_of_week: Seq<char>,
    gaps: (char, char, char, char),
    host: Seq<char>,
    now: LocalTime,
)
    requires
        one_word(minute),
        one_word(hour),
        one_word(day_of_month),
        one_word(month),
        one_word(day_of_week),
        white_space(gaps.0),
        white_space(gaps.1),
        white_space(gaps.2),
        white_space(gaps.3),
        rule.timespec@ == minute + seq![gaps.0] + (hour + seq![gaps.1] + (day_of_month + seq![gaps.2] + (month
            + seq![gaps.3] + day_of_week))),
        field_failure(minute, 0, 60) is None,
        field_failure(hour, 0, 24) is None,
        field_failure(day_of_month, 1, 32) is None,
        field_failure(month, 1, 13) is None,
        field_failure(day_of_week, 0, 7) is None,
        regex_compiles(rule.regex@),
    ensures
        rule_matches(rule, host, now) <==> {
            &&& field_selects(minute, 0, 60, now.minute as int)
            &&& field_selects(hour, 0, 24, now.hour as int)
            &&& field_selects(day_of_month, 1, 32, now.day_of_month as int)
            &&& field_selects(month, 1, 13, now.month as int)
            &&& field_selects(day_of_week, 0, 7, now.day_of_week as int)
            &&& regex_finds(rule.regex@, host)
        },
        rule_outcome(rule, host, now) == Some(rule_matches(rule, host, now)),
{
    assert(text_words(rule.timespec@) == seq![minute, hour, day_of_month, month, day_of_week]) by {
        law_time_in_five_fields(
            minute,
            hour,
            day_of_month,
            month,
            day_of_week,
            gaps,
            rule.timespec@,
            now,
        );
    }
    lemma_rule_of_five_words(rule, host, now);
}

/// What five well-formed fields make of a rule whose regular expression compiles.
proof fn lemma_rule_of_five_words(rule: Rule, host: Seq<char>, now: LocalTime)
    requires
        text_words(rule.timespec@).len() == 5,
        field_failure(text_words(rule.timespec@)[0], 0, 60) is None,
        field_failure(text_words(rule.timespec@)[1], 0, 24) is None,
        field_failure(text_words(rule.timespec@)[2], 1, 32) is None,
        field_failure(text_words(rule.timespec@)[3], 1, 13) is None,
        field_failure(text_words(rule.timespec@)[4], 0, 7) is None,
        regex_compiles(rule.regex@),
    ensures
        rule_matches(rule, host, now) <==> {
            &&& field_selects(text_words(rule.timespec@)[0], 0, 60, now.minute as int)
            &&& field_selects(text_words(rule.timespec@)[1], 0, 24, now.hour as int)
            &&& field_selects(text_words(rule.timespec@)[2], 1, 32, now.day_of_month as int)
            &&& field_selects(text_words(rule.timespec@)[3], 1, 13, now.month as int)
            &&& field_selects(text_words(rule.timespec@)[4], 0, 7, now.day_of_week as int)
            &&& regex_finds(rule.regex@, host)
        },
        rule_outcome(rule, host, now) == Some(rule_matches(rule, host, now)),
{
    law_rule_matches(rule, host, now);
    law_first_failing_field(rule.timespec@);
}

/// A rule gives no answer if and only if to read its time specification is to divide by zero;
/// otherwise it answers whether it matches.
pub proof fn law_rule_answers(rule: Rule, host: Seq<char>, now: LocalTime)
    ensures
        timespec_failure(rule.timespec@) == Some(Failure::ZeroStep) ==> rule_outcome(rule, host, now) is None,
        timespec_failure(rule.timespec@) != Some(Failure::ZeroStep) ==> rule_outcome(rule, host, now) == Some(
            rule_matches(rule, host, now),
        ),
{
}

/// The first rule that matches or divides by zero decides: there is a match in the one case, and no
/// answer in the other, whatever rules follow.
pub proof fn law_first_deciding_rule(rules: Seq<Rule>, host: Seq<char>, times: Seq<LocalTime>, i: int)
    requires
        times.len() == rules.len(),
        0 <= i < rules.len(),
        forall|j: int|
            0 <= j < i ==> timespec_failure((#[trigger] rules[j]).timespec@) != Some(Failure::ZeroStep)
                && !rule_matches(rules[j], host, times[j]),
        timespec_failure(rules[i].timespec@) == Some(Failure::ZeroStep) || rule_matches(
            rules[i],
            host,
            times[i],
        ),
    ensures
        rules_outcome(rules, host, times) == (if timespec_failure(rules[i].timespec@) == Some(
            Failure::ZeroStep,
        ) {
            None
        } else {
            Some(true)
        }),
{
    let first = rules.take(i);
    let first_times = times.take(i);
    assert(rules_outcome(first, host, first_times) == Some(false)) by {
        assert forall|j: int| 0 <= j < first.len() implies timespec_failure((#[trigger] first[j]).timespec@)
            != Some(Failure::ZeroStep) && !rule_matches(first[j], host, first_times[j]) by {
            assert(first[j] == rules[j] && first_times[j] == times[j]);
        }
        law_no_deciding_rule(first, host, first_times);
    }
    assert(rules.take(i + 1).drop_last() =~= first);
    assert(times.take(i + 1).drop_last() =~= first_times);
    assert(rules.take(i + 1).last() == rules[i] && times.take(i + 1).last() == times[i]);
    lemma_decided(rules, host, times, i + 1);
}

/// Where no rule matches and none divides by zero, there is no match.
pub proof fn law_no_deciding_rule(rules: Seq<Rule>, host: Seq<char>, times: Seq<LocalTime>)
    requires
        times.len() == rules.len(),
        forall|j: int|
            0 <= j < rules.len() ==> timespec_failure((#[trigger] rules[j]).timespec@) != Some(
                Failure::ZeroStep,
            ) && !rule_matches(rules[j], host, times[j]),
    ensures
        rules_outcome(rules, host, times) == Some(false),
    decreases rules.len(),
{
    if rules.len() > 0 {
        let fewer = rules.drop_last();
        let earlier_times = times.drop_last();
        assert forall|j: int| 0 <= j < fewer.len() implies timespec_failure((#[trigger] fewer[j]).timespec@)
            != Some(Failure::ZeroStep) && !rule_matches(fewer[j], host, earlier_times[j]) by {
            assert(fewer[j] == rules[j] && earlier_times[j] == times[j]);
        }
        law_no_deciding_rule(fewer, host, earlier_times);
        assert(rules[rules.len() - 1] == rules.last());
    }
}

/// With the default to allow, a host is reached unless a blocked rule matches; with any other
/// default, or none, it is not reached unless an allowed rule matches. Where the first rule that
/// matches or divides by zero does the latter, there is no answer.
pub proof fn law_deciding_exception(
    config: Config,
    rules: Seq<Rule>,
    host: Seq<char>,
    times: Seq<LocalTime>,
    i: int,
)
    requires
        rules == (if config.default_allow == Some(true) {
            config.blocked@
        } else {
            config.allowed@
        }),
        times.len() == rules.len(),
        0 <= i <= rules.len(),
        forall|j: int|
            0 <= j < i ==> timespec_failure((#[trigger] rules[j]).timespec@) != Some(Failure::ZeroStep)
                && !rule_matches(rules[j], host, times[j]),
        i < rules.len() ==> timespec_failure(rules[i].timespec@) == Some(Failure::ZeroStep) || rule_matches(
            rules[i],
            host,
            times[i],
        ),
    ensures
        config.access_outcome(host, times) == (if i == rules.len() {
            Some(config.default_allow == Some(true))
        } else if timespec_failure(rules[i].timespec@) == Some(Failure::ZeroStep) {
            None
        } else {
            Some(config.default_allow != Some(true))
        }),
{
    if i < rules.len() {
        law_first_deciding_rule(rules, host, times, i);
    } else {
        law_no_deciding_rule(rules, host, times);
    }
}

/// The exceptions are the blocked rules where the default is to allow, and the allowed rules where
/// it is not or none is set.
pub proof fn law_exceptions(config: Config)
    ensures
        config.allows_by_default() <==> config.default_allow == Some(true),
        config.default_allow == Some(true) ==> config.exceptions() == config.blocked@,
        config.default_allow == Some(false) ==> config.exceptions() == config.allowed@,
        config.default_allow is None ==> config.exceptions() == config.allowed@,
{
}

/// The clock gives one time within the calendar for each rule.
pub proof fn law_readings(times: Seq<LocalTime>, count: nat)
    ensures
        readings(times, count) <==> times.len() == count && (forall|i: int|
            0 <= i < times.len() ==> (#[trigger] times[i]).minute < 60 && times[i].hour < 24 && 1
                <= times[i].day_of_month <= 31 && 1 <= times[i].month <= 12 && times[i].day_of_week < 7),
{
}

} // verus!
