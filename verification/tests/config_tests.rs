use haptics::config::{default_port, glob_match, Filter};
use haptics::event::CloudEvent;

fn event(
    type_: &str,
    source: &str,
    sourcetype: &str,
    subject: Option<&str>,
    data: Vec<(&str, &str)>,
) -> CloudEvent {
    CloudEvent {
        id: "test-id".into(),
        type_: type_.into(),
        source: source.into(),
        sourcetype: sourcetype.into(),
        subject: subject.map(Into::into),
        data: data.into_iter().map(|(k, v)| (k.to_string(), v.to_string())).collect(),
    }
}

fn any_event() -> CloudEvent {
    event("devevents.task.failed", "editor/jeff/vscode", "editor", None, vec![])
}

fn exit_code_one() -> Option<Vec<(String, String)>> {
    Some(vec![("exit_code".to_string(), "1".to_string())])
}

// ── glob_match ─────────────────────────────────────────────────────────

#[test]
fn glob_exact_match() {
    assert!(glob_match("foo", "foo"));
    assert!(!glob_match("foo", "bar"));
    assert!(!glob_match("foo", "foobar"));
}

#[test]
fn glob_star_only_matches_anything() {
    assert!(glob_match("*", ""));
    assert!(glob_match("*", "anything"));
    assert!(glob_match("*", "with/slashes"));
}

#[test]
fn glob_prefix_star() {
    assert!(glob_match("foo*", "foobar"));
    assert!(glob_match("foo*", "foo"));
    assert!(!glob_match("foo*", "bar"));
}

#[test]
fn glob_suffix_star() {
    assert!(glob_match("*bar", "foobar"));
    assert!(glob_match("*bar", "bar"));
    assert!(!glob_match("*bar", "foo"));
}

#[test]
fn glob_middle_star() {
    assert!(glob_match("foo*baz", "foobarbaz"));
    assert!(glob_match("foo*baz", "foobaz")); // zero chars
    assert!(!glob_match("foo*baz", "foobaz_wrong"));
}

#[test]
fn glob_star_crosses_slash() {
    assert!(glob_match("editor/*/vscode", "editor/jeff/vscode"));
    assert!(glob_match("editor/*/vscode", "editor/jeff/jetbrains/vscode"));
    assert!(!glob_match("editor/*/vscode", "editor/jeff/pycharm"));
}

#[test]
fn glob_multiple_stars() {
    assert!(glob_match("a*b*c", "axbyc"));
    assert!(glob_match("a*b*c", "abc")); // zero-width matches
    assert!(!glob_match("a*b*c", "axc")); // missing b
}

#[test]
fn glob_empty_pattern_matches_empty_only() {
    assert!(glob_match("", ""));
    assert!(!glob_match("", "foo"));
}

#[test]
fn glob_non_ascii_characters() {
    assert!(glob_match("caf*", "café"));
    assert!(glob_match("*é", "café"));
    assert!(glob_match("c*f*é", "cçfé"));
    assert!(!glob_match("caf", "café"));
}

#[test]
fn glob_consecutive_stars_and_backtracking() {
    assert!(glob_match("**", ""));
    assert!(glob_match("a**b", "ab"));
    assert!(glob_match("*ab", "aab"));
    assert!(glob_match("*a*a*a", "aaa"));
    assert!(!glob_match("*a*a*a*a", "aaa"));
    assert!(!glob_match("a*", ""));
}

// ── Filter::matches ────────────────────────────────────────────────────

#[test]
fn filter_empty_matches_any_event() {
    let f = Filter::default();
    assert!(f.matches(&any_event()));
}

#[test]
fn filter_type_exact_match() {
    let f = Filter { type_: Some("devevents.task.failed".into()), ..Default::default() };
    assert!(f.matches(&any_event()));
}

#[test]
fn filter_type_no_match() {
    let f = Filter { type_: Some("devevents.task.succeeded".into()), ..Default::default() };
    assert!(!f.matches(&any_event()));
}

#[test]
fn filter_type_glob() {
    let f = Filter { type_: Some("devevents.task.*".into()), ..Default::default() };
    assert!(f.matches(&any_event()));
    assert!(f.matches(&event("devevents.task.succeeded", "s", "editor", None, vec![])));
    assert!(!f.matches(&event("devevents.file.saved", "s", "editor", None, vec![])));
}

#[test]
fn filter_source_glob() {
    let f = Filter { source: Some("editor/*".into()), ..Default::default() };
    assert!(f.matches(&any_event()));
    assert!(!f.matches(&event("t", "service/gitlab/gitlab.com", "service", None, vec![])));
}

#[test]
fn filter_sourcetype_exact() {
    let f = Filter { sourcetype: Some("service".into()), ..Default::default() };
    assert!(!f.matches(&any_event())); // any_event is "editor"
    assert!(f.matches(&event("t", "service/gitlab", "service", None, vec![])));
}

#[test]
fn filter_subject_event_has_none_returns_false() {
    let f = Filter { subject: Some("~/projects/foo".into()), ..Default::default() };
    assert!(!f.matches(&any_event())); // any_event has no subject
}

#[test]
fn filter_subject_matches() {
    let f = Filter { subject: Some("~/projects/*".into()), ..Default::default() };
    let e = event("t", "s", "editor", Some("~/projects/my-app"), vec![]);
    assert!(f.matches(&e));
}

#[test]
fn filter_data_key_matches() {
    let f = Filter { data: exit_code_one(), ..Default::default() };
    let e = event("t", "s", "editor", None, vec![("exit_code", "1")]);
    assert!(f.matches(&e));
}

#[test]
fn filter_data_key_value_mismatch() {
    let f = Filter { data: exit_code_one(), ..Default::default() };
    let e = event("t", "s", "editor", None, vec![("exit_code", "2")]);
    assert!(!f.matches(&e));
}

#[test]
fn filter_data_key_missing_from_event() {
    let f = Filter { data: exit_code_one(), ..Default::default() };
    let e = event("t", "s", "editor", None, vec![]);
    assert!(!f.matches(&e));
}

#[test]
fn filter_multiple_fields_all_must_match() {
    let f = Filter {
        type_: Some("devevents.task.failed".into()),
        sourcetype: Some("editor".into()),
        ..Default::default()
    };
    assert!(f.matches(&any_event()));

    let f2 = Filter {
        type_: Some("devevents.task.failed".into()),
        sourcetype: Some("service".into()),
        ..Default::default()
    };
    assert!(!f2.matches(&any_event()));
}

#[test]
fn filter_data_other_members_are_ignored() {
    let f = Filter { data: exit_code_one(), ..Default::default() };
    let e = event("t", "s", "editor", None, vec![("task", "\"build\""), ("exit_code", "1")]);
    assert!(f.matches(&e));
}

#[test]
fn filter_data_string_and_number_differ() {
    let f = Filter { data: exit_code_one(), ..Default::default() };
    let e = event("t", "s", "editor", None, vec![("exit_code", "\"1\"")]);
    assert!(!f.matches(&e));
}

#[test]
fn filter_empty_data_requirement_matches_any_event() {
    let f = Filter { data: Some(vec![]), ..Default::default() };
    assert!(f.matches(&any_event()));
}

#[test]
fn default_port_is_mqtt_port() {
    assert_eq!(default_port(), 1883);
}
