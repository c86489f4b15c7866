use togglebot::commands::Type;
use togglebot::cooldown::CooldownState;
use togglebot::grammar::Argument;
use togglebot::respond::{all_platforms, Command, FormatString, Reply, UserResponse};
use togglebot::template::render;
use togglebot::text::tokenize;
use togglebot::Source;

fn free_text_command(counts: &[usize], template: &str) -> Command {
    let args = counts
        .iter()
        .map(|n| Argument::Simple(Type::FreeText(*n)))
        .collect();
    Command {
        args: Some(args),
        format: Some(FormatString::Universal(template.to_owned())),
        cooldown: None,
        aliases: None,
        platforms: all_platforms(),
    }
}

fn expect_pending(reply: Reply) -> togglebot::respond::PendingReply {
    match reply {
        Reply::Pending(p) => p,
        Reply::Done(_) => panic!("expected a pending reply"),
    }
}

fn expect_custom(resp: UserResponse) -> String {
    match resp {
        UserResponse::Custom(s) => s,
        _ => panic!("expected a custom response"),
    }
}

#[test]
fn free_text_test_always_true() {
    let t = Type::FreeText(1);
    assert!(t.test(true));
    assert!(t.test(false));
    assert_eq!(t.format("", false), Some(String::new()));
    assert_eq!(t.format("anything", false), Some("anything".to_owned()));
}

#[test]
fn url_format_absent_without_failure_template() {
    let t = Type::UrlBacked("https://example.com/{0}".to_owned(), None);
    assert_eq!(t.format("abc", false), None);
}

#[test]
fn url_format_uses_failure_template() {
    let t = Type::UrlBacked(
        "https://example.com/{0}".to_owned(),
        Some("Not found: {0}".to_owned()),
    );
    assert_eq!(t.format("abc", false), Some("Not found: abc".to_owned()));
    assert_eq!(
        t.format("abc", true),
        Some("https://example.com/abc".to_owned())
    );
}

#[test]
fn cooldown_gate_blocks_within_window() {
    let mut state = CooldownState::new();
    assert!(state.check_and_record("greet", 10, 0));
    assert!(!state.check_and_record("greet", 10, 5));
    assert!(state.check_and_record("greet", 10, 11));
}

#[test]
fn cooldown_gate_is_per_name() {
    let mut state = CooldownState::new();
    assert!(state.check_and_record("a", 10, 0));
    assert!(state.check_and_record("b", 10, 0));
    assert!(!state.check_and_record("a", 10, 9));
}

#[test]
fn binding_is_greedy_and_order_preserving() {
    let cmd = free_text_command(&[2, 1], "{0}|{1}");
    let mut state = CooldownState::new();
    let reply = cmd.respond("x", Some("a b c"), &mut state, Source::Discord, 0);
    let pending = expect_pending(reply);
    assert!(pending.probe_urls().is_empty());
    let resp = pending.resolve(&Vec::new());
    assert_eq!(expect_custom(resp), "a b|c");
}

#[test]
fn binding_fails_on_exhausted_tokens() {
    let cmd = free_text_command(&[2, 1], "{0}|{1}");
    let mut state = CooldownState::new();
    let reply = cmd.respond("x", Some("a b"), &mut state, Source::Discord, 0);
    assert!(matches!(reply, Reply::Done(UserResponse::WrongArgs)));
}

#[test]
fn binding_ignores_excess_tokens() {
    let cmd = free_text_command(&[1], "{0}");
    let mut state = CooldownState::new();
    let reply = cmd.respond("x", Some("a b c"), &mut state, Source::Discord, 0);
    let resp = expect_pending(reply).resolve(&Vec::new());
    assert_eq!(expect_custom(resp), "a");
}

#[test]
fn platform_filtering_yields_unknown() {
    let mut cmd = free_text_command(&[1], "{0}");
    cmd.platforms = vec![Source::Discord];
    cmd.cooldown = Some(10);
    let mut state = CooldownState::new();
    let reply = cmd.respond("x", Some("a"), &mut state, Source::Twitch, 0);
    assert!(matches!(reply, Reply::Done(UserResponse::Unknown)));
    // The refusal happens before the cooldown check: the same command still answers.
    let reply = cmd.respond("x", Some("a"), &mut state, Source::Discord, 0);
    assert!(matches!(reply, Reply::Pending(_)));
}

#[test]
fn render_substitutes_positionally() {
    let vals = vec!["Bob".to_owned(), "here".to_owned()];
    let r = render("Hello {0}, visit {1}", &vals);
    assert_eq!(r, Some("Hello Bob, visit here".to_owned()));
}

#[test]
fn render_fails_on_count_mismatch() {
    let vals = vec!["Bob".to_owned()];
    assert_eq!(render("Hello {0}, visit {1}", &vals), None);
    let vals = vec!["a".to_owned(), "b".to_owned()];
    assert_eq!(render("only {0}", &vals), None);
}

#[test]
fn render_leaves_non_placeholders_alone() {
    let vals: Vec<String> = Vec::new();
    assert_eq!(render("{10} {x} {", &vals), Some("{10} {x} {".to_owned()));
}

#[test]
fn weblink_end_to_end() {
    let t = Type::UrlBacked(
        "https://example.com/{0}".to_owned(),
        Some("Not found: {0}".to_owned()),
    );
    let cmd = Command {
        args: Some(vec![Argument::Format(t)]),
        format: Some(FormatString::Universal("Link: {0}".to_owned())),
        cooldown: None,
        aliases: None,
        platforms: all_platforms(),
    };
    let mut state = CooldownState::new();

    let pending = expect_pending(cmd.respond(
        "weblink",
        Some("abc"),
        &mut state,
        Source::Twitch,
        0,
    ));
    assert_eq!(
        pending.probe_urls(),
        vec!["https://example.com/abc".to_owned()]
    );
    let resp = pending.resolve(&vec![false]);
    assert_eq!(expect_custom(resp), "Link: Not found: abc");

    let pending = expect_pending(cmd.respond(
        "weblink",
        Some("xyz"),
        &mut state,
        Source::Twitch,
        0,
    ));
    let resp = pending.resolve(&vec![true]);
    assert_eq!(expect_custom(resp), "Link: https://example.com/xyz");
}

#[test]
fn validated_url_fails_whole_response() {
    let t = Type::UrlBacked("https://example.com/{0}".to_owned(), None);
    let cmd = Command {
        args: Some(vec![Argument::Test(t)]),
        format: Some(FormatString::Universal("ok {0}".to_owned())),
        cooldown: None,
        aliases: None,
        platforms: all_platforms(),
    };
    let mut state = CooldownState::new();
    let pending = expect_pending(cmd.respond("v", Some("q"), &mut state, Source::Twitch, 0));
    let resp = pending.resolve(&vec![false]);
    assert!(matches!(resp, UserResponse::WrongArgs));
    let pending = expect_pending(cmd.respond("v", Some("q"), &mut state, Source::Twitch, 0));
    let resp = pending.resolve(&vec![true]);
    assert_eq!(expect_custom(resp), "ok q");
}

#[test]
fn missing_template_is_unknown() {
    let cmd = Command {
        args: None,
        format: None,
        cooldown: None,
        aliases: None,
        platforms: all_platforms(),
    };
    let mut state = CooldownState::new();
    let reply = cmd.respond("x", None, &mut state, Source::Discord, 0);
    assert!(matches!(reply, Reply::Done(UserResponse::Unknown)));
}

#[test]
fn platform_specific_template_selection() {
    let cmd = Command {
        args: None,
        format: Some(FormatString::Specific(vec![(
            Source::Discord,
            "hi".to_owned(),
        )])),
        cooldown: None,
        aliases: None,
        platforms: all_platforms(),
    };
    let mut state = CooldownState::new();
    let reply = cmd.respond("x", None, &mut state, Source::Twitch, 0);
    assert!(matches!(reply, Reply::Done(UserResponse::Unknown)));
    let reply = cmd.respond("x", None, &mut state, Source::Discord, 0);
    match reply {
        Reply::Done(UserResponse::Custom(s)) => assert_eq!(s, "hi"),
        _ => panic!("expected the fixed template"),
    }
}

#[test]
fn specs_with_missing_raw_text_are_wrong_args() {
    let cmd = free_text_command(&[1], "{0}");
    let mut state = CooldownState::new();
    let reply = cmd.respond("x", None, &mut state, Source::Discord, 0);
    assert!(matches!(reply, Reply::Done(UserResponse::WrongArgs)));
}

#[test]
fn cooldown_is_recorded_before_argument_failure() {
    let cmd = Command {
        cooldown: Some(10),
        ..free_text_command(&[1], "{0}")
    };
    let mut state = CooldownState::new();
    let reply = cmd.respond("x", None, &mut state, Source::Discord, 0);
    assert!(matches!(reply, Reply::Done(UserResponse::WrongArgs)));
    // The failed invocation still consumed the cooldown window.
    let reply = cmd.respond("x", Some("a"), &mut state, Source::Discord, 5);
    assert!(matches!(reply, Reply::Done(UserResponse::Unknown)));
}

#[test]
fn tokenize_splits_on_whitespace_runs() {
    let toks = tokenize("  a \t b\nc  ");
    assert_eq!(
        toks,
        vec!["a".to_owned(), "b".to_owned(), "c".to_owned()]
    );
    assert!(tokenize("   ").is_empty());
}
