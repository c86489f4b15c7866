use togglebot::cooldown::CooldownState;
use togglebot::grammar::Argument;
use togglebot::registry::{
    commands, custom, find_command, links, list_command_names, CommandItem, Config, Links,
    NameError, NamedFunction,
};
use togglebot::respond::{all_platforms, Command, FormatString, Reply, UserResponse};
use togglebot::Source;

fn sample_config() -> Config {
    let greet = Command {
        args: None,
        format: Some(FormatString::Universal("hello there".to_owned())),
        cooldown: None,
        aliases: Some(vec!["hi".to_owned(), "hey".to_owned()]),
        platforms: all_platforms(),
    };
    let echo = Command {
        args: Some(vec![Argument::parse("string").unwrap()]),
        format: Some(FormatString::Universal("{0}".to_owned())),
        cooldown: None,
        aliases: None,
        platforms: vec![Source::Twitch],
    };
    Config {
        commands: vec![
            ("greet".to_owned(), CommandItem::Custom(greet)),
            ("motd".to_owned(), CommandItem::Message("be kind".to_owned())),
            ("echo".to_owned(), CommandItem::Custom(echo)),
        ],
        links: Links(vec![(
            "home".to_owned(),
            "https://example.com".to_owned(),
        )]),
    }
}

#[test]
fn find_command_matches_name_and_alias() {
    let config = sample_config();
    let hit = find_command(&config.commands, "greet").unwrap();
    assert_eq!(hit.0, "greet");
    let hit = find_command(&config.commands, "HEY").unwrap();
    assert_eq!(hit.0, "greet");
    assert!(find_command(&config.commands, "nope").is_none());
}

#[test]
fn custom_answers_under_canonical_name() {
    let config = sample_config();
    let mut state = CooldownState::new();
    let reply = custom(&config, &mut state, Source::Discord, "!hi", None, 0);
    match reply {
        Reply::Done(UserResponse::Custom(s)) => assert_eq!(s, "hello there"),
        _ => panic!("expected the custom command's response"),
    }
}

#[test]
fn custom_requires_bang_prefix() {
    let config = sample_config();
    let mut state = CooldownState::new();
    let reply = custom(&config, &mut state, Source::Discord, "greet", None, 0);
    assert!(matches!(reply, Reply::Done(UserResponse::Unknown)));
    let reply = custom(&config, &mut state, Source::Discord, "!none", None, 0);
    assert!(matches!(reply, Reply::Done(UserResponse::Unknown)));
}

#[test]
fn custom_answers_fixed_messages() {
    let config = sample_config();
    let mut state = CooldownState::new();
    let reply = custom(&config, &mut state, Source::Twitch, "!motd", None, 0);
    match reply {
        Reply::Done(UserResponse::Custom(s)) => assert_eq!(s, "be kind"),
        _ => panic!("expected the fixed message"),
    }
}

#[test]
fn listing_respects_platforms_and_aliases() {
    let config = sample_config();
    let names = list_command_names(&config, Source::Discord);
    assert_eq!(
        names,
        vec!["greet (or !hi, !hey)".to_owned(), "motd".to_owned()]
    );
    let names = list_command_names(&config, Source::Twitch);
    assert_eq!(
        names,
        vec![
            "greet (or !hi, !hey)".to_owned(),
            "motd".to_owned(),
            "echo".to_owned()
        ]
    );
}

#[test]
fn commands_response_wraps_listing() {
    let config = sample_config();
    match commands(&config, Source::Twitch) {
        UserResponse::Commands(names) => assert_eq!(names.len(), 3),
        _ => panic!("expected the command listing"),
    }
}

#[test]
fn links_response_copies_configured_links() {
    let config = sample_config();
    match links(&config, Source::Discord) {
        UserResponse::Links(l) => {
            assert_eq!(
                l,
                vec![("home".to_owned(), "https://example.com".to_owned())]
            );
        }
        _ => panic!("expected the link listing"),
    }
}

#[test]
fn named_function_parses_two_path_elements() {
    let nf = NamedFunction::parse("@fun/name").unwrap();
    assert_eq!(nf.0, "@fun");
    assert_eq!(nf.1, "name");
}

#[test]
fn named_function_rejects_bad_references() {
    assert!(matches!(
        NamedFunction::parse("fun/name"),
        Err(NameError::MissingAt)
    ));
    assert!(matches!(
        NamedFunction::parse("@fun"),
        Err(NameError::WrongPathCount)
    ));
    assert!(matches!(
        NamedFunction::parse("@a/b/c"),
        Err(NameError::WrongPathCount)
    ));
}
