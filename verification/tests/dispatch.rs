use togglebot::dispatch::{admin_dispatch, trim, user_dispatch, AdminAction, UserAction};

#[test]
fn user_dispatch_selects_builtins() {
    assert!(matches!(user_dispatch("!commands"), UserAction::Commands));
    assert!(matches!(user_dispatch("!LINKS"), UserAction::Links));
    assert!(matches!(user_dispatch("!schedule"), UserAction::Schedule));
}

#[test]
fn user_dispatch_builtins_take_no_arguments() {
    match user_dispatch("!commands now") {
        UserAction::Custom { name, args } => {
            assert_eq!(name, "!commands");
            assert_eq!(args.as_deref(), Some("now"));
        }
        _ => panic!("expected the custom path"),
    }
}

#[test]
fn user_dispatch_crate_keeps_term() {
    match user_dispatch("!crate serde") {
        UserAction::Crate(term) => assert_eq!(term, "serde"),
        _ => panic!("expected the crate lookup"),
    }
    assert!(matches!(
        user_dispatch("!crate"),
        UserAction::Custom { .. }
    ));
}

#[test]
fn user_dispatch_ban_trims_target() {
    match user_dispatch("!ban   balrog  ") {
        UserAction::Ban(target) => assert_eq!(target, "balrog"),
        _ => panic!("expected the refusal"),
    }
}

#[test]
fn user_dispatch_lowercases_command_only() {
    match user_dispatch("!Greet World") {
        UserAction::Custom { name, args } => {
            assert_eq!(name, "!greet");
            assert_eq!(args.as_deref(), Some("World"));
        }
        _ => panic!("expected the custom path"),
    }
}

#[test]
fn trim_strips_both_ends() {
    assert_eq!(trim("  a b \t"), "a b");
    assert_eq!(trim("   "), "");
    assert_eq!(trim("x"), "x");
}

#[test]
fn admin_dispatch_selects_actions() {
    assert!(matches!(admin_dispatch("!help"), AdminAction::Help));
    assert!(matches!(admin_dispatch(""), AdminAction::NoContent));
    assert!(matches!(admin_dispatch("!help extra"), AdminAction::Unknown));
    match admin_dispatch("!schedule set start 07:00 08:00") {
        AdminAction::ScheduleSet {
            field,
            range_begin,
            range_end,
        } => {
            assert_eq!(field, "start");
            assert_eq!(range_begin, "07:00");
            assert_eq!(range_end, "08:00");
        }
        _ => panic!("expected the schedule change"),
    }
    match admin_dispatch("!off_days add Sat") {
        AdminAction::OffDays { action, weekday } => {
            assert_eq!(action, "add");
            assert_eq!(weekday, "Sat");
        }
        _ => panic!("expected the off-day change"),
    }
    assert!(matches!(
        admin_dispatch("!custom_commands list"),
        AdminAction::CustomCommandsList
    ));
    match admin_dispatch("!custom_commands add discord greet hello there") {
        AdminAction::CustomCommands {
            action,
            source,
            name,
        } => {
            assert_eq!(action, "add");
            assert_eq!(source, "discord");
            assert_eq!(name, "greet");
        }
        _ => panic!("expected the custom-command change"),
    }
    assert!(matches!(
        admin_dispatch("!off_days add Sat extra"),
        AdminAction::Unknown
    ));
}
