use togglebot::messages::{
    commands_message, commands_message_decorated, days_message, links_message,
    links_message_decorated, schedule_message, time_message, time_message_decorated,
};
use togglebot::respond::UserResponse;
use togglebot::schedule::{schedule, weekday_name, BaseSchedule, State, TimeOfDay, Weekday};

#[test]
fn default_schedule_formats() {
    let state = State::default();
    assert_eq!(state.schedule.format_start(), "07:00~08:00am");
    assert_eq!(state.schedule.format_finish(), "04:00pm");
}

#[test]
fn format_range_pads_and_wraps_noon() {
    let sched = BaseSchedule {
        start: (
            TimeOfDay::new(0, 5, 0).unwrap(),
            TimeOfDay::new(12, 30, 0).unwrap(),
        ),
        finish: (
            TimeOfDay::new(23, 59, 0).unwrap(),
            TimeOfDay::new(23, 59, 0).unwrap(),
        ),
    };
    assert_eq!(sched.format_start(), "12:05~12:30pm");
    assert_eq!(sched.format_finish(), "11:59pm");
}

#[test]
fn time_of_day_rejects_out_of_range() {
    assert!(TimeOfDay::new(24, 0, 0).is_none());
    assert!(TimeOfDay::new(3, 60, 0).is_none());
    assert!(TimeOfDay::new(3, 4, 61).is_none());
}

#[test]
fn schedule_response_names_off_days() {
    let state = State::default();
    match schedule(&state) {
        UserResponse::Schedule {
            start,
            finish,
            off_days,
        } => {
            assert_eq!(start, "07:00~08:00am");
            assert_eq!(finish, "04:00pm");
            assert_eq!(off_days, vec!["Saturday".to_owned(), "Sunday".to_owned()]);
        }
        _ => panic!("expected the schedule response"),
    }
}

#[test]
fn weekday_names_are_full() {
    assert_eq!(weekday_name(Weekday::Mon), "Monday");
    assert_eq!(weekday_name(Weekday::Sun), "Sunday");
}

#[test]
fn plain_messages_format() {
    let names = vec!["a".to_owned(), "b".to_owned()];
    assert_eq!(commands_message(&names), "Available commands: !a, !b");
    let links = vec![
        ("home".to_owned(), "https://example.com".to_owned()),
        ("code".to_owned(), "https://example.org".to_owned()),
    ];
    assert_eq!(
        links_message(&links),
        "home: https://example.com | code: https://example.org"
    );
    let days = vec!["Saturday".to_owned(), "Sunday".to_owned()];
    assert_eq!(
        days_message(&days, ""),
        "Every day, except Saturday and Sunday"
    );
    assert_eq!(
        time_message("07:00am", "04:00pm"),
        "Starting around 07:00am, finishing around 04:00pm"
    );
    assert_eq!(
        schedule_message("days", "times"),
        "days | times | Timezone CET"
    );
}

#[test]
fn decorated_messages_format() {
    let names = vec!["a".to_owned(), "b".to_owned()];
    let msg = commands_message_decorated(&names);
    assert!(msg.starts_with("Available commands:\n"));
    assert!(msg.ends_with("Further custom commands:\n`!a`, `!b`"));
    let links = vec![("home".to_owned(), "https://example.com".to_owned())];
    assert_eq!(links_message_decorated(&links), "home: <https://example.com>");
    let days = vec![
        "Monday".to_owned(),
        "Tuesday".to_owned(),
        "Friday".to_owned(),
    ];
    assert_eq!(
        days_message(&days, "**"),
        "Every day, except **Monday**, **Tuesday** and **Friday**"
    );
    assert_eq!(
        time_message_decorated("07:00am", "04:00pm"),
        "starting around **07:00am**, finishing around **04:00pm**"
    );
}

#[test]
fn cooldown_state_starts_empty() {
    let mut state = State::default();
    assert!(state.last_executed.check_and_record("any", 5, 0));
}
