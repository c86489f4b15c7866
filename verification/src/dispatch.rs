//! The dispatchers: how an inbound message text is split into a command
//! and its argument text, and which built-in or custom handling it selects.
//! The selected action is returned as plain data; carrying it out is the
//! caller's business.

use vstd::prelude::*;

use crate::text::{is_space_char, lower, lower_copy, spec_tokens, str_eq, str_eq_ignore_ascii_case, tokenize};

verus! {

/// The position of the first whitespace character at or after `i`, or the
/// length when none.
pub open spec fn space_pos(s: Seq<char>, i: int) -> int
    decreases s.len() - i,
{
    if i < 0 || i >= s.len() {
        s.len() as int
    } else if is_space_char(s[i]) {
        i
    } else {
        space_pos(s, i + 1)
    }
}

proof fn lemma_space_pos(s: Seq<char>, i: int)
    requires
        0 <= i <= s.len(),
    ensures
        i <= space_pos(s, i) <= s.len(),
    decreases s.len() - i,
{
    if i < s.len() && !is_space_char(s[i]) {
        lemma_space_pos(s, i + 1);
    }
}

fn find_space(s: &str) -> (p: usize)
    ensures
        p == space_pos(s@, 0),
{
    let n = s.unicode_len();
    let mut i: usize = 0;
    while i < n
        invariant
            n == s@.len(),
            i <= n,
            space_pos(s@, 0) == space_pos(s@, i as int),
        decreases n - i,
    {
        let c = s.get_char(i);
        if c == ' ' || c == '\t' || c == '\n' || c == '\r' {
            return i;
        }
        i = i + 1;
    }
    n
}

/// The number of leading whitespace characters.
pub open spec fn leading_spaces(s: Seq<char>) -> int
    decreases s.len(),
{
    if s.len() == 0 || !is_space_char(s[0]) {
        0
    } else {
        1 + leading_spaces(s.drop_first())
    }
}

/// The number of trailing whitespace characters.
pub open spec fn trailing_spaces(s: Seq<char>) -> int
    decreases s.len(),
{
    if s.len() == 0 || !is_space_char(s.last()) {
        0
    } else {
        1 + trailing_spaces(s.drop_last())
    }
}

/// The text with leading and trailing whitespace removed.
pub open spec fn spec_trim(s: Seq<char>) -> Seq<char> {
    let l = leading_spaces(s);
    let r = s.len() - trailing_spaces(s);
    if l <= r {
        s.subrange(l, r)
    } else {
        Seq::empty()
    }
}

proof fn lemma_leading_spaces(s: Seq<char>)
    ensures
        0 <= leading_spaces(s) <= s.len(),
        forall|i: int| 0 <= i < leading_spaces(s) ==> is_space_char(s[i]),
        leading_spaces(s) < s.len() ==> !is_space_char(s[leading_spaces(s)]),
    decreases s.len(),
{
    if s.len() > 0 && is_space_char(s[0]) {
        lemma_leading_spaces(s.drop_first());
        assert forall|i: int| 0 <= i < leading_spaces(s) implies is_space_char(s[i]) by {
            if i > 0 {
                assert(s.drop_first()[i - 1] == s[i]);
                assert(is_space_char(s.drop_first()[i - 1]));
            }
        }
    }
}

proof fn lemma_trailing_spaces(s: Seq<char>)
    ensures
        0 <= trailing_spaces(s) <= s.len(),
        forall|i: int| s.len() - trailing_spaces(s) <= i < s.len() ==> is_space_char(s[i]),
        trailing_spaces(s) < s.len() ==> !is_space_char(s[s.len() - trailing_spaces(s) - 1]),
    decreases s.len(),
{
    if s.len() > 0 && is_space_char(s.last()) {
        lemma_trailing_spaces(s.drop_last());
        assert(forall|i: int| 0 <= i < s.len() - 1 ==> s.drop_last()[i] == s[i]);
    }
}

fn count_leading_spaces(s: &str) -> (r: usize)
    ensures
        r == leading_spaces(s@),
{
    let n = s.unicode_len();
    let mut i: usize = 0;
    proof {
        assert(s@.skip(0) =~= s@);
    }
    while i < n
        invariant
            n == s@.len(),
            i <= n,
            leading_spaces(s@) == i + leading_spaces(s@.skip(i as int)),
            forall|k: int| 0 <= k < i ==> is_space_char(s@[k]),
        decreases n - i,
    {
        let c = s.get_char(i);
        proof {
            assert(s@.skip(i as int)[0] == s@[i as int]);
            assert(s@.skip(i as int).drop_first() =~= s@.skip(i + 1));
        }
        if !(c == ' ' || c == '\t' || c == '\n' || c == '\r') {
            return i;
        }
        i = i + 1;
    }
    proof {
        assert(s@.skip(n as int) =~= Seq::<char>::empty());
    }
    n
}

fn count_trailing_spaces(s: &str) -> (r: usize)
    ensures
        r == trailing_spaces(s@),
{
    let n = s.unicode_len();
    let mut i: usize = 0;
    proof {
        assert(s@.take(n as int) =~= s@);
    }
    while i < n
        invariant
            n == s@.len(),
            i <= n,
            trailing_spaces(s@) == i + trailing_spaces(s@.take(n - i)),
        decreases n - i,
    {
        let c = s.get_char(n - i - 1);
        proof {
            assert(s@.take(n - i).last() == s@[n - i - 1]);
            assert(s@.take(n - i).drop_last() =~= s@.take(n - i - 1));
        }
        if !(c == ' ' || c == '\t' || c == '\n' || c == '\r') {
            return i;
        }
        i = i + 1;
    }
    proof {
        assert(s@.take(0) =~= Seq::<char>::empty());
    }
    n
}

/// Strips whitespace from both ends.
pub fn trim(s: &str) -> (r: &str)
    ensures
        r@ == spec_trim(s@),
{
    let n = s.unicode_len();
    let l = count_leading_spaces(s);
    let t = count_trailing_spaces(s);
    proof {
        lemma_leading_spaces(s@);
        lemma_trailing_spaces(s@);
        if l > n - t {
            // The text is all whitespace: both counts cover it entirely.
            assert(is_space_char(s@[leading_spaces(s@) - 1]));
            assert(trailing_spaces(s@) == n) by {
                if trailing_spaces(s@) < n {
                    assert(!is_space_char(s@[n - trailing_spaces(s@) - 1]));
                    assert(n - trailing_spaces(s@) - 1 < leading_spaces(s@));
                }
            }
            assert(leading_spaces(s@) == n) by {
                if leading_spaces(s@) < n {
                    assert(!is_space_char(s@[leading_spaces(s@)]));
                    assert(leading_spaces(s@) >= n - trailing_spaces(s@));
                }
            }
        }
    }
    if l >= n - t {
        let r = s.substring_char(0, 0);
        proof {
            assert(r@ =~= spec_trim(s@));
        }
        r
    } else {
        s.substring_char(l, n - t)
    }
}

/// What handling a user-facing message selects.
pub enum UserAction {
    /// The built-in command listing.
    Commands,
    /// The built-in link listing.
    Links,
    /// The built-in schedule report.
    Schedule,
    /// The built-in crate lookup, with its search term.
    Crate(String),
    /// The built-in refusal line, with its trimmed target.
    Ban(String),
    /// A configured command: the lowercased name and the raw argument text.
    Custom { name: String, args: Option<String> },
}

/// The message split at the first whitespace: the lowercased command and
/// the untouched remainder.
pub open spec fn split_command(content: Seq<char>) -> (Seq<char>, Option<Seq<char>>) {
    let p = space_pos(content, 0);
    (
        lower(content.subrange(0, p)),
        if p == content.len() {
            None
        } else {
            Some(content.subrange(p + 1, content.len() as int))
        },
    )
}

/// Which action a user-facing message selects: the built-ins answer only
/// their exact shape; everything else is looked up as a custom command.
pub open spec fn user_action_matches(content: Seq<char>, a: UserAction) -> bool {
    let (cmd, args) = split_command(content);
    if cmd == "!commands"@ && args is None {
        a is Commands
    } else if cmd == "!links"@ && args is None {
        a is Links
    } else if cmd == "!schedule"@ && args is None {
        a is Schedule
    } else if cmd == "!crate"@ && args is Some {
        a matches UserAction::Crate(n) && n@ == args->0
    } else if cmd == "!ban"@ && args is Some {
        a matches UserAction::Ban(t) && t@ == spec_trim(args->0)
    } else {
        a matches UserAction::Custom { name, args: aa } && name@ == cmd && (match (args, aa) {
            (Some(x), Some(y)) => y@ == x,
            (None, None) => true,
            _ => false,
        })
    }
}

/// Selects the action for a user-facing message.
pub fn user_dispatch(content: &str) -> (a: UserAction)
    ensures
        user_action_matches(content@, a),
{
    let n = content.unicode_len();
    let p = find_space(content);
    proof {
        lemma_space_pos(content@, 0);
    }
    let cmd_raw = content.substring_char(0, p);
    let cmd = lower_copy(cmd_raw);
    let args: Option<&str> = if p == n {
        None
    } else {
        Some(content.substring_char(p + 1, n))
    };
    proof {
        lemma_lower_literals();
    }
    if str_eq(cmd.as_str(), "!commands") && args.is_none() {
        UserAction::Commands
    } else if str_eq(cmd.as_str(), "!links") && args.is_none() {
        UserAction::Links
    } else if str_eq(cmd.as_str(), "!schedule") && args.is_none() {
        UserAction::Schedule
    } else if str_eq(cmd.as_str(), "!crate") && args.is_some() {
        match args {
            Some(a) => UserAction::Crate(a.to_owned()),
            None => UserAction::Crate(String::new()),
        }
    } else if str_eq(cmd.as_str(), "!ban") && args.is_some() {
        match args {
            Some(a) => UserAction::Ban(trim(a).to_owned()),
            None => UserAction::Ban(String::new()),
        }
    } else {
        UserAction::Custom {
            name: cmd,
            args: match args {
                Some(a) => Some(a.to_owned()),
                None => None,
            },
        }
    }
}

/// What handling an admin-facing message selects.
pub enum AdminAction {
    /// The message held no token at all.
    NoContent,
    /// The admin help text.
    Help,
    /// Setting one schedule field to a time range.
    ScheduleSet { field: String, range_begin: String, range_end: String },
    /// Adding or removing an off day.
    OffDays { action: String, weekday: String },
    /// Listing the runtime-defined custom commands.
    CustomCommandsList,
    /// Adding or removing a runtime-defined custom command.
    CustomCommands { action: String, source: String, name: String },
    /// Nothing recognized.
    Unknown,
}

/// Which action an admin-facing message selects, judged on its whitespace
/// tokens: the command token is compared lowercased, its arguments exactly.
pub open spec fn admin_action_matches(toks: Seq<Seq<char>>, a: AdminAction) -> bool {
    if toks.len() == 0 {
        a is NoContent
    } else {
        let c = lower(toks[0]);
        if c == "!help"@ && toks.len() == 1 {
            a is Help
        } else if c == "!schedule"@ && toks.len() >= 5 && toks[1] == "set"@ {
            a matches AdminAction::ScheduleSet { field, range_begin, range_end } && field@
                == toks[2] && range_begin@ == toks[3] && range_end@ == toks[4]
        } else if c == "!off_days"@ && toks.len() == 3 {
            a matches AdminAction::OffDays { action, weekday } && action@ == toks[1] && weekday@
                == toks[2]
        } else if c == "!custom_commands"@ && toks.len() == 2 && toks[1] == "list"@ {
            a is CustomCommandsList
        } else if c == "!custom_commands"@ && toks.len() >= 4 {
            a matches AdminAction::CustomCommands { action, source, name } && action@ == toks[1]
                && source@ == toks[2] && name@ == toks[3]
        } else {
            a is Unknown
        }
    }
}

proof fn lemma_lower_literals()
    ensures
        lower("!commands"@) == "!commands"@,
        lower("!links"@) == "!links"@,
        lower("!schedule"@) == "!schedule"@,
        lower("!crate"@) == "!crate"@,
        lower("!ban"@) == "!ban"@,
        lower("!help"@) == "!help"@,
        lower("!off_days"@) == "!off_days"@,
        lower("!custom_commands"@) == "!custom_commands"@,
{
    reveal_strlit("!commands");
    reveal_strlit("!links");
    reveal_strlit("!schedule");
    reveal_strlit("!crate");
    reveal_strlit("!ban");
    reveal_strlit("!help");
    reveal_strlit("!off_days");
    reveal_strlit("!custom_commands");
    assert(lower("!commands"@) =~= "!commands"@);
    assert(lower("!links"@) =~= "!links"@);
    assert(lower("!schedule"@) =~= "!schedule"@);
    assert(lower("!crate"@) =~= "!crate"@);
    assert(lower("!ban"@) =~= "!ban"@);
    assert(lower("!help"@) =~= "!help"@);
    assert(lower("!off_days"@) =~= "!off_days"@);
    assert(lower("!custom_commands"@) =~= "!custom_commands"@);
}

/// Selects the action for an admin-facing message.
pub fn admin_dispatch(content: &str) -> (a: AdminAction)
    ensures
        admin_action_matches(spec_tokens(content@), a),
{
    let toks = tokenize(content);
    proof {
        lemma_lower_literals();
        assert(forall|k: int| 0 <= k < toks@.len() ==> toks.deep_view()[k] == #[trigger] toks@[k]@);
    }
    if toks.len() == 0 {
        return AdminAction::NoContent;
    }
    let c = toks[0].as_str();
    if str_eq_ignore_ascii_case(c, "!help") && toks.len() == 1 {
        AdminAction::Help
    } else if str_eq_ignore_ascii_case(c, "!schedule") && toks.len() >= 5
        && str_eq(toks[1].as_str(), "set") {
        AdminAction::ScheduleSet {
            field: toks[2].clone(),
            range_begin: toks[3].clone(),
            range_end: toks[4].clone(),
        }
    } else if str_eq_ignore_ascii_case(c, "!off_days") && toks.len() == 3 {
        AdminAction::OffDays { action: toks[1].clone(), weekday: toks[2].clone() }
    } else if str_eq_ignore_ascii_case(c, "!custom_commands") && toks.len() == 2
        && str_eq(toks[1].as_str(), "list") {
        AdminAction::CustomCommandsList
    } else if str_eq_ignore_ascii_case(c, "!custom_commands") && toks.len() >= 4 {
        AdminAction::CustomCommands {
            action: toks[1].clone(),
            source: toks[2].clone(),
            name: toks[3].clone(),
        }
    } else {
        AdminAction::Unknown
    }
}

} // verus!
