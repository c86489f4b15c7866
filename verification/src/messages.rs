//! The user-facing message texts the platform connectors send: command
//! listings, link lists and schedule summaries, in the plain flavour of the
//! one chat service and the decorated flavour of the other.

use vstd::prelude::*;

use crate::text::{join_with, spec_join_sep};

verus! {

/// The plain command listing.
pub open spec fn spec_commands_message(names: Seq<Seq<char>>) -> Seq<char> {
    "Available commands: !"@ + spec_join_sep(names, ", !"@)
}

/// The plain command listing: every name joined behind one header.
pub fn commands_message(names: &Vec<String>) -> (r: String)
    ensures
        r@ == spec_commands_message(names.deep_view()),
{
    let mut out = String::from_str("Available commands: !");
    out.append(join_with(names, ", !").as_str());
    out
}

/// One link as `name: url`.
pub open spec fn spec_link_line(l: (Seq<char>, Seq<char>)) -> Seq<char> {
    l.0 + ": "@ + l.1
}

/// The plain link list: `name: url`, joined with pipes.
pub open spec fn spec_links_message(ls: Seq<(Seq<char>, Seq<char>)>) -> Seq<char> {
    spec_join_sep(ls.map_values(|l: (Seq<char>, Seq<char>)| spec_link_line(l)), " | "@)
}

fn link_lines(links: &Vec<(String, String)>) -> (r: Vec<String>)
    ensures
        r.deep_view() == links.deep_view().map_values(
            |l: (Seq<char>, Seq<char>)| spec_link_line(l),
        ),
{
    let n = links.len();
    let mut out: Vec<String> = Vec::new();
    let mut i: usize = 0;
    while i < n
        invariant
            n == links.len(),
            i <= n,
            out@.len() == i,
            forall|k: int| 0 <= k < i ==> #[trigger] out@[k]@ == spec_link_line(
                links.deep_view()[k],
            ),
        decreases n - i,
    {
        let mut line = links[i].0.clone();
        line.append(": ");
        line.append(links[i].1.as_str());
        proof {
            assert(links.deep_view()[i as int] == (links@[i as int].0@, links@[i as int].1@));
        }
        out.push(line);
        i = i + 1;
    }
    proof {
        let exp = links.deep_view().map_values(|l: (Seq<char>, Seq<char>)| spec_link_line(l));
        assert forall|k: int| 0 <= k < n implies out.deep_view()[k] == exp[k] by {
            assert(out.deep_view()[k] == out@[k]@);
        }
        assert(out.deep_view() =~= exp);
    }
    out
}

/// The plain link list, joined with pipes.
pub fn links_message(links: &Vec<(String, String)>) -> (r: String)
    ensures
        r@ == spec_links_message(links.deep_view()),
{
    join_with(&link_lines(links), " | ")
}

/// The separator before the day at `i` of `n`: `and` before the final day,
/// a comma between others, nothing before the first of several.
pub open spec fn spec_day_sep(i: int, n: int) -> Seq<char> {
    if i == n - 1 {
        " and "@
    } else if i > 0 {
        ", "@
    } else {
        Seq::empty()
    }
}

/// The off days folded into one phrase, each wrapped in `deco`.
pub open spec fn spec_days_fold(ds: Seq<Seq<char>>, upto: int, deco: Seq<char>) -> Seq<char>
    decreases upto,
{
    if upto <= 0 {
        Seq::empty()
    } else {
        spec_days_fold(ds, upto - 1, deco) + spec_day_sep(upto - 1, ds.len() as int) + deco + ds[
            upto - 1] + deco
    }
}

/// The whole off-day phrase.
pub open spec fn spec_days_message(ds: Seq<Seq<char>>, deco: Seq<char>) -> Seq<char> {
    "Every day, except "@ + spec_days_fold(ds, ds.len() as int, deco)
}

/// The off-day phrase, each day wrapped in `deco` (empty for plain text).
pub fn days_message(off_days: &Vec<String>, deco: &str) -> (r: String)
    requires
        off_days.len() >= 1,
    ensures
        r@ == spec_days_message(off_days.deep_view(), deco@),
{
    let n = off_days.len();
    let mut out = String::from_str("Every day, except ");
    let mut i: usize = 0;
    proof {
        assert(out@ =~= "Every day, except "@ + spec_days_fold(off_days.deep_view(), 0, deco@));
    }
    while i < n
        invariant
            n == off_days.len(),
            i <= n,
            out@ == "Every day, except "@ + spec_days_fold(off_days.deep_view(), i as int, deco@),
        decreases n - i,
    {
        if i == n - 1 {
            out.append(" and ");
        } else if i > 0 {
            out.append(", ");
        }
        out.append(deco);
        out.append(off_days[i].as_str());
        out.append(deco);
        proof {
            let dv = off_days.deep_view();
            assert(dv[i as int] == off_days@[i as int]@);
            assert(out@ =~= "Every day, except "@ + spec_days_fold(dv, i + 1, deco@));
        }
        i = i + 1;
    }
    out
}

/// The plain schedule time phrase.
pub open spec fn spec_time_message(start: Seq<char>, finish: Seq<char>) -> Seq<char> {
    "Starting around "@ + start + ", finishing around "@ + finish
}

/// The plain schedule time phrase.
pub fn time_message(start: &str, finish: &str) -> (r: String)
    ensures
        r@ == spec_time_message(start@, finish@),
{
    let mut out = String::from_str("Starting around ");
    out.append(start);
    out.append(", finishing around ");
    out.append(finish);
    proof {
        assert(out@ =~= spec_time_message(start@, finish@));
    }
    out
}

/// The header above the decorated command listing.
pub open spec fn spec_commands_header() -> Seq<char> {
    "Available commands:\n`!help` (or `!bot`) gives a short info about this bot.\n`!lark` tells **togglebit** that he's a lark.\n`!links` gives you a list of links to sites where **togglebit** is present.\n`!schedule` tells you the Twitch streaming schedule of **togglebit**.\n`!crate` get the link for any existing crate.\n`!ban` refuse anything with the power of Gandalf.\n\nFurther custom commands:\n"@
}

/// One name as an invocable code span.
pub open spec fn spec_backticked(n: Seq<char>) -> Seq<char> {
    "`!"@ + n + "`"@
}

/// The decorated command listing: the header, then every name as a code
/// span, comma-joined.
pub open spec fn spec_commands_message_decorated(names: Seq<Seq<char>>) -> Seq<char> {
    spec_commands_header() + spec_join_sep(
        names.map_values(|n: Seq<char>| spec_backticked(n)),
        ", "@,
    )
}

fn backticked(names: &Vec<String>) -> (r: Vec<String>)
    ensures
        r.deep_view() == names.deep_view().map_values(|n: Seq<char>| spec_backticked(n)),
{
    let n = names.len();
    let mut out: Vec<String> = Vec::new();
    let mut i: usize = 0;
    while i < n
        invariant
            n == names.len(),
            i <= n,
            out@.len() == i,
            forall|k: int| 0 <= k < i ==> #[trigger] out@[k]@ == spec_backticked(
                names.deep_view()[k],
            ),
        decreases n - i,
    {
        let mut line = String::from_str("`!");
        line.append(names[i].as_str());
        line.append("`");
        out.push(line);
        i = i + 1;
    }
    proof {
        let exp = names.deep_view().map_values(|n0: Seq<char>| spec_backticked(n0));
        assert forall|k: int| 0 <= k < n implies out.deep_view()[k] == exp[k] by {
            assert(out.deep_view()[k] == out@[k]@);
        }
        assert(out.deep_view() =~= exp);
    }
    out
}

/// The decorated command listing.
pub fn commands_message_decorated(names: &Vec<String>) -> (r: String)
    ensures
        r@ == spec_commands_message_decorated(names.deep_view()),
{
    let mut out = String::from_str(
        "Available commands:\n`!help` (or `!bot`) gives a short info about this bot.\n`!lark` tells **togglebit** that he's a lark.\n`!links` gives you a list of links to sites where **togglebit** is present.\n`!schedule` tells you the Twitch streaming schedule of **togglebit**.\n`!crate` get the link for any existing crate.\n`!ban` refuse anything with the power of Gandalf.\n\nFurther custom commands:\n",
    );
    out.append(join_with(&backticked(names), ", ").as_str());
    out
}

/// One link as `name: <url>`.
pub open spec fn spec_link_line_decorated(l: (Seq<char>, Seq<char>)) -> Seq<char> {
    l.0 + ": <"@ + l.1 + ">"@
}

/// The decorated link list, one per line.
pub open spec fn spec_links_message_decorated(ls: Seq<(Seq<char>, Seq<char>)>) -> Seq<char> {
    spec_join_sep(ls.map_values(|l: (Seq<char>, Seq<char>)| spec_link_line_decorated(l)), "\n"@)
}

fn link_lines_decorated(links: &Vec<(String, String)>) -> (r: Vec<String>)
    ensures
        r.deep_view() == links.deep_view().map_values(
            |l: (Seq<char>, Seq<char>)| spec_link_line_decorated(l),
        ),
{
    let n = links.len();
    let mut out: Vec<String> = Vec::new();
    let mut i: usize = 0;
    while i < n
        invariant
            n == links.len(),
            i <= n,
            out@.len() == i,
            forall|k: int| 0 <= k < i ==> #[trigger] out@[k]@ == spec_link_line_decorated(
                links.deep_view()[k],
            ),
        decreases n - i,
    {
        let mut line = links[i].0.clone();
        line.append(": <");
        line.append(links[i].1.as_str());
        line.append(">");
        proof {
            assert(links.deep_view()[i as int] == (links@[i as int].0@, links@[i as int].1@));
            assert(line@ =~= spec_link_line_decorated(links.deep_view()[i as int]));
        }
        out.push(line);
        i = i + 1;
    }
    proof {
        let exp = links.deep_view().map_values(
            |l: (Seq<char>, Seq<char>)| spec_link_line_decorated(l),
        );
        assert forall|k: int| 0 <= k < n implies out.deep_view()[k] == exp[k] by {
            assert(out.deep_view()[k] == out@[k]@);
        }
        assert(out.deep_view() =~= exp);
    }
    out
}

/// The decorated link list, one `name: <url>` per line.
pub fn links_message_decorated(links: &Vec<(String, String)>) -> (r: String)
    ensures
        r@ == spec_links_message_decorated(links.deep_view()),
{
    join_with(&link_lines_decorated(links), "\n")
}

/// The decorated schedule time phrase.
pub open spec fn spec_time_message_decorated(start: Seq<char>, finish: Seq<char>) -> Seq<char> {
    "starting around **"@ + start + "**, finishing around **"@ + finish + "**"@
}

/// The decorated schedule time phrase.
pub fn time_message_decorated(start: &str, finish: &str) -> (r: String)
    ensures
        r@ == spec_time_message_decorated(start@, finish@),
{
    let mut out = String::from_str("starting around **");
    out.append(start);
    out.append("**, finishing around **");
    out.append(finish);
    out.append("**");
    proof {
        assert(out@ =~= spec_time_message_decorated(start@, finish@));
    }
    out
}

/// The one-line schedule summary: days, times and timezone, piped.
pub open spec fn spec_schedule_message(days: Seq<char>, time: Seq<char>) -> Seq<char> {
    days + " | "@ + time + " | Timezone CET"@
}

/// The one-line schedule summary: days, times and timezone, piped.
pub fn schedule_message(days: &str, time: &str) -> (r: String)
    ensures
        r@ == spec_schedule_message(days@, time@),
{
    let mut out = String::from_str(days);
    out.append(" | ");
    out.append(time);
    out.append(" | Timezone CET");
    proof {
        assert(out@ =~= spec_schedule_message(days@, time@));
    }
    out
}

} // verus!
