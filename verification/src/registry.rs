//! The command registry: the configured commands by name, lookup by name or
//! alias (without regard to ASCII case), and the user-facing listings.

use vstd::prelude::*;

use crate::cooldown::CooldownState;
use crate::respond::{Command, Reply, UserResponse};
use crate::text::{lower, spec_join_sep, join_with, str_eq_ignore_ascii_case};
use crate::Source;

verus! {

/// A named function reference of the form `@scope/name`.
#[derive(Clone, Debug)]
pub struct NamedFunction(pub String, pub String);

/// A malformed named-function reference.
#[derive(Clone, Copy, Debug, PartialEq, Eq, Structural)]
pub enum NameError {
    /// The reference does not start with `@`.
    MissingAt,
    /// The reference does not hold exactly two path elements.
    WrongPathCount,
}

/// The number of `/` characters in `s`.
pub open spec fn slash_count(s: Seq<char>) -> int
    decreases s.len(),
{
    if s.len() == 0 {
        0
    } else {
        (if s.last() == '/' {
            1int
        } else {
            0int
        }) + slash_count(s.drop_last())
    }
}

/// The position of the first `/` at or after `i`, or the length when none.
pub open spec fn slash_pos(s: Seq<char>, i: int) -> int
    decreases s.len() - i,
{
    if i < 0 || i >= s.len() {
        s.len() as int
    } else if s[i] == '/' {
        i
    } else {
        slash_pos(s, i + 1)
    }
}

proof fn lemma_slash_pos(s: Seq<char>, i: int)
    requires
        0 <= i <= s.len(),
    ensures
        i <= slash_pos(s, i) <= s.len(),
        slash_pos(s, i) < s.len() ==> s[slash_pos(s, i)] == '/',
        forall|j: int| i <= j < slash_pos(s, i) ==> s[j] != '/',
    decreases s.len() - i,
{
    if i < s.len() && s[i] != '/' {
        lemma_slash_pos(s, i + 1);
    }
}

proof fn lemma_slash_count_concat(a: Seq<char>, b: Seq<char>)
    ensures
        slash_count(a + b) == slash_count(a) + slash_count(b),
    decreases b.len(),
{
    if b.len() == 0 {
        assert(a + b =~= a);
    } else {
        assert((a + b).drop_last() =~= a + b.drop_last());
        assert((a + b).last() == b.last());
        lemma_slash_count_concat(a, b.drop_last());
    }
}

proof fn lemma_slash_count_none(s: Seq<char>)
    requires
        forall|i: int| 0 <= i < s.len() ==> s[i] != '/',
    ensures
        slash_count(s) == 0,
    decreases s.len(),
{
    if s.len() > 0 {
        assert(forall|i: int| 0 <= i < s.drop_last().len() ==> s.drop_last()[i] == s[i]);
        lemma_slash_count_none(s.drop_last());
    }
}

impl NamedFunction {
    /// Parses `@scope/name`: the text must start with `@` and hold exactly
    /// one `/`; the two parts around it become the two path elements.
    pub fn parse(s: &str) -> (r: Result<NamedFunction, NameError>)
        ensures
            ({
                let ok = s@.len() >= 1 && s@[0] == '@' && slash_count(s@) == 1;
                match r {
                    Ok(nf) => ok && nf.0@ == s@.subrange(0, slash_pos(s@, 0)) && nf.1@
                        == s@.subrange(slash_pos(s@, 0) + 1, s@.len() as int),
                    Err(NameError::MissingAt) => !(s@.len() >= 1 && s@[0] == '@'),
                    Err(NameError::WrongPathCount) => s@.len() >= 1 && s@[0] == '@'
                        && slash_count(s@) != 1,
                }
            }),
    {
        let n = s.unicode_len();
        if n == 0 {
            return Err(NameError::MissingAt);
        }
        if s.get_char(0) != '@' {
            return Err(NameError::MissingAt);
        }
        let p = count_slashes(s);
        if p != 1 {
            return Err(NameError::WrongPathCount);
        }
        let cut = find_slash(s);
        proof {
            lemma_slash_pos(s@, 0);
            // Exactly one slash in the text, and it stands at `cut`.
            assert(cut < n) by {
                if cut == n {
                    lemma_slash_count_none(s@);
                }
            }
        }
        let head = s.substring_char(0, cut).to_owned();
        let tail = s.substring_char(cut + 1, n).to_owned();
        Ok(NamedFunction(head, tail))
    }
}

fn count_slashes(s: &str) -> (r: usize)
    ensures
        r == slash_count(s@),
{
    let n = s.unicode_len();
    let mut count: usize = 0;
    let mut i: usize = 0;
    while i < n
        invariant
            n == s@.len(),
            i <= n,
            count == slash_count(s@.subrange(0, i as int)),
            count <= i,
        decreases n - i,
    {
        proof {
            assert(s@.subrange(0, i + 1).drop_last() =~= s@.subrange(0, i as int));
        }
        if s.get_char(i) == '/' {
            count = count + 1;
        }
        i = i + 1;
    }
    proof {
        assert(s@.subrange(0, n as int) =~= s@);
    }
    count
}

fn find_slash(s: &str) -> (p: usize)
    ensures
        p == slash_pos(s@, 0),
{
    let n = s.unicode_len();
    let mut i: usize = 0;
    while i < n
        invariant
            n == s@.len(),
            i <= n,
            slash_pos(s@, 0) == slash_pos(s@, i as int),
        decreases n - i,
    {
        if s.get_char(i) == '/' {
            return i;
        }
        i = i + 1;
    }
    n
}

/// The configured name-to-URL links.
#[derive(Clone, Debug)]
pub struct Links(pub Vec<(String, String)>);

/// One configured command: a plain named function, a fixed message, or a
/// full custom command definition.
#[derive(Clone, Debug)]
pub enum CommandItem {
    Function(NamedFunction),
    Message(String),
    Custom(Command),
}

/// The in-memory configuration the engine consumes.
#[derive(Debug)]
pub struct Config {
    pub commands: Vec<(String, CommandItem)>,
    pub links: Links,
}

impl Config {
    /// Every custom command satisfies the configuration invariant.
    pub open spec fn wf(self) -> bool {
        forall|i: int|
            0 <= i < self.commands.len() ==> match #[trigger] self.commands[i].1 {
                CommandItem::Custom(c) => c.wf(),
                _ => true,
            }
    }
}

/// Whether an entry answers to `bare` (compared without regard to ASCII
/// case): by its key, or by one of its aliases.
pub open spec fn entry_answers(entry: (String, CommandItem), bare: Seq<char>) -> bool {
    lower(entry.0@) == lower(bare) || (entry.1 matches CommandItem::Custom(c)
        && c.aliases matches Some(al) && exists|i: int|
        0 <= i < al.len() && lower(#[trigger] al[i]@) == lower(bare))
}

/// The first entry answering to `bare`, when any.
pub open spec fn spec_find(s: Seq<(String, CommandItem)>, bare: Seq<char>) -> Option<(String, CommandItem)>
    decreases s.len(),
{
    if s.len() == 0 {
        None
    } else if entry_answers(s[0], bare) {
        Some(s[0])
    } else {
        spec_find(s.drop_first(), bare)
    }
}

fn alias_matches(al: &Vec<String>, bare: &str) -> (r: bool)
    ensures
        r == exists|i: int| 0 <= i < al.len() && lower(#[trigger] al@[i]@) == lower(bare@),
{
    let n = al.len();
    let mut i: usize = 0;
    while i < n
        invariant
            n == al.len(),
            i <= n,
            forall|j: int| 0 <= j < i ==> lower(#[trigger] al@[j]@) != lower(bare@),
        decreases n - i,
    {
        if str_eq_ignore_ascii_case(al[i].as_str(), bare) {
            return true;
        }
        i = i + 1;
    }
    false
}

fn entry_answers_exec(entry: &(String, CommandItem), bare: &str) -> (r: bool)
    ensures
        r == entry_answers(*entry, bare@),
{
    if str_eq_ignore_ascii_case(entry.0.as_str(), bare) {
        return true;
    }
    match &entry.1 {
        CommandItem::Custom(c) => match &c.aliases {
            Some(al) => alias_matches(al, bare),
            None => false,
        },
        _ => false,
    }
}

/// Finds the first configured command answering to `bare` by name or alias.
pub fn find_command<'a>(commands: &'a Vec<(String, CommandItem)>, bare: &str) -> (r: Option<
    &'a (String, CommandItem)>)
    ensures
        match r {
            Some(e) => spec_find(commands@, bare@) == Some(*e),
            None => spec_find(commands@, bare@) is None,
        },
{
    let n = commands.len();
    let mut i: usize = 0;
    proof {
        assert(commands@.skip(0) =~= commands@);
    }
    while i < n
        invariant
            n == commands.len(),
            i <= n,
            spec_find(commands@, bare@) == spec_find(commands@.skip(i as int), bare@),
        decreases n - i,
    {
        proof {
            assert(commands@.skip(i as int)[0] == commands@[i as int]);
            assert(commands@.skip(i as int).drop_first() =~= commands@.skip(i + 1));
        }
        if entry_answers_exec(&commands[i], bare) {
            return Some(&commands[i]);
        }
        i = i + 1;
    }
    None
}

/// What answering a (possibly prefixed) command name must produce.
pub open spec fn custom_post(
    config: Config,
    name: Seq<char>,
    args: Option<Seq<char>>,
    m0: Map<Seq<char>, int>,
    m1: Map<Seq<char>, int>,
    source: Source,
    now: int,
    r: Reply,
) -> bool {
    if name.len() == 0 || name[0] != '!' {
        r == Reply::Done(UserResponse::Unknown) && m1 == m0
    } else {
        let bare = name.skip(1);
        match spec_find(config.commands@, bare) {
            None => r == Reply::Done(UserResponse::Unknown) && m1 == m0,
            Some(entry) => match entry.1 {
                CommandItem::Message(msg) => (r matches Reply::Done(UserResponse::Custom(s))
                    && s@ == msg@) && m1 == m0,
                CommandItem::Function(_) => r == Reply::Done(UserResponse::Unknown) && m1 == m0,
                CommandItem::Custom(c) => c.reply_post(entry.0@, args, m0, source, now, r) && m1
                    == c.state_after(m0, entry.0@, source, now),
            },
        }
    }
}

/// Answers a user-typed command: the name must carry a `!` prefix; the
/// command found by name or alias answers under its canonical name, a fixed
/// message answers verbatim, and anything else is the silent refusal.
pub fn custom(
    config: &Config,
    state: &mut CooldownState,
    source: Source,
    name: &str,
    args: Option<&str>,
    now: i64,
) -> (r: Reply)
    requires
        config.wf(),
        old(state).wf(),
    ensures
        final(state).wf(),
        custom_post(
            *config,
            name@,
            match args {
                Some(a) => Some(a@),
                None => None,
            },
            old(state)@,
            final(state)@,
            source,
            now as int,
            r,
        ),
{
    let n = name.unicode_len();
    if n == 0 {
        return Reply::Done(UserResponse::Unknown);
    }
    if name.get_char(0) != '!' {
        return Reply::Done(UserResponse::Unknown);
    }
    let bare = name.substring_char(1, n);
    proof {
        assert(bare@ =~= name@.skip(1));
    }
    match find_command(&config.commands, bare) {
        None => Reply::Done(UserResponse::Unknown),
        Some(entry) => {
            proof {
                lemma_spec_find_member(config.commands@, bare@);
                let i = choose|i: int|
                    0 <= i < config.commands@.len() && config.commands@[i] == *entry;
                assert(match config.commands@[i].1 {
                    CommandItem::Custom(c) => c.wf(),
                    _ => true,
                });
            }
            match &entry.1 {
                CommandItem::Message(msg) => Reply::Done(UserResponse::Custom(msg.clone())),
                CommandItem::Function(_) => Reply::Done(UserResponse::Unknown),
                CommandItem::Custom(c) => c.respond(entry.0.as_str(), args, state, source, now),
            }
        },
    }
}

/// How one configured entry appears in the command listing: fixed messages
/// by name; alias-free custom commands by name, on their platforms only;
/// aliased custom commands by name with their alias list appended.
pub open spec fn entry_listing(entry: (String, CommandItem), source: Source) -> Option<Seq<char>> {
    match entry.1 {
        CommandItem::Message(_) => Some(entry.0@),
        CommandItem::Function(_) => None,
        CommandItem::Custom(c) => match c.aliases {
            None => if c.platforms@.contains(source) {
                Some(entry.0@)
            } else {
                None
            },
            Some(al) => if al.len() == 0 {
                Some(entry.0@)
            } else {
                Some(entry.0@ + " (or !"@ + spec_join_sep(al.deep_view(), ", !"@) + ")"@)
            },
        },
    }
}

/// The whole command listing, in configuration order.
pub open spec fn spec_listing(s: Seq<(String, CommandItem)>, source: Source) -> Seq<Seq<char>>
    decreases s.len(),
{
    if s.len() == 0 {
        Seq::empty()
    } else {
        let rest = spec_listing(s.drop_first(), source);
        match entry_listing(s[0], source) {
            Some(x) => seq![x] + rest,
            None => rest,
        }
    }
}

fn entry_listing_exec(entry: &(String, CommandItem), source: Source) -> (r: Option<String>)
    ensures
        match r {
            Some(s) => entry_listing(*entry, source) == Some(s@),
            None => entry_listing(*entry, source) is None,
        },
{
    match &entry.1 {
        CommandItem::Message(_) => Some(entry.0.clone()),
        CommandItem::Function(_) => None,
        CommandItem::Custom(c) => match &c.aliases {
            None => if crate::respond::contains_source(&c.platforms, source) {
                Some(entry.0.clone())
            } else {
                None
            },
            Some(al) => if al.len() == 0 {
                Some(entry.0.clone())
            } else {
                let mut out = entry.0.clone();
                out.append(" (or !");
                out.append(join_with(al, ", !").as_str());
                out.append(")");
                Some(out)
            },
        },
    }
}

/// The names of the commands available on `source`, in configuration order.
pub fn list_command_names(config: &Config, source: Source) -> (r: Vec<String>)
    ensures
        r.deep_view() == spec_listing(config.commands@, source),
{
    let n = config.commands.len();
    let mut out: Vec<String> = Vec::new();
    let mut i: usize = 0;
    proof {
        assert(config.commands@.skip(0) =~= config.commands@);
        assert(out.deep_view() + spec_listing(config.commands@, source) =~= spec_listing(
            config.commands@,
            source,
        ));
    }
    while i < n
        invariant
            n == config.commands.len(),
            i <= n,
            out.deep_view() + spec_listing(config.commands@.skip(i as int), source)
                == spec_listing(config.commands@, source),
        decreases n - i,
    {
        proof {
            assert(config.commands@.skip(i as int)[0] == config.commands@[i as int]);
            assert(config.commands@.skip(i as int).drop_first() =~= config.commands@.skip(i + 1));
        }
        match entry_listing_exec(&config.commands[i], source) {
            Some(s) => {
                out.push(s);
            },
            None => {},
        }
        proof {
            assert(out.deep_view() + spec_listing(config.commands@.skip(i + 1), source)
                =~= spec_listing(config.commands@, source));
        }
        i = i + 1;
    }
    proof {
        assert(spec_listing(config.commands@.skip(n as int), source)
            =~= Seq::<Seq<char>>::empty());
        assert(out.deep_view() =~= spec_listing(config.commands@, source));
    }
    out
}

/// The `!commands` listing as a response.
pub fn commands(config: &Config, source: Source) -> (r: UserResponse)
    ensures
        r matches UserResponse::Commands(names) && names.deep_view() == spec_listing(
            config.commands@,
            source,
        ),
{
    UserResponse::Commands(list_command_names(config, source))
}

/// The `!links` listing: the configured links, whatever the platform.
pub fn links(config: &Config, source: Source) -> (r: UserResponse)
    ensures
        r matches UserResponse::Links(l) && l.deep_view() == config.links.0.deep_view(),
{
    let n = config.links.0.len();
    let mut out: Vec<(String, String)> = Vec::new();
    let mut i: usize = 0;
    proof {
        assert(config.links.0.deep_view().len() == config.links.0@.len());
        assert(out.deep_view() =~= config.links.0.deep_view().take(0));
    }
    while i < n
        invariant
            n == config.links.0.len(),
            i <= n,
            out.deep_view() == config.links.0.deep_view().take(i as int),
        decreases n - i,
    {
        proof {
            assert(out.deep_view().len() == out@.len());
            assert(config.links.0.deep_view().len() == config.links.0@.len());
            assert(out@.len() == i);
        }
        let a = config.links.0[i].0.clone();
        let b = config.links.0[i].1.clone();
        out.push((a, b));
        proof {
            let dv = config.links.0.deep_view();
            assert(out@.len() == i + 1);
            assert(out.deep_view().len() == i + 1);
            assert forall|k: int| 0 <= k < i + 1 implies out.deep_view()[k] == dv.take(i + 1)[k] by {
                assert(out.deep_view()[k] == (out@[k].0.deep_view(), out@[k].1.deep_view()));
                assert(dv[k] == (config.links.0@[k].0@, config.links.0@[k].1@));
                if k < i {
                    assert(out.deep_view()[k] == dv.take(i as int)[k]);
                } else {
                    assert(out@[k].0@ == config.links.0@[k].0@);
                    assert(out@[k].1@ == config.links.0@[k].1@);
                }
            }
            assert(out.deep_view() =~= dv.take(i + 1));
        }
        i = i + 1;
    }
    proof {
        assert(config.links.0.deep_view().take(n as int) =~= config.links.0.deep_view());
    }
    UserResponse::Links(out)
}

/// A found entry is one of the configured entries.
proof fn lemma_spec_find_member(s: Seq<(String, CommandItem)>, bare: Seq<char>)
    ensures
        spec_find(s, bare) matches Some(e) ==> exists|i: int|
            0 <= i < s.len() && s[i] == e,
    decreases s.len(),
{
    if s.len() > 0 {
        lemma_spec_find_member(s.drop_first(), bare);
        if !entry_answers(s[0], bare) {
            match spec_find(s, bare) {
                Some(e) => {
                    let i = choose|i: int|
                        0 <= i < s.drop_first().len() && s.drop_first()[i] == e;
                    assert(s[i + 1] == e);
                },
                None => {},
            }
        }
    }
}

} // verus!
