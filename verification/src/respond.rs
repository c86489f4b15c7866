//! The response pipeline: platform eligibility, the cooldown gate, template
//! selection, greedy argument binding, per-argument processing and strict
//! template rendering.
//!
//! The pipeline runs in two phases so that no caller holds the cooldown
//! state across a network suspension: [`Command::respond`] performs every
//! decision up to and including argument binding and hands back either a
//! finished response or the reachability probes still needed;
//! [`PendingReply::resolve`] turns the probe outcomes into the final
//! response.

use vstd::prelude::*;

use crate::commands::{Type, TypeView};
use crate::cooldown::{gate_allows, CooldownState};
use crate::grammar::{ArgView, Argument};
use crate::template::{render, slots_ok, spec_render};
use crate::text::{join_tokens, spec_join, spec_tokens, tokenize};
use crate::Source;

verus! {

/// A response to a user-facing command.
pub enum UserResponse {
    /// The rendered response text.
    Custom(String),
    /// Silent refusal: platform mismatch, cooldown active, or no template.
    Unknown,
    /// The invocation was recognized but its arguments were unusable.
    WrongArgs,
    /// The listing of available command names.
    Commands(Vec<String>),
    /// The configured name-to-URL link list.
    Links(Vec<(String, String)>),
    /// The streaming schedule.
    Schedule { start: String, finish: String, off_days: Vec<String> },
}

/// A response template: one universal string, or one per platform.
#[derive(Clone, Debug)]
pub enum FormatString {
    Universal(String),
    Specific(Vec<(Source, String)>),
}

/// The first template configured for `src`, when any.
pub open spec fn spec_lookup(m: Seq<(Source, String)>, src: Source) -> Option<Seq<char>>
    decreases m.len(),
{
    if m.len() == 0 {
        None
    } else if m[0].0 == src {
        Some(m[0].1@)
    } else {
        spec_lookup(m.drop_first(), src)
    }
}

fn lookup_template(m: &Vec<(Source, String)>, src: Source) -> (r: Option<String>)
    ensures
        match r {
            Some(s) => spec_lookup(m@, src) is Some && s@ == spec_lookup(m@, src)->0,
            None => spec_lookup(m@, src) is None,
        },
{
    let n = m.len();
    let mut i: usize = 0;
    proof {
        assert(m@.skip(0) =~= m@);
    }
    while i < n
        invariant
            n == m.len(),
            i <= n,
            spec_lookup(m@, src) == spec_lookup(m@.skip(i as int), src),
        decreases n - i,
    {
        proof {
            assert(m@.skip(i as int)[0] == m@[i as int]);
            assert(m@.skip(i as int).drop_first() =~= m@.skip(i + 1));
        }
        if m[i].0 == src {
            return Some(m[i].1.clone());
        }
        i = i + 1;
    }
    None
}

/// A command definition: the ordered argument specifications, the response
/// template(s), an optional cooldown in seconds, alias names, and the
/// platforms the command answers on.
#[derive(Clone, Debug)]
pub struct Command {
    pub args: Option<Vec<Argument>>,
    pub format: Option<FormatString>,
    pub cooldown: Option<u32>,
    pub aliases: Option<Vec<String>>,
    pub platforms: Vec<Source>,
}

/// The platforms a command answers on by default: all of them.
pub fn all_platforms() -> (r: Vec<Source>)
    ensures
        r@ =~= seq![Source::Discord, Source::Twitch],
{
    let mut v: Vec<Source> = Vec::new();
    v.push(Source::Discord);
    v.push(Source::Twitch);
    v
}

/// One bound argument awaiting final processing.
pub enum BoundItem {
    /// A value that needs no probe.
    Ready(String),
    /// A value contingent on a URL probe: `url` is fetched; a success
    /// yields `on_pass`, a failure yields `on_fail`, or fails the whole
    /// response when none is configured.
    Probe { url: String, on_pass: String, on_fail: Option<String> },
}

/// How an argument specification turns a bound candidate into an item.
pub open spec fn item_for(a: ArgView, cand: Seq<char>, item: BoundItem) -> bool {
    match a {
        ArgView::Simple(_) => item matches BoundItem::Ready(v) && v@ == cand,
        ArgView::Test(t) => match t {
            TypeView::FreeText(_) => item matches BoundItem::Ready(v) && v@ == cand,
            TypeView::UrlBacked(s, _) => item matches BoundItem::Probe { url, on_pass, on_fail }
                && url@ == spec_render(s, seq![cand]) && on_pass@ == cand && on_fail is None,
        },
        ArgView::Format(t) => match t {
            TypeView::FreeText(_) => item matches BoundItem::Ready(v) && v@ == cand,
            TypeView::UrlBacked(s, f) => item matches BoundItem::Probe { url, on_pass, on_fail }
                && url@ == spec_render(s, seq![cand]) && on_pass@ == spec_render(s, seq![cand])
                && (match (f, on_fail) {
                    (Some(ft), Some(of)) => of@ == spec_render(ft, seq![cand]),
                    (None, None) => true,
                    _ => false,
                }),
        },
    }
}

/// Greedy, order-preserving binding: each specification consumes exactly
/// its wanted token count from the front of the stream, joined with single
/// spaces; exhaustion fails the whole binding; excess tokens are ignored.
pub open spec fn spec_bind(specs: Seq<ArgView>, toks: Seq<Seq<char>>) -> Option<Seq<Seq<char>>>
    decreases specs.len(),
{
    if specs.len() == 0 {
        Some(Seq::empty())
    } else {
        let w = specs[0].ty().wanted();
        if toks.len() < w {
            None
        } else {
            match spec_bind(specs.drop_first(), toks.skip(w)) {
                None => None,
                Some(rest) => Some(seq![spec_join(toks.take(w))] + rest),
            }
        }
    }
}

/// The total token demand of the specifications.
pub open spec fn total_wanted(specs: Seq<ArgView>) -> int
    decreases specs.len(),
{
    if specs.len() == 0 {
        0
    } else {
        specs[0].ty().wanted() + total_wanted(specs.drop_first())
    }
}

proof fn lemma_total_wanted_at_least_len(specs: Seq<ArgView>)
    requires
        forall|k: int| 0 <= k < specs.len() ==> (#[trigger] specs[k]).wf(),
    ensures
        total_wanted(specs) >= specs.len(),
    decreases specs.len(),
{
    if specs.len() > 0 {
        assert(specs[0].wf());
        assert(forall|k: int|
            0 <= k < specs.drop_first().len() ==> specs.drop_first()[k] == specs[k + 1]);
        lemma_total_wanted_at_least_len(specs.drop_first());
    }
}

/// Binding well-formed specifications succeeds exactly when the token
/// stream covers their total demand: never on fewer tokens, and excess
/// tokens are no obstacle.
pub proof fn lemma_bind_succeeds_iff_enough_tokens(specs: Seq<ArgView>, toks: Seq<Seq<char>>)
    requires
        forall|k: int| 0 <= k < specs.len() ==> (#[trigger] specs[k]).wf(),
    ensures
        spec_bind(specs, toks) is Some <==> toks.len() >= total_wanted(specs),
    decreases specs.len(),
{
    if specs.len() > 0 {
        let w = specs[0].ty().wanted();
        assert(specs[0].wf());
        assert(forall|k: int|
            0 <= k < specs.drop_first().len() ==> specs.drop_first()[k] == specs[k + 1]);
        lemma_total_wanted_at_least_len(specs.drop_first());
        if toks.len() >= w {
            lemma_bind_succeeds_iff_enough_tokens(specs.drop_first(), toks.skip(w));
        }
    }
}

/// The token offset where the binding of specification `k` begins: the
/// total demand of the specifications before it.
pub open spec fn bind_offset(specs: Seq<ArgView>, k: int) -> int {
    total_wanted(specs.take(k))
}

/// Binding is order-preserving and greedy: the candidate bound to the
/// `k`-th specification is exactly its wanted count of consecutive tokens,
/// starting where the previous specifications end, joined with single
/// spaces; no backtracking and no reordering.
pub proof fn lemma_bind_greedy(specs: Seq<ArgView>, toks: Seq<Seq<char>>)
    requires
        forall|k: int| 0 <= k < specs.len() ==> (#[trigger] specs[k]).wf(),
        spec_bind(specs, toks) is Some,
    ensures
        spec_bind(specs, toks)->0.len() == specs.len(),
        forall|k: int| 0 <= k < specs.len() ==> spec_bind(specs, toks)->0[k] == spec_join(
            toks.subrange(bind_offset(specs, k), bind_offset(specs, k) + specs[k].ty().wanted()),
        ),
    decreases specs.len(),
{
    if specs.len() > 0 {
        let w = specs[0].ty().wanted();
        assert(specs[0].wf());
        let tail = specs.drop_first();
        assert(forall|k: int| 0 <= k < tail.len() ==> tail[k] == specs[k + 1]);
        let cands = spec_bind(specs, toks)->0;
        let rest = spec_bind(tail, toks.skip(w))->0;
        lemma_bind_greedy(tail, toks.skip(w));
        lemma_bind_succeeds_iff_enough_tokens(tail, toks.skip(w));
        lemma_total_wanted_at_least_len(tail);
        assert(cands == seq![spec_join(toks.take(w))] + rest);
        assert forall|k: int| 0 <= k < specs.len() implies cands[k] == spec_join(
            toks.subrange(bind_offset(specs, k), bind_offset(specs, k) + specs[k].ty().wanted()),
        ) by {
            if k == 0 {
                assert(specs.take(0) =~= Seq::<ArgView>::empty());
                assert(bind_offset(specs, 0) == 0);
                assert(toks.subrange(0, w) =~= toks.take(w));
                assert(cands[0] == spec_join(toks.take(w)));
            } else {
                assert(cands[k] == rest[k - 1]);
                assert(tail[k - 1] == specs[k]);
                let off = bind_offset(tail, k - 1);
                let wk = specs[k].ty().wanted();
                assert(rest[k - 1] == spec_join(toks.skip(w).subrange(off, off + wk)));
                assert(specs.take(k)[0] == specs[0]);
                assert(specs.take(k).drop_first() =~= tail.take(k - 1));
                assert(bind_offset(specs, k) == w + off);
                // The offsets stay within the tokens that binding consumed.
                assert(forall|j: int| 0 <= j < tail.take(k - 1).len() ==> tail.take(k - 1)[j]
                    == tail[j]);
                lemma_total_wanted_at_least_len(tail.take(k - 1));
                lemma_bind_offset_bound(tail, toks.skip(w), k - 1);
                assert(toks.skip(w).subrange(off, off + wk) =~= toks.subrange(w + off, w + off
                    + wk));
            }
        }
    }
}

proof fn lemma_bind_offset_bound(specs: Seq<ArgView>, toks: Seq<Seq<char>>, k: int)
    requires
        forall|j: int| 0 <= j < specs.len() ==> (#[trigger] specs[j]).wf(),
        spec_bind(specs, toks) is Some,
        0 <= k < specs.len(),
    ensures
        0 <= bind_offset(specs, k),
        bind_offset(specs, k) + specs[k].ty().wanted() <= toks.len(),
    decreases k,
{
    assert(forall|j: int| 0 <= j < specs.take(k).len() ==> specs.take(k)[j] == specs[j]);
    lemma_total_wanted_at_least_len(specs.take(k));
    if k == 0 {
        assert(specs.take(0) =~= Seq::<ArgView>::empty());
        assert(specs[0].wf());
    } else {
        let w = specs[0].ty().wanted();
        assert(specs[0].wf());
        let tail = specs.drop_first();
        assert(forall|j: int| 0 <= j < tail.len() ==> tail[j] == specs[j + 1]);
        lemma_bind_offset_bound(tail, toks.skip(w), k - 1);
        assert(specs.take(k)[0] == specs[0]);
        assert(specs.take(k).drop_first() =~= tail.take(k - 1));
        assert(bind_offset(specs, k) == w + bind_offset(tail, k - 1));
        assert(tail[k - 1] == specs[k]);
    }
}

/// The number of probes among the items.
pub open spec fn probe_count(items: Seq<BoundItem>) -> int
    decreases items.len(),
{
    if items.len() == 0 {
        0
    } else {
        (if items[0] is Probe {
            1int
        } else {
            0int
        }) + probe_count(items.drop_first())
    }
}

pub proof fn lemma_probe_count_bounds(items: Seq<BoundItem>)
    ensures
        0 <= probe_count(items) <= items.len(),
    decreases items.len(),
{
    if items.len() > 0 {
        lemma_probe_count_bounds(items.drop_first());
    }
}

/// The processed values, given the probe outcomes in probe order: a ready
/// item passes through, a passed probe yields its success value, a failed
/// one its failure value, or fails everything when none is configured.
pub open spec fn spec_values(items: Seq<BoundItem>, res: Seq<bool>) -> Option<Seq<Seq<char>>>
    decreases items.len(),
{
    if items.len() == 0 {
        Some(Seq::empty())
    } else {
        match items[0] {
            BoundItem::Ready(v) => match spec_values(items.drop_first(), res) {
                Some(rest) => Some(seq![v@] + rest),
                None => None,
            },
            BoundItem::Probe { url, on_pass, on_fail } => if res.len() == 0 {
                None
            } else if res[0] {
                match spec_values(items.drop_first(), res.drop_first()) {
                    Some(rest) => Some(seq![on_pass@] + rest),
                    None => None,
                }
            } else {
                match on_fail {
                    Some(of) => match spec_values(items.drop_first(), res.drop_first()) {
                        Some(rest) => Some(seq![of@] + rest),
                        None => None,
                    },
                    None => None,
                }
            },
        }
    }
}

/// What resolving pending items with the probe outcomes must produce.
pub open spec fn resolve_post(template: Seq<char>, items: Seq<BoundItem>, res: Seq<bool>, r: UserResponse) -> bool {
    match spec_values(items, res) {
        None => r is WrongArgs,
        Some(vals) => if slots_ok(template, vals.len() as int) {
            r matches UserResponse::Custom(s) && s@ == spec_render(template, vals)
        } else {
            r is WrongArgs
        },
    }
}

/// A response awaiting the outcomes of its reachability probes.
pub struct PendingReply {
    pub template: String,
    pub items: Vec<BoundItem>,
}

/// The URLs of the probes among the items, in order.
pub open spec fn urls_of(items: Seq<BoundItem>) -> Seq<Seq<char>>
    decreases items.len(),
{
    if items.len() == 0 {
        Seq::empty()
    } else {
        let rest = urls_of(items.drop_first());
        match items[0] {
            BoundItem::Probe { url, on_pass, on_fail } => seq![url@] + rest,
            BoundItem::Ready(_) => rest,
        }
    }
}

impl PendingReply {
    /// The URLs whose reachability must be probed, in the order their
    /// outcomes are consumed by [`PendingReply::resolve`].
    pub fn probe_urls(&self) -> (r: Vec<String>)
        ensures
            r.deep_view() == urls_of(self.items@),
            r.len() == probe_count(self.items@),
    {
        let n = self.items.len();
        let mut out: Vec<String> = Vec::new();
        let mut i: usize = 0;
        proof {
            assert(self.items@.skip(0) =~= self.items@);
            assert(out.deep_view() + urls_of(self.items@) =~= urls_of(self.items@));
        }
        while i < n
            invariant
                n == self.items.len(),
                i <= n,
                out.deep_view() + urls_of(self.items@.skip(i as int)) == urls_of(self.items@),
                out.len() + probe_count(self.items@.skip(i as int)) == probe_count(self.items@),
            decreases n - i,
        {
            proof {
                assert(self.items@.skip(i as int)[0] == self.items@[i as int]);
                assert(self.items@.skip(i as int).drop_first() =~= self.items@.skip(i + 1));
            }
            match &self.items[i] {
                BoundItem::Probe { url, on_pass: _, on_fail: _ } => {
                    out.push(url.clone());
                    proof {
                        assert(out.deep_view() + urls_of(self.items@.skip(i + 1)) =~= urls_of(
                            self.items@,
                        ));
                    }
                },
                BoundItem::Ready(_) => {
                    proof {
                        assert(out.deep_view() + urls_of(self.items@.skip(i + 1)) =~= urls_of(
                            self.items@,
                        ));
                    }
                },
            }
            i = i + 1;
        }
        proof {
            assert(urls_of(self.items@.skip(n as int)) =~= Seq::<Seq<char>>::empty());
            assert(out.deep_view() =~= urls_of(self.items@));
            lemma_probe_count_bounds(self.items@);
        }
        out
    }

    /// Turns the probe outcomes, one per probe in order, into the final
    /// response: processed values substituted into the template, or
    /// `WrongArgs` on a failed probe without a failure value or on a
    /// placeholder mismatch.
    pub fn resolve(&self, results: &Vec<bool>) -> (r: UserResponse)
        requires
            results.len() == probe_count(self.items@),
        ensures
            resolve_post(self.template@, self.items@, results@, r),
    {
        let n = self.items.len();
        let mut vals: Vec<String> = Vec::new();
        let mut used: usize = 0;
        let mut i: usize = 0;
        proof {
            assert(self.items@.skip(0) =~= self.items@);
            assert(results@.skip(0) =~= results@);
            lemma_probe_count_bounds(self.items@);
            match spec_values(self.items@, results@) {
                Some(rest) => {
                    assert(vals.deep_view() + rest =~= rest);
                },
                None => {},
            }
        }
        while i < n
            invariant
                n == self.items.len(),
                results.len() == probe_count(self.items@),
                i <= n,
                used <= results.len(),
                used + probe_count(self.items@.skip(i as int)) == results.len(),
                match spec_values(self.items@.skip(i as int), results@.skip(used as int)) {
                    Some(rest) => spec_values(self.items@, results@) == Some(
                        vals.deep_view() + rest,
                    ),
                    None => spec_values(self.items@, results@) is None,
                },
            decreases n - i,
        {
            proof {
                assert(self.items@.skip(i as int)[0] == self.items@[i as int]);
                assert(self.items@.skip(i as int).drop_first() =~= self.items@.skip(i + 1));
                lemma_probe_count_bounds(self.items@.skip(i + 1));
            }
            match &self.items[i] {
                BoundItem::Ready(v) => {
                    vals.push(v.clone());
                    proof {
                        assert(results@.skip(used as int).len() > 0 || true);
                        match spec_values(self.items@.skip(i + 1), results@.skip(used as int)) {
                            Some(rest) => {
                                assert(vals.deep_view() =~= vals.deep_view());
                                assert(spec_values(self.items@, results@) matches Some(all)
                                    && all =~= vals.deep_view() + rest);
                            },
                            None => {},
                        }
                    }
                },
                BoundItem::Probe { url: _, on_pass, on_fail } => {
                    proof {
                        assert(probe_count(self.items@.skip(i as int)) >= 1);
                        assert(results@.skip(used as int)[0] == results@[used as int]);
                        assert(results@.skip(used as int).drop_first() =~= results@.skip(
                            used + 1,
                        ));
                    }
                    let ok = results[used];
                    if ok {
                        vals.push(on_pass.clone());
                    } else {
                        match on_fail {
                            Some(of) => {
                                vals.push(of.clone());
                            },
                            None => {
                                return UserResponse::WrongArgs;
                            },
                        }
                    }
                    used = used + 1;
                    proof {
                        match spec_values(self.items@.skip(i + 1), results@.skip(used as int)) {
                            Some(rest) => {
                                assert(spec_values(self.items@, results@) matches Some(all)
                                    && all =~= vals.deep_view() + rest);
                            },
                            None => {},
                        }
                    }
                },
            }
            i = i + 1;
        }
        proof {
            assert(spec_values(self.items@.skip(n as int), results@.skip(used as int))
                == Some(Seq::<Seq<char>>::empty()));
            assert(vals.deep_view() + Seq::<Seq<char>>::empty() =~= vals.deep_view());
        }
        match render(self.template.as_str(), &vals) {
            Some(s) => UserResponse::Custom(s),
            None => UserResponse::WrongArgs,
        }
    }
}

/// A first-phase result: a finished response, or one pending its probes.
pub enum Reply {
    Done(UserResponse),
    Pending(PendingReply),
}

/// Platform filtering: a command not configured for the invoking platform
/// always answers with the silent refusal, whatever the arguments and the
/// cooldown state, and leaves the cooldown state untouched.
pub proof fn lemma_platform_filtering(
    cmd: Command,
    name: Seq<char>,
    args: Option<Seq<char>>,
    m0: Map<Seq<char>, int>,
    source: Source,
    now: int,
    r: Reply,
)
    requires
        !cmd.platforms@.contains(source),
        cmd.reply_post(name, args, m0, source, now, r),
    ensures
        r == Reply::Done(UserResponse::Unknown),
        cmd.state_after(m0, name, source, now) == m0,
{
}

pub(crate) fn contains_source(v: &Vec<Source>, s: Source) -> (r: bool)
    ensures
        r == v@.contains(s),
{
    let n = v.len();
    let mut i: usize = 0;
    while i < n
        invariant
            n == v.len(),
            i <= n,
            forall|j: int| 0 <= j < i ==> v@[j] != s,
        decreases n - i,
    {
        if v[i] == s {
            return true;
        }
        i = i + 1;
    }
    proof {
        assert(!v@.contains(s));
    }
    false
}

impl Command {
    /// The configuration invariant: a positive cooldown when one is set,
    /// and well-formed argument types.
    pub open spec fn wf(self) -> bool {
        &&& match self.cooldown {
            Some(c) => c > 0,
            None => true,
        }
        &&& match self.args {
            Some(v) => forall|i: int| 0 <= i < v.len() ==> v[i]@.wf(),
            None => true,
        }
    }

    pub open spec fn platform_ok(self, source: Source) -> bool {
        self.platforms@.contains(source)
    }

    /// Whether the cooldown check lets an invocation at `now` through.
    pub open spec fn gate_ok(self, m: Map<Seq<char>, int>, name: Seq<char>, now: int) -> bool {
        match self.cooldown {
            None => true,
            Some(c) => gate_allows(m, name, c as int, now),
        }
    }

    /// The cooldown state after the cooldown decision.
    pub open spec fn state_after(self, m: Map<Seq<char>, int>, name: Seq<char>, source: Source, now: int) -> Map<Seq<char>, int> {
        if self.platform_ok(source) && self.cooldown is Some && self.gate_ok(m, name, now) {
            m.insert(name, now)
        } else {
            m
        }
    }

    /// The template answering on `source`, when any.
    pub open spec fn template_for(self, source: Source) -> Option<Seq<char>> {
        match self.format {
            None => None,
            Some(FormatString::Universal(s)) => Some(s@),
            Some(FormatString::Specific(m)) => spec_lookup(m@, source),
        }
    }

    /// The views of the argument specifications.
    pub open spec fn arg_views(self) -> Seq<ArgView>
        recommends
            self.args is Some,
    {
        self.args->0@.map_values(|a: Argument| a@)
    }

    /// What the first phase must produce, given the prior cooldown map.
    pub open spec fn reply_post(
        self,
        name: Seq<char>,
        args: Option<Seq<char>>,
        m0: Map<Seq<char>, int>,
        source: Source,
        now: int,
        r: Reply,
    ) -> bool {
        if !self.platform_ok(source) {
            r == Reply::Done(UserResponse::Unknown)
        } else if !self.gate_ok(m0, name, now) {
            r == Reply::Done(UserResponse::Unknown)
        } else {
            match self.template_for(source) {
                None => r == Reply::Done(UserResponse::Unknown),
                Some(t) => match self.args {
                    None => if slots_ok(t, 0) {
                        r matches Reply::Done(UserResponse::Custom(s)) && s@ == spec_render(
                            t,
                            Seq::empty(),
                        )
                    } else {
                        r == Reply::Done(UserResponse::WrongArgs)
                    },
                    Some(specs) => match args {
                        None => r == Reply::Done(UserResponse::WrongArgs),
                        Some(raw) => match spec_bind(self.arg_views(), spec_tokens(raw)) {
                            None => r == Reply::Done(UserResponse::WrongArgs),
                            Some(cands) => r matches Reply::Pending(p) && p.template@ == t
                                && p.items@.len() == cands.len() && cands.len() == specs@.len()
                                && forall|k: int|
                                    0 <= k < cands.len() ==> item_for(
                                        specs@[k]@,
                                        cands[k],
                                        #[trigger] p.items@[k],
                                    ),
                        },
                    },
                },
            }
        }
    }

    /// The first phase of answering a command: platform eligibility, the
    /// cooldown check (which records `now` exactly when it allows), template
    /// selection and greedy argument binding. The result is a finished
    /// refusal or response, or the probes still needed.
    pub fn respond(
        &self,
        name: &str,
        args: Option<&str>,
        state: &mut CooldownState,
        source: Source,
        now: i64,
    ) -> (r: Reply)
        requires
            self.wf(),
            old(state).wf(),
        ensures
            final(state).wf(),
            final(state)@ == self.state_after(old(state)@, name@, source, now as int),
            self.reply_post(
                name@,
                match args {
                    Some(a) => Some(a@),
                    None => None,
                },
                old(state)@,
                source,
                now as int,
                r,
            ),
    {
        if !contains_source(&self.platforms, source) {
            return Reply::Done(UserResponse::Unknown);
        }
        match self.cooldown {
            Some(c) => {
                if !state.check_and_record(name, c, now) {
                    return Reply::Done(UserResponse::Unknown);
                }
            },
            None => {},
        }
        let template: String = match &self.format {
            None => {
                return Reply::Done(UserResponse::Unknown);
            },
            Some(FormatString::Universal(s)) => s.clone(),
            Some(FormatString::Specific(m)) => match lookup_template(m, source) {
                Some(s) => s,
                None => {
                    return Reply::Done(UserResponse::Unknown);
                },
            },
        };
        let specs: &Vec<Argument> = match &self.args {
            None => {
                let vals: Vec<String> = Vec::new();
                proof {
                    assert(vals.deep_view() =~= Seq::<Seq<char>>::empty());
                }
                return match render(template.as_str(), &vals) {
                    Some(s) => Reply::Done(UserResponse::Custom(s)),
                    None => Reply::Done(UserResponse::WrongArgs),
                };
            },
            Some(specs) => specs,
        };
        let raw: &str = match args {
            Some(a) => a,
            None => {
                return Reply::Done(UserResponse::WrongArgs);
            },
        };
        let toks = tokenize(raw);
        let ghost sv = self.arg_views();
        let ghost tv = toks.deep_view();
        let ns = specs.len();
        let mut items: Vec<BoundItem> = Vec::new();
        let ghost mut cands: Seq<Seq<char>> = Seq::empty();
        let mut pos: usize = 0;
        let mut i: usize = 0;
        proof {
            assert(sv.skip(0) =~= sv);
            assert(tv.skip(0) =~= tv);
            match spec_bind(sv, tv) {
                Some(rest) => {
                    assert(cands + rest =~= rest);
                },
                None => {},
            }
        }
        while i < ns
            invariant
                self.wf(),
                state.wf(),
                state@ == self.state_after(old(state)@, name@, source, now as int),
                self.platform_ok(source),
                self.gate_ok(old(state)@, name@, now as int),
                self.template_for(source) matches Some(t0) && t0 == template@,
                match args {
                    Some(a) => a@ == raw@,
                    None => false,
                },
                tv == spec_tokens(raw@),
                self.args matches Some(sp) && sp == *specs,
                ns == specs.len(),
                sv == specs@.map_values(|a: Argument| a@),
                tv == toks.deep_view(),
                i <= ns,
                pos <= toks.len(),
                match spec_bind(sv.skip(i as int), tv.skip(pos as int)) {
                    Some(rest) => spec_bind(sv, tv) == Some(cands + rest),
                    None => spec_bind(sv, tv) is None,
                },
                items@.len() == i,
                cands.len() == i,
                forall|k: int| 0 <= k < i ==> item_for(sv[k], cands[k], #[trigger] items@[k]),
            decreases ns - i,
        {
            proof {
                assert(specs@[i as int]@.wf());
                assert(sv[i as int] == specs@[i as int]@);
                assert(sv.skip(i as int)[0] == sv[i as int]);
                assert(sv.skip(i as int).drop_first() =~= sv.skip(i + 1));
            }
            let w = specs[i].get_type().wanted_args();
            if toks.len() - pos < w {
                proof {
                    assert(tv.skip(pos as int).len() < w);
                    assert(spec_bind(sv.skip(i as int), tv.skip(pos as int)) is None);
                }
                return Reply::Done(UserResponse::WrongArgs);
            }
            let cand = join_tokens(&toks, pos, w);
            proof {
                assert(tv.skip(pos as int).take(w as int) =~= tv.subrange(pos as int, pos + w));
                assert(tv.skip(pos as int).skip(w as int) =~= tv.skip(pos + w));
            }
            let item: BoundItem = match &specs[i] {
                Argument::Simple(_) => BoundItem::Ready(cand),
                Argument::Test(t) => match t {
                    Type::FreeText(_) => BoundItem::Ready(cand),
                    Type::UrlBacked(_, _) => {
                        let url = match t.probe_url(cand.as_str()) {
                            Some(u) => u,
                            None => {
                                proof {
                                    assert(false);
                                }
                                String::new()
                            },
                        };
                        BoundItem::Probe { url, on_pass: cand, on_fail: None }
                    },
                },
                Argument::Format(t) => match t {
                    Type::FreeText(_) => BoundItem::Ready(cand),
                    Type::UrlBacked(_, fail) => {
                        let url = match t.probe_url(cand.as_str()) {
                            Some(u) => u,
                            None => {
                                proof {
                                    assert(false);
                                }
                                String::new()
                            },
                        };
                        let on_fail: Option<String> = match fail {
                            Some(_) => match t.format(cand.as_str(), false) {
                                Some(v) => Some(v),
                                None => {
                                    proof {
                                        assert(false);
                                    }
                                    None
                                },
                            },
                            None => None,
                        };
                        BoundItem::Probe { url: url.clone(), on_pass: url, on_fail }
                    },
                },
            };
            items.push(item);
            let ghost cands_next = cands + seq![cand@];
            proof {
                assert(item_for(sv[i as int], cand@, item));
                match spec_bind(sv.skip(i + 1), tv.skip(pos + w)) {
                    Some(rest2) => {
                        assert(cands_next + rest2 =~= cands + (seq![cand@] + rest2));
                    },
                    None => {},
                }
                cands = cands_next;
            }
            pos = pos + w;
            i = i + 1;
        }
        proof {
            assert(sv.skip(ns as int) =~= Seq::<ArgView>::empty());
            assert(cands + Seq::<Seq<char>>::empty() =~= cands);
        }
        Reply::Pending(PendingReply { template, items })
    }
}

} // verus!
