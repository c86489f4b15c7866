//! The cooldown gate: a per-command-name record of the last execution time,
//! in whole seconds since the Unix epoch.

use vstd::prelude::*;

use crate::text::str_eq;

verus! {

/// The map a list of `(name, timestamp)` entries stands for; a later entry
/// for the same name wins.
pub open spec fn map_of(s: Seq<(Seq<char>, int)>) -> Map<Seq<char>, int>
    decreases s.len(),
{
    if s.len() == 0 {
        Map::empty()
    } else {
        map_of(s.drop_last()).insert(s.last().0, s.last().1)
    }
}

proof fn lemma_map_of_absent(s: Seq<(Seq<char>, int)>, k: Seq<char>)
    requires
        forall|i: int| 0 <= i < s.len() ==> s[i].0 != k,
    ensures
        !map_of(s).contains_key(k),
    decreases s.len(),
{
    if s.len() > 0 {
        assert(forall|i: int| 0 <= i < s.drop_last().len() ==> s.drop_last()[i] == s[i]);
        lemma_map_of_absent(s.drop_last(), k);
    }
}

proof fn lemma_map_of_found(s: Seq<(Seq<char>, int)>, k: Seq<char>, i: int)
    requires
        0 <= i < s.len(),
        s[i].0 == k,
        forall|j: int| i < j < s.len() ==> s[j].0 != k,
    ensures
        map_of(s).contains_key(k),
        map_of(s)[k] == s[i].1,
    decreases s.len(),
{
    if i == s.len() - 1 {
    } else {
        assert(forall|j: int| 0 <= j < s.drop_last().len() ==> s.drop_last()[j] == s[j]);
        lemma_map_of_found(s.drop_last(), k, i);
        assert(s.last().0 != k);
    }
}

proof fn lemma_map_of_update(s: Seq<(Seq<char>, int)>, i: int, v: int)
    requires
        0 <= i < s.len(),
        forall|j: int| 0 <= j < s.len() && j != i ==> s[j].0 != s[i].0,
    ensures
        map_of(s.update(i, (s[i].0, v))) == map_of(s).insert(s[i].0, v),
    decreases s.len(),
{
    let k = s[i].0;
    let u = s.update(i, (k, v));
    if i == s.len() - 1 {
        assert(u.drop_last() =~= s.drop_last());
        assert(u.last() == (k, v));
        assert(map_of(u) == map_of(s.drop_last()).insert(k, v));
        assert(map_of(s.drop_last()).insert(k, s[i].1).insert(k, v) =~= map_of(
            s.drop_last(),
        ).insert(k, v));
    } else {
        assert(forall|j: int| 0 <= j < s.drop_last().len() ==> s.drop_last()[j] == s[j]);
        lemma_map_of_update(s.drop_last(), i, v);
        assert(u.drop_last() =~= s.drop_last().update(i, (k, v)));
        assert(u.last() == s.last());
        assert(s.last().0 != k);
        assert(map_of(s.drop_last()).insert(k, v).insert(s.last().0, s.last().1) =~= map_of(
            s.drop_last(),
        ).insert(s.last().0, s.last().1).insert(k, v));
    }
}

/// Whether an invocation at `now` passes the cooldown check: no prior run
/// is recorded, or the cooldown window since it has fully elapsed.
pub open spec fn gate_allows(m: Map<Seq<char>, int>, name: Seq<char>, cooldown: int, now: int) -> bool {
    !m.contains_key(name) || m[name] + cooldown <= now
}

/// The per-command-name record of last execution times.
pub struct CooldownState {
    entries: Vec<(String, i64)>,
}

impl CooldownState {
    /// One entry per command name.
    pub closed spec fn wf(self) -> bool {
        forall|i: int, j: int|
            0 <= i < j < self.entries.len() ==> self.entries[i].0@ != self.entries[j].0@
    }

    pub closed spec fn view(self) -> Map<Seq<char>, int> {
        map_of(Seq::new(self.entries.len() as nat, |i: int| (self.entries[i].0@, self.entries[i].1 as int)))
    }

    /// An empty record: every command is allowed.
    pub fn new() -> (r: CooldownState)
        ensures
            r.wf(),
            r@ == Map::<Seq<char>, int>::empty(),
    {
        let r = CooldownState { entries: Vec::new() };
        proof {
            assert(Seq::new(r.entries.len() as nat, |i: int| (r.entries[i].0@, r.entries[i].1 as int))
                =~= Seq::<(Seq<char>, int)>::empty());
        }
        r
    }

    /// The single atomic cooldown decision of the response pipeline:
    /// blocked without touching the state when a prior run is within the
    /// cooldown window, else the invocation is recorded at `now` and
    /// allowed.
    pub fn check_and_record(&mut self, name: &str, cooldown: u32, now: i64) -> (allowed: bool)
        requires
            old(self).wf(),
        ensures
            final(self).wf(),
            allowed == gate_allows(old(self)@, name@, cooldown as int, now as int),
            allowed ==> final(self)@ == old(self)@.insert(name@, now as int),
            !allowed ==> final(self)@ == old(self)@,
    {
        let ghost sv = Seq::new(
            self.entries.len() as nat,
            |i: int| (self.entries[i].0@, self.entries[i].1 as int),
        );
        let n = self.entries.len();
        let mut i: usize = 0;
        while i < n
            invariant
                self.entries == old(self).entries,
                old(self).wf(),
                sv == Seq::new(
                    self.entries.len() as nat,
                    |j: int| (self.entries[j].0@, self.entries[j].1 as int),
                ),
                n == self.entries.len(),
                i <= n,
                forall|j: int| 0 <= j < i ==> self.entries[j].0@ != name@,
            decreases n - i,
        {
            if str_eq(self.entries[i].0.as_str(), name) {
                proof {
                    assert forall|j: int| 0 <= j < sv.len() && j != i implies sv[j].0
                        != sv[i as int].0 by {
                        if j < i {
                            assert(self.entries[j].0@ != self.entries[i as int].0@);
                        } else {
                            assert(self.entries[i as int].0@ != self.entries[j].0@);
                        }
                    }
                    assert(forall|j: int| i < j < sv.len() ==> sv[j].0 != name@);
                    lemma_map_of_found(sv, name@, i as int);
                }
                let last = self.entries[i].1;
                if (last as i128) + (cooldown as i128) > (now as i128) {
                    return false;
                }
                let prior = self.entries.remove(i);
                self.entries.insert(i, (prior.0, now));
                proof {
                    let sv2 = Seq::new(
                        self.entries.len() as nat,
                        |j: int| (self.entries[j].0@, self.entries[j].1 as int),
                    );
                    assert(self.entries@ =~= old(self).entries@.update(
                        i as int,
                        (old(self).entries@[i as int].0, now),
                    ));
                    assert(sv2 =~= sv.update(i as int, (sv[i as int].0, now as int)));
                    lemma_map_of_update(sv, i as int, now as int);
                    assert(final(self).wf());
                }
                return true;
            }
            i = i + 1;
        }
        proof {
            lemma_map_of_absent(sv, name@);
        }
        self.entries.push((name.to_owned(), now));
        proof {
            let sv2 = Seq::new(
                self.entries.len() as nat,
                |j: int| (self.entries[j].0@, self.entries[j].1 as int),
            );
            assert(sv2.drop_last() =~= sv);
            assert(sv2.last() == (name@, now as int));
            assert(final(self).wf());
        }
        true
    }
}

} // verus!
