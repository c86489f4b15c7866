//! Positional response templates.
//!
//! A template is a string with positional placeholders `{0}` through `{9}`.
//! Any other text, including braces that do not form a placeholder, is
//! literal. Substitution is strict: it succeeds exactly when the placeholder
//! indices, read left to right, are `0, 1, ..., n-1` for `n` supplied values.

use vstd::prelude::*;

verus! {

/// One parsed element of a template: a literal character or a placeholder.
pub enum TItem {
    Lit(char),
    Slot(int),
}

pub open spec fn is_digit_char(c: char) -> bool {
    c == '0' || c == '1' || c == '2' || c == '3' || c == '4' || c == '5' || c == '6' || c == '7'
        || c == '8' || c == '9'
}

pub open spec fn digit_val(c: char) -> int {
    if c == '0' { 0 } else if c == '1' { 1 } else if c == '2' { 2 } else if c == '3' { 3 }
    else if c == '4' { 4 } else if c == '5' { 5 } else if c == '6' { 6 } else if c == '7' { 7 }
    else if c == '8' { 8 } else { 9 }
}

/// The template elements from position `i` on.
pub open spec fn scan_from(t: Seq<char>, i: int) -> Seq<TItem>
    decreases t.len() - i,
{
    if i < 0 || i >= t.len() {
        Seq::empty()
    } else if t[i] == '{' && i + 2 < t.len() && is_digit_char(t[i + 1]) && t[i + 2] == '}' {
        seq![TItem::Slot(digit_val(t[i + 1]))] + scan_from(t, i + 3)
    } else {
        seq![TItem::Lit(t[i])] + scan_from(t, i + 1)
    }
}

/// All elements of template `t`.
pub open spec fn spec_items(t: Seq<char>) -> Seq<TItem> {
    scan_from(t, 0)
}

/// The placeholder indices of `items`, in textual order.
pub open spec fn slots_of(items: Seq<TItem>) -> Seq<int>
    decreases items.len(),
{
    if items.len() == 0 {
        Seq::empty()
    } else {
        let rest = slots_of(items.drop_first());
        match items[0] {
            TItem::Slot(k) => seq![k] + rest,
            TItem::Lit(_) => rest,
        }
    }
}

/// Strict substitution succeeds for `n` values exactly when this holds.
pub open spec fn slots_ok(t: Seq<char>, n: int) -> bool {
    slots_of(spec_items(t)) == Seq::new(n as nat, |i: int| i)
}

/// The substituted text; placeholders out of range contribute nothing
/// (rendering never exposes such a result).
pub open spec fn subst_items(items: Seq<TItem>, vals: Seq<Seq<char>>) -> Seq<char>
    decreases items.len(),
{
    if items.len() == 0 {
        Seq::empty()
    } else {
        let rest = subst_items(items.drop_first(), vals);
        match items[0] {
            TItem::Lit(c) => seq![c] + rest,
            TItem::Slot(k) => (if 0 <= k < vals.len() {
                vals[k]
            } else {
                Seq::empty()
            }) + rest,
        }
    }
}

/// The text of template `t` with `vals` substituted for its placeholders.
pub open spec fn spec_render(t: Seq<char>, vals: Seq<Seq<char>>) -> Seq<char> {
    subst_items(spec_items(t), vals)
}

pub proof fn lemma_slots_append(a: Seq<TItem>, b: Seq<TItem>)
    ensures
        slots_of(a + b) == slots_of(a) + slots_of(b),
    decreases a.len(),
{
    if a.len() == 0 {
        assert(a + b =~= b);
        assert(slots_of(a) + slots_of(b) =~= slots_of(b));
    } else {
        lemma_slots_append(a.drop_first(), b);
        assert((a + b).drop_first() =~= a.drop_first() + b);
        assert((a + b)[0] == a[0]);
        assert(slots_of(a + b) =~= slots_of(a) + slots_of(b));
    }
}

pub proof fn lemma_subst_append(a: Seq<TItem>, b: Seq<TItem>, vals: Seq<Seq<char>>)
    ensures
        subst_items(a + b, vals) == subst_items(a, vals) + subst_items(b, vals),
    decreases a.len(),
{
    if a.len() == 0 {
        assert(a + b =~= b);
        assert(subst_items(a, vals) + subst_items(b, vals) =~= subst_items(b, vals));
    } else {
        lemma_subst_append(a.drop_first(), b, vals);
        assert((a + b).drop_first() =~= a.drop_first() + b);
        assert((a + b)[0] == a[0]);
        assert(subst_items(a + b, vals) =~= subst_items(a, vals) + subst_items(b, vals));
    }
}

proof fn lemma_slot_single(k: int)
    ensures
        slots_of(seq![TItem::Slot(k)]) == seq![k],
{
    let s = seq![TItem::Slot(k)];
    assert(s.drop_first() =~= Seq::<TItem>::empty());
    assert(slots_of(s.drop_first()) =~= Seq::<int>::empty());
    assert(slots_of(s) =~= seq![k]);
}

proof fn lemma_lit_single(c: char)
    ensures
        slots_of(seq![TItem::Lit(c)]) == Seq::<int>::empty(),
{
    let s = seq![TItem::Lit(c)];
    assert(s.drop_first() =~= Seq::<TItem>::empty());
    assert(slots_of(s.drop_first()) =~= Seq::<int>::empty());
    assert(slots_of(s) =~= Seq::<int>::empty());
}

proof fn lemma_subst_slot_single(k: int, vals: Seq<Seq<char>>)
    ensures
        subst_items(seq![TItem::Slot(k)], vals) == (if 0 <= k < vals.len() {
            vals[k]
        } else {
            Seq::<char>::empty()
        }),
{
    let s = seq![TItem::Slot(k)];
    assert(s.drop_first() =~= Seq::<TItem>::empty());
    assert(subst_items(s.drop_first(), vals) =~= Seq::<char>::empty());
    if 0 <= k < vals.len() {
        assert(subst_items(s, vals) =~= vals[k]);
    } else {
        assert(subst_items(s, vals) =~= Seq::<char>::empty());
    }
}

proof fn lemma_subst_lit_single(c: char, vals: Seq<Seq<char>>)
    ensures
        subst_items(seq![TItem::Lit(c)], vals) == seq![c],
{
    let s = seq![TItem::Lit(c)];
    assert(s.drop_first() =~= Seq::<TItem>::empty());
    assert(subst_items(s.drop_first(), vals) =~= Seq::<char>::empty());
    assert(subst_items(s, vals) =~= seq![c]);
}

fn digit_val_exec(c: char) -> (r: usize)
    requires
        is_digit_char(c),
    ensures
        r == digit_val(c),
{
    if c == '0' { 0 } else if c == '1' { 1 } else if c == '2' { 2 } else if c == '3' { 3 }
    else if c == '4' { 4 } else if c == '5' { 5 } else if c == '6' { 6 } else if c == '7' { 7 }
    else if c == '8' { 8 } else { 9 }
}

/// Renders template `t` with `vals`: `Some` exactly when the placeholder
/// indices are `0..vals.len()` in order, and then the substituted text.
pub fn render(t: &str, vals: &Vec<String>) -> (r: Option<String>)
    ensures
        r is Some <==> slots_ok(t@, vals.len() as int),
        r is Some ==> r->0@ == spec_render(t@, vals.deep_view()),
{
    let n = t.unicode_len();
    let mut out = String::new();
    let mut next: usize = 0;
    let mut i: usize = 0;
    let ghost mut done: Seq<TItem> = Seq::empty();
    while i < n
        invariant
            n == t@.len(),
            i <= n,
            next <= vals.len(),
            spec_items(t@) == done + scan_from(t@, i as int),
            slots_of(done) == Seq::new(next as nat, |k: int| k),
            out@ == subst_items(done, vals.deep_view()),
        decreases n - i,
    {
        let c = t.get_char(i);
        let is_slot: bool = if c == '{' && n - i > 2 {
            let d = t.get_char(i + 1);
            let e = t.get_char(i + 2);
            (d >= '0' && d <= '9') && e == '}'
        } else {
            false
        };
        if is_slot {
            let d = t.get_char(i + 1);
            let k = digit_val_exec(d);
            let ghost step = seq![TItem::Slot(digit_val(t@[i + 1]))];
            proof {
                assert(is_digit_char(t@[i + 1])) by {
                    let dc = t@[i + 1];
                    assert(dc >= '0' && dc <= '9');
                    assert(dc == '0' || dc == '1' || dc == '2' || dc == '3' || dc == '4'
                        || dc == '5' || dc == '6' || dc == '7' || dc == '8' || dc == '9');
                }
                assert(scan_from(t@, i as int) == step + scan_from(t@, i + 3));
                lemma_slots_append(done, step);
                lemma_subst_append(done, step, vals.deep_view());
                lemma_slot_single(digit_val(t@[i + 1]));
                lemma_subst_slot_single(digit_val(t@[i + 1]), vals.deep_view());
            }
            if k != next || next >= vals.len() {
                // The placeholder indices deviate from 0, 1, ... here, so
                // strict substitution cannot succeed.
                proof {
                    let all = slots_of(spec_items(t@));
                    let tail = scan_from(t@, i + 3);
                    assert(done + step + tail =~= spec_items(t@));
                    lemma_slots_append(done + step, tail);
                    lemma_slots_append(done, step);
                    assert(slots_of(step) =~= seq![k as int]);
                    assert(all =~= slots_of(done) + seq![k as int] + slots_of(tail));
                    assert(slots_of(done).len() == next);
                    assert(all[next as int] == k as int);
                    if slots_ok(t@, vals.len() as int) {
                        if next >= vals.len() {
                            assert(all.len() >= next + 1);
                            assert(all.len() == vals.len());
                        } else {
                            assert(all[next as int] == next as int);
                        }
                        assert(false);
                    }
                }
                return None;
            }
            out.append(vals[k].as_str());
            next = next + 1;
            i = i + 3;
            proof {
                done = done + step;
                assert(slots_of(done) =~= Seq::new(next as nat, |j: int| j));
                assert(subst_items(step, vals.deep_view()) =~= vals.deep_view()[k as int]);
            }
        } else {
            let one = t.substring_char(i, i + 1);
            out.append(one);
            let ghost step = seq![TItem::Lit(t@[i as int])];
            proof {
                assert(one@ =~= seq![t@[i as int]]);
                assert(scan_from(t@, i as int) == step + scan_from(t@, i + 1));
                lemma_slots_append(done, step);
                lemma_subst_append(done, step, vals.deep_view());
                lemma_lit_single(t@[i as int]);
                lemma_subst_lit_single(t@[i as int], vals.deep_view());
            }
            i = i + 1;
            proof {
                done = done + step;
                assert(slots_of(done) =~= Seq::new(next as nat, |j: int| j));
            }
        }
    }
    proof {
        assert(scan_from(t@, n as int) =~= Seq::<TItem>::empty());
        assert(done =~= spec_items(t@));
    }
    if next != vals.len() {
        proof {
            if slots_ok(t@, vals.len() as int) {
                assert(slots_of(spec_items(t@)).len() == vals.len());
                assert(slots_of(spec_items(t@)).len() == next);
            }
        }
        return None;
    }
    proof {
        assert(slots_of(spec_items(t@)) =~= Seq::new(vals.len() as nat, |k: int| k));
    }
    Some(out)
}


/// Whether `t` expects exactly one value: its only placeholder is `{0}`.
pub fn template_expects_one(t: &str) -> (r: bool)
    ensures
        r == slots_ok(t@, 1),
{
    let mut vals: Vec<String> = Vec::new();
    vals.push(String::new());
    match render(t, &vals) {
        Some(_) => true,
        None => false,
    }
}

} // verus!
