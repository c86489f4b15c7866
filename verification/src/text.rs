//! Character-level text utilities: whitespace tokenization, joining token
//! groups with single spaces, and plain / case-insensitive string equality.

use vstd::prelude::*;

verus! {

/// The characters the engine treats as argument separators.
pub open spec fn is_space_char(c: char) -> bool {
    c == ' ' || c == '\t' || c == '\n' || c == '\r'
}

/// Tokenizer state after reading a prefix: the completed tokens and the
/// pending (not yet terminated) token.
pub open spec fn spec_tok_state(s: Seq<char>) -> (Seq<Seq<char>>, Seq<char>)
    decreases s.len(),
{
    if s.len() == 0 {
        (Seq::empty(), Seq::empty())
    } else {
        let st = spec_tok_state(s.drop_last());
        let c = s.last();
        if is_space_char(c) {
            if st.1.len() > 0 {
                (st.0.push(st.1), Seq::<char>::empty())
            } else {
                (st.0, Seq::<char>::empty())
            }
        } else {
            (st.0, st.1.push(c))
        }
    }
}

/// The maximal whitespace-separated tokens of `s`, in order; empty tokens
/// never occur.
pub open spec fn spec_tokens(s: Seq<char>) -> Seq<Seq<char>> {
    let st = spec_tok_state(s);
    if st.1.len() > 0 {
        st.0.push(st.1)
    } else {
        st.0
    }
}

/// Splits `s` at whitespace into its maximal non-empty tokens.
pub fn tokenize(s: &str) -> (r: Vec<String>)
    ensures
        r.deep_view() == spec_tokens(s@),
{
    let n = s.unicode_len();
    let mut toks: Vec<String> = Vec::new();
    // Start of the pending token, meaningful only when `in_token`.
    let mut start: usize = 0;
    let mut in_token: bool = false;
    let mut i: usize = 0;
    while i < n
        invariant
            n == s@.len(),
            i <= n,
            in_token ==> start < i,
            in_token ==> spec_tok_state(s@.subrange(0, i as int)) == (
                toks.deep_view(),
                s@.subrange(start as int, i as int),
            ),
            !in_token ==> spec_tok_state(s@.subrange(0, i as int)) == (
                toks.deep_view(),
                Seq::<char>::empty(),
            ),
        decreases n - i,
    {
        let c = s.get_char(i);
        proof {
            assert(s@.subrange(0, i + 1).drop_last() =~= s@.subrange(0, i as int));
            assert(s@.subrange(0, i + 1).last() == s@[i as int]);
        }
        if c == ' ' || c == '\t' || c == '\n' || c == '\r' {
            if in_token {
                let tok = s.substring_char(start, i).to_owned();
                toks.push(tok);
                in_token = false;
                proof {
                    assert(toks.deep_view() =~= spec_tok_state(s@.subrange(0, i + 1)).0);
                }
            }
        } else {
            if !in_token {
                start = i;
                in_token = true;
            }
            proof {
                assert(s@.subrange(start as int, i + 1) =~= s@.subrange(start as int, i as int).push(
                    s@[i as int],
                ));
            }
        }
        i = i + 1;
    }
    proof {
        assert(s@.subrange(0, n as int) =~= s@);
    }
    if in_token {
        let tok = s.substring_char(start, n).to_owned();
        toks.push(tok);
        proof {
            assert(toks.deep_view() =~= spec_tokens(s@));
        }
    }
    toks
}

/// The pieces joined with `sep` between consecutive pieces.
pub open spec fn spec_join_sep(ts: Seq<Seq<char>>, sep: Seq<char>) -> Seq<char>
    decreases ts.len(),
{
    if ts.len() == 0 {
        Seq::empty()
    } else if ts.len() == 1 {
        ts[0]
    } else {
        spec_join_sep(ts.drop_last(), sep) + sep + ts.last()
    }
}

/// The tokens joined back together with single spaces between them.
pub open spec fn spec_join(ts: Seq<Seq<char>>) -> Seq<char> {
    spec_join_sep(ts, seq![' '])
}

/// Joins all of `parts` with `sep` between consecutive parts.
pub fn join_with(parts: &Vec<String>, sep: &str) -> (r: String)
    ensures
        r@ == spec_join_sep(parts.deep_view(), sep@),
{
    let n = parts.len();
    let mut out = String::new();
    let mut j: usize = 0;
    proof {
        assert(parts.deep_view().subrange(0, 0) =~= Seq::<Seq<char>>::empty());
    }
    while j < n
        invariant
            n == parts.len(),
            j <= n,
            out@ == spec_join_sep(parts.deep_view().subrange(0, j as int), sep@),
        decreases n - j,
    {
        proof {
            assert(parts.deep_view().subrange(0, j + 1).drop_last() =~= parts.deep_view().subrange(
                0,
                j as int,
            ));
        }
        if j > 0 {
            out.append(sep);
        }
        out.append(parts[j].as_str());
        proof {
            let sub = parts.deep_view().subrange(0, j + 1);
            assert(sub.last() == parts.deep_view()[j as int]);
            if j == 0 {
                assert(out@ =~= spec_join_sep(sub, sep@));
            }
        }
        j = j + 1;
    }
    proof {
        assert(parts.deep_view().subrange(0, n as int) =~= parts.deep_view());
    }
    out
}

/// Joins `count` tokens of `toks` starting at `from` with single spaces.
pub fn join_tokens(toks: &Vec<String>, from: usize, count: usize) -> (r: String)
    requires
        from + count <= toks.len(),
    ensures
        r@ == spec_join(toks.deep_view().subrange(from as int, from + count)),
{
    let mut out = String::new();
    let mut j: usize = 0;
    while j < count
        invariant
            from + count <= toks.len(),
            j <= count,
            out@ == spec_join(toks.deep_view().subrange(from as int, from + j)),
        decreases count - j,
    {
        proof {
            reveal_strlit(" ");
            assert(toks.deep_view().subrange(from as int, from + j + 1).drop_last()
                =~= toks.deep_view().subrange(from as int, from + j));
            assert(" "@ =~= seq![' ']);
        }
        if j > 0 {
            out.append(" ");
        }
        out.append(toks[from + j].as_str());
        proof {
            let sub = toks.deep_view().subrange(from as int, from + j + 1);
            assert(sub.last() == toks.deep_view()[from + j]);
            if j == 0 {
                assert(out@ =~= spec_join(sub));
            }
        }
        j = j + 1;
    }
    out
}

/// Character-by-character string equality.
pub fn str_eq(a: &str, b: &str) -> (r: bool)
    ensures
        r == (a@ == b@),
{
    let la = a.unicode_len();
    let lb = b.unicode_len();
    if la != lb {
        return false;
    }
    let mut i: usize = 0;
    while i < la
        invariant
            la == a@.len(),
            la == b@.len(),
            i <= la,
            forall|k: int| 0 <= k < i ==> a@[k] == b@[k],
        decreases la - i,
    {
        if a.get_char(i) != b.get_char(i) {
            return false;
        }
        i = i + 1;
    }
    proof {
        assert(a@ =~= b@);
    }
    true
}

/// ASCII lowercase of one character; other characters are unchanged.
pub open spec fn lower_char(c: char) -> char {
    if c == 'A' { 'a' } else if c == 'B' { 'b' } else if c == 'C' { 'c' }
    else if c == 'D' { 'd' } else if c == 'E' { 'e' } else if c == 'F' { 'f' }
    else if c == 'G' { 'g' } else if c == 'H' { 'h' } else if c == 'I' { 'i' }
    else if c == 'J' { 'j' } else if c == 'K' { 'k' } else if c == 'L' { 'l' }
    else if c == 'M' { 'm' } else if c == 'N' { 'n' } else if c == 'O' { 'o' }
    else if c == 'P' { 'p' } else if c == 'Q' { 'q' } else if c == 'R' { 'r' }
    else if c == 'S' { 's' } else if c == 'T' { 't' } else if c == 'U' { 'u' }
    else if c == 'V' { 'v' } else if c == 'W' { 'w' } else if c == 'X' { 'x' }
    else if c == 'Y' { 'y' } else if c == 'Z' { 'z' } else { c }
}

/// ASCII lowercase of a whole string.
pub open spec fn lower(s: Seq<char>) -> Seq<char> {
    s.map_values(|c: char| lower_char(c))
}

fn lower_char_exec(c: char) -> (r: char)
    ensures
        r == lower_char(c),
{
    if c == 'A' { 'a' } else if c == 'B' { 'b' } else if c == 'C' { 'c' }
    else if c == 'D' { 'd' } else if c == 'E' { 'e' } else if c == 'F' { 'f' }
    else if c == 'G' { 'g' } else if c == 'H' { 'h' } else if c == 'I' { 'i' }
    else if c == 'J' { 'j' } else if c == 'K' { 'k' } else if c == 'L' { 'l' }
    else if c == 'M' { 'm' } else if c == 'N' { 'n' } else if c == 'O' { 'o' }
    else if c == 'P' { 'p' } else if c == 'Q' { 'q' } else if c == 'R' { 'r' }
    else if c == 'S' { 's' } else if c == 'T' { 't' } else if c == 'U' { 'u' }
    else if c == 'V' { 'v' } else if c == 'W' { 'w' } else if c == 'X' { 'x' }
    else if c == 'Y' { 'y' } else if c == 'Z' { 'z' } else { c }
}

/// Relies on std's `String::push`: it appends exactly the one character.
#[verifier::external_body]
fn push_char(s: &mut String, c: char)
    ensures
        final(s)@ == old(s)@.push(c),
{
    s.push(c);
}

/// A copy of `s` with every ASCII letter lowercased.
pub fn lower_copy(s: &str) -> (r: String)
    ensures
        r@ == lower(s@),
{
    let n = s.unicode_len();
    let mut out = String::new();
    let mut i: usize = 0;
    while i < n
        invariant
            n == s@.len(),
            i <= n,
            out@ == lower(s@.take(i as int)),
        decreases n - i,
    {
        let c = s.get_char(i);
        push_char(&mut out, lower_char_exec(c));
        proof {
            assert(out@ =~= lower(s@.take(i + 1)));
        }
        i = i + 1;
    }
    proof {
        assert(s@.take(n as int) =~= s@);
    }
    out
}

/// String equality up to ASCII case.
pub fn str_eq_ignore_ascii_case(a: &str, b: &str) -> (r: bool)
    ensures
        r == (lower(a@) == lower(b@)),
{
    let la = a.unicode_len();
    let lb = b.unicode_len();
    if la != lb {
        proof {
            assert(lower(a@).len() != lower(b@).len());
        }
        return false;
    }
    let mut i: usize = 0;
    while i < la
        invariant
            la == a@.len(),
            la == b@.len(),
            i <= la,
            forall|k: int| 0 <= k < i ==> lower_char(a@[k]) == lower_char(b@[k]),
        decreases la - i,
    {
        if lower_char_exec(a.get_char(i)) != lower_char_exec(b.get_char(i)) {
            proof {
                assert(lower(a@)[i as int] != lower(b@)[i as int]);
            }
            return false;
        }
        i = i + 1;
    }
    proof {
        assert(lower(a@) =~= lower(b@));
    }
    true
}

} // verus!
