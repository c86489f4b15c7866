//! The compact type-grammar of argument descriptors.
//!
//! A descriptor is `<typename>[<sep><primary-arg>[<!><error-arg>]]`, where
//! `<sep>` is `?` (validate-only role) or `!` (format role) and absence of a
//! separator yields the plain role. The type name must begin with a letter;
//! `url` (in any case) produces a URL-backed type and requires the primary
//! argument, while a name beginning with `string` produces free text whose
//! token count is the number of `.` characters in the name, at least one.

use vstd::prelude::*;

use crate::commands::{dot_count, spec_type_parse, GrammarError, Type, TypeView};

verus! {

/// An argument specification: a role wrapping an argument type.
#[derive(Clone, Debug)]
pub enum Argument {
    /// The value is passed through unvalidated.
    Simple(Type),
    /// The value must pass the type's validity test.
    Test(Type),
    /// The value is substituted into the type's template.
    Format(Type),
}

/// The mathematical model of an [`Argument`].
pub enum ArgView {
    Simple(TypeView),
    Test(TypeView),
    Format(TypeView),
}

impl View for Argument {
    type V = ArgView;

    open spec fn view(&self) -> ArgView {
        match self {
            Argument::Simple(t) => ArgView::Simple(t@),
            Argument::Test(t) => ArgView::Test(t@),
            Argument::Format(t) => ArgView::Format(t@),
        }
    }
}

impl ArgView {
    /// The argument type under the role.
    pub open spec fn ty(self) -> TypeView {
        match self {
            ArgView::Simple(t) => t,
            ArgView::Test(t) => t,
            ArgView::Format(t) => t,
        }
    }

    pub open spec fn wf(self) -> bool {
        self.ty().wf()
    }
}

impl Argument {
    /// The argument type under the role.
    pub fn get_type(&self) -> (r: &Type)
        ensures
            r@ == self@.ty(),
    {
        match self {
            Argument::Simple(t) => t,
            Argument::Test(t) => t,
            Argument::Format(t) => t,
        }
    }
}

pub open spec fn is_sep_char(c: char) -> bool {
    c == '?' || c == '!'
}

pub open spec fn is_alpha_char(c: char) -> bool {
    ('a' <= c && c <= 'z') || ('A' <= c && c <= 'Z')
}

/// The first separator position at or after `i`, or the length when none.
pub open spec fn sep_pos(s: Seq<char>, i: int) -> int
    decreases s.len() - i,
{
    if i < 0 || i >= s.len() {
        s.len() as int
    } else if is_sep_char(s[i]) {
        i
    } else {
        sep_pos(s, i + 1)
    }
}

/// Whether the error-argument marker `<!>` stands at position `i`.
pub open spec fn marker_at(s: Seq<char>, i: int) -> bool {
    0 <= i && i + 3 <= s.len() && s[i] == '<' && s[i + 1] == '!' && s[i + 2] == '>'
}

/// The first marker position at or after `i`, or the length when none.
pub open spec fn marker_pos(s: Seq<char>, i: int) -> int
    decreases s.len() - i,
{
    if i < 0 || i + 3 > s.len() {
        s.len() as int
    } else if marker_at(s, i) {
        i
    } else {
        marker_pos(s, i + 1)
    }
}

pub proof fn lemma_sep_pos(s: Seq<char>, i: int)
    requires
        0 <= i <= s.len(),
    ensures
        i <= sep_pos(s, i) <= s.len(),
        sep_pos(s, i) < s.len() ==> is_sep_char(s[sep_pos(s, i)]),
        forall|j: int| i <= j < sep_pos(s, i) ==> !is_sep_char(s[j]),
    decreases s.len() - i,
{
    if i < s.len() && !is_sep_char(s[i]) {
        lemma_sep_pos(s, i + 1);
    }
}

/// The first separator is at `p` exactly when no earlier position holds one.
pub proof fn lemma_sep_pos_val(s: Seq<char>, i: int, p: int)
    requires
        0 <= i <= p <= s.len(),
        forall|j: int| i <= j < p ==> !is_sep_char(s[j]),
        p < s.len() ==> is_sep_char(s[p]),
    ensures
        sep_pos(s, i) == p,
    decreases p - i,
{
    if i < p {
        lemma_sep_pos_val(s, i + 1, p);
    }
}

pub proof fn lemma_marker_pos(s: Seq<char>, i: int)
    requires
        0 <= i <= s.len(),
    ensures
        i <= marker_pos(s, i) <= s.len(),
        marker_pos(s, i) < s.len() ==> marker_at(s, marker_pos(s, i)),
        marker_pos(s, i) < s.len() ==> marker_pos(s, i) + 3 <= s.len(),
        forall|j: int| i <= j < marker_pos(s, i) ==> !marker_at(s, j),
    decreases s.len() - i,
{
    if i + 3 <= s.len() && !marker_at(s, i) {
        lemma_marker_pos(s, i + 1);
    }
}


/// The type-name part of a descriptor.
pub open spec fn d_name(d: Seq<char>) -> Seq<char> {
    d.subrange(0, sep_pos(d, 0))
}

/// The separator, when present.
pub open spec fn d_sep(d: Seq<char>) -> Option<char> {
    if sep_pos(d, 0) == d.len() {
        None
    } else {
        Some(d[sep_pos(d, 0)])
    }
}

/// Everything after the separator.
pub open spec fn d_rest(d: Seq<char>) -> Seq<char> {
    d.subrange(sep_pos(d, 0) + 1, d.len() as int)
}

/// The primary argument: the rest up to the first `<!>` marker.
pub open spec fn d_parg(d: Seq<char>) -> Option<Seq<char>> {
    if sep_pos(d, 0) == d.len() {
        None
    } else {
        Some(d_rest(d).subrange(0, marker_pos(d_rest(d), 0)))
    }
}

/// The error argument: the rest after the first `<!>` marker, when present.
pub open spec fn d_earg(d: Seq<char>) -> Option<Seq<char>> {
    if sep_pos(d, 0) == d.len() {
        None
    } else {
        let r = d_rest(d);
        if marker_pos(r, 0) == r.len() {
            None
        } else {
            Some(r.subrange(marker_pos(r, 0) + 3, r.len() as int))
        }
    }
}

/// What parsing a whole descriptor yields.
pub open spec fn spec_parse(d: Seq<char>) -> Result<ArgView, GrammarError> {
    if d.len() == 0 || !is_alpha_char(d[0]) {
        Err(GrammarError::BadStart)
    } else {
        match spec_type_parse(d_name(d), d_parg(d), d_earg(d)) {
            Err(e) => Err(e),
            Ok(t) => Ok(
                match d_sep(d) {
                    None => ArgView::Simple(t),
                    Some(c) => if c == '!' {
                        ArgView::Format(t)
                    } else {
                        ArgView::Test(t)
                    },
                },
            ),
        }
    }
}

/// A run of `n` dot characters.
pub open spec fn dots(n: int) -> Seq<char> {
    Seq::new(n as nat, |i: int| '.')
}

/// The descriptor text of a type under a role separator.
pub open spec fn render_type_with_sep(t: TypeView, sep: char) -> Seq<char> {
    match t {
        TypeView::FreeText(n) => "string"@ + dots(n) + seq![sep],
        TypeView::UrlBacked(s, f) => "url"@ + seq![sep] + s + (match f {
            Some(ft) => "<!>"@ + ft,
            None => Seq::<char>::empty(),
        }),
    }
}

/// The descriptor an argument renders back to; a plain URL-backed argument
/// has none, and none arises from parsing.
pub open spec fn spec_descriptor(a: ArgView) -> Option<Seq<char>> {
    match a {
        ArgView::Simple(t) => match t {
            TypeView::FreeText(n) => Some("string"@ + dots(n)),
            TypeView::UrlBacked(_, _) => None,
        },
        ArgView::Test(t) => Some(render_type_with_sep(t, '?')),
        ArgView::Format(t) => Some(render_type_with_sep(t, '!')),
    }
}

fn push_dots(out: &mut String, n: usize)
    ensures
        final(out)@ == old(out)@ + dots(n as int),
{
    let mut j: usize = 0;
    proof {
        assert(old(out)@ + dots(0) =~= old(out)@);
    }
    while j < n
        invariant
            j <= n,
            out@ == old(out)@ + dots(j as int),
        decreases n - j,
    {
        proof {
            reveal_strlit(".");
            assert("."@ =~= seq!['.']);
        }
        out.append(".");
        proof {
            assert(old(out)@ + dots(j + 1) =~= (old(out)@ + dots(j as int)) + seq!['.']);
        }
        j = j + 1;
    }
}

fn render_type(t: &Type, sep: char) -> (r: String)
    requires
        is_sep_char(sep),
    ensures
        r@ == render_type_with_sep(t@, sep),
{
    proof {
        reveal_strlit("?");
        reveal_strlit("!");
        assert("?"@ =~= seq!['?']);
        assert("!"@ =~= seq!['!']);
    }
    let seps: &str = if sep == '?' {
        "?"
    } else {
        "!"
    };
    match t {
        Type::FreeText(n) => {
            let mut out = String::from_str("string");
            push_dots(&mut out, *n);
            out.append(seps);
            out
        },
        Type::UrlBacked(succ, fail) => {
            let mut out = String::from_str("url");
            out.append(seps);
            out.append(succ.as_str());
            match fail {
                Some(ft) => {
                    out.append("<!>");
                    out.append(ft.as_str());
                    proof {
                        assert(out@ =~= render_type_with_sep(t@, sep));
                    }
                },
                None => {
                    proof {
                        assert(out@ =~= render_type_with_sep(t@, sep));
                    }
                },
            }
            out
        },
    }
}

impl Argument {
    /// Renders the descriptor this argument specification parses from.
    /// Only a plain URL-backed argument has none, and parsing never
    /// produces one.
    pub fn descriptor(&self) -> (r: Option<String>)
        ensures
            match r {
                Some(s) => spec_descriptor(self@) is Some && s@ == spec_descriptor(self@)->0,
                None => spec_descriptor(self@) is None,
            },
    {
        match self {
            Argument::Simple(t) => match t {
                Type::FreeText(n) => {
                    let mut out = String::from_str("string");
                    push_dots(&mut out, *n);
                    Some(out)
                },
                Type::UrlBacked(_, _) => None,
            },
            Argument::Test(t) => Some(render_type(t, '?')),
            Argument::Format(t) => Some(render_type(t, '!')),
        }
    }
}

proof fn lemma_dot_count_none(s: Seq<char>)
    requires
        forall|i: int| 0 <= i < s.len() ==> s[i] != '.',
    ensures
        dot_count(s) == 0,
    decreases s.len(),
{
    if s.len() > 0 {
        assert(forall|i: int| 0 <= i < s.drop_last().len() ==> s.drop_last()[i] == s[i]);
        lemma_dot_count_none(s.drop_last());
    }
}

proof fn lemma_dot_count_concat(a: Seq<char>, b: Seq<char>)
    ensures
        dot_count(a + b) == dot_count(a) + dot_count(b),
    decreases b.len(),
{
    if b.len() == 0 {
        assert(a + b =~= a);
    } else {
        assert((a + b).drop_last() =~= a + b.drop_last());
        assert((a + b).last() == b.last());
        lemma_dot_count_concat(a, b.drop_last());
    }
}

proof fn lemma_dot_count_dots(n: int)
    requires
        n >= 0,
    ensures
        dot_count(dots(n)) == n,
    decreases n,
{
    if n == 0 {
        assert(dots(0) =~= Seq::<char>::empty());
    } else {
        assert(dots(n).drop_last() =~= dots(n - 1));
        assert(dots(n).last() == '.');
        lemma_dot_count_dots(n - 1);
    }
}

/// Parse stability: any accepted descriptor's parsed form renders back to
/// a descriptor that parses to the very same specification.
pub proof fn lemma_parse_stability(d: Seq<char>)
    requires
        spec_parse(d) is Ok,
    ensures
        spec_descriptor(spec_parse(d)->Ok_0) is Some,
        spec_parse(spec_descriptor(spec_parse(d)->Ok_0)->0) == spec_parse(d),
{
    reveal_strlit("string");
    reveal_strlit("url");
    reveal_strlit("<!>");
    let a = spec_parse(d)->Ok_0;
    lemma_sep_pos(d, 0);
    let p = sep_pos(d, 0);
    let name = d_name(d);
    let m = spec_type_parse(d_name(d), d_parg(d), d_earg(d));
    if crate::commands::is_url_name(name) {
        // The primary argument exists, so a separator exists.
        assert(p < d.len());
        let sep = d[p];
        let rest = d_rest(d);
        lemma_marker_pos(rest, 0);
        let mp = marker_pos(rest, 0);
        let parg = rest.subrange(0, mp);
        let t = TypeView::UrlBacked(d_parg(d)->0, d_earg(d));
        assert(m == Ok::<TypeView, GrammarError>(t));
        // Reassembling the pieces gives back exactly the rest of `d`.
        let tail: Seq<char> = if mp == rest.len() {
            Seq::<char>::empty()
        } else {
            "<!>"@ + rest.subrange(mp + 3, rest.len() as int)
        };
        if mp < rest.len() {
            assert(marker_at(rest, mp));
            assert(parg + tail =~= rest);
        } else {
            assert(parg + tail =~= rest);
        }
        let r = "url"@ + seq![sep] + parg + tail;
        assert(r =~= "url"@ + seq![sep] + rest);
        assert(spec_descriptor(a) == Some(r));
        // Reparsing: the name is `url`, the separator stands at 3, and the
        // rest is unchanged.
        assert(r[0] == 'u' && is_alpha_char(r[0]));
        assert(is_sep_char(r[3]));
        assert forall|j: int| 0 <= j < 3 implies !is_sep_char(r[j]) by {
            if j == 0 {
                assert(r[0] == 'u');
            } else if j == 1 {
                assert(r[1] == 'r');
            } else {
                assert(r[2] == 'l');
            }
        }
        lemma_sep_pos_val(r, 0, 3);
        assert(d_name(r) =~= "url"@);
        assert(crate::commands::is_url_name("url"@)) by {
            assert(crate::text::lower("url"@) =~= "url"@);
        }
        assert(d_rest(r) =~= rest);
        assert(d_parg(r) == d_parg(d));
        assert(d_earg(r) == d_earg(d));
        assert(spec_type_parse(d_name(r), d_parg(r), d_earg(r)) == m);
        assert(d_sep(r) == Some(sep) && d_sep(d) == Some(sep));
        assert(spec_parse(r) == spec_parse(d));
    } else {
        assert(crate::commands::is_string_name(name));
        let n = if dot_count(name) >= 1 {
            dot_count(name)
        } else {
            1
        };
        crate::commands::lemma_dot_count_bound(name);
        assert(n >= 1);
        let t = TypeView::FreeText(n);
        assert(m == Ok::<TypeView, GrammarError>(t));
        let base = "string"@ + dots(n);
        assert forall|j: int| 0 <= j < base.len() implies !is_sep_char(base[j]) by {
            if j < 6 {
                if j == 0 {
                    assert(base[j] == 's');
                } else if j == 1 {
                    assert(base[j] == 't');
                } else if j == 2 {
                    assert(base[j] == 'r');
                } else if j == 3 {
                    assert(base[j] == 'i');
                } else if j == 4 {
                    assert(base[j] == 'n');
                } else {
                    assert(base[j] == 'g');
                }
            } else {
                assert(base[j] == '.');
            }
        }
        let r = spec_descriptor(a)->0;
        assert(spec_descriptor(a) is Some);
        // With or without a role separator the name part reparses alike.
        if p == d.len() {
            assert(r == base);
            lemma_sep_pos_val(r, 0, r.len() as int);
            assert(d_name(r) =~= base);
            assert(d_sep(r) is None && d_sep(d) is None);
        } else {
            let sep = d[p];
            assert(r == base + seq![sep]);
            assert(forall|j: int| 0 <= j < base.len() ==> r[j] == base[j]);
            assert(is_sep_char(r[base.len() as int]));
            lemma_sep_pos_val(r, 0, base.len() as int);
            assert(d_name(r) =~= base);
            assert(d_sep(r) == Some(sep) && d_sep(d) == Some(sep));
        }
        // The rendered name is a `string` variant with the same dot count.
        assert(is_alpha_char(r[0])) by {
            assert(r[0] == 's');
        }
        assert(crate::commands::is_string_name(base)) by {
            assert(base.subrange(0, 6) =~= "string"@);
        }
        assert(!crate::commands::is_url_name(base)) by {
            assert(crate::text::lower(base).len() == base.len());
            assert(base.len() >= 7);
        }
        assert(dot_count(base) == n) by {
            lemma_dot_count_concat("string"@, dots(n));
            lemma_dot_count_none("string"@);
            lemma_dot_count_dots(n);
        }
        assert(spec_type_parse(d_name(r), d_parg(r), d_earg(r)) == m);
        assert(spec_parse(r) == spec_parse(d));
    }
}

fn find_sep(s: &str) -> (p: usize)
    ensures
        p == sep_pos(s@, 0),
{
    let n = s.unicode_len();
    let mut i: usize = 0;
    while i < n
        invariant
            n == s@.len(),
            i <= n,
            sep_pos(s@, 0) == sep_pos(s@, i as int),
        decreases n - i,
    {
        let c = s.get_char(i);
        if c == '?' || c == '!' {
            return i;
        }
        i = i + 1;
    }
    n
}

fn find_marker(s: &str) -> (p: usize)
    ensures
        p == marker_pos(s@, 0),
{
    let n = s.unicode_len();
    let mut i: usize = 0;
    while n - i > 2
        invariant
            n == s@.len(),
            i <= n,
            marker_pos(s@, 0) == marker_pos(s@, i as int),
        decreases n - i,
    {
        if s.get_char(i) == '<' && s.get_char(i + 1) == '!' && s.get_char(i + 2) == '>' {
            return i;
        }
        i = i + 1;
    }
    n
}

impl Argument {
    /// Parses a full argument descriptor into a role and type, or reports
    /// the configuration error that makes it malformed.
    pub fn parse(d: &str) -> (r: Result<Argument, GrammarError>)
        ensures
            ({
                let m = spec_parse(d@);
                match r {
                    Ok(a) => m is Ok && a@ == m->Ok_0 && a@.wf(),
                    Err(e) => m is Err && e == m->Err_0,
                }
            }),
    {
        let n = d.unicode_len();
        if n == 0 {
            return Err(GrammarError::BadStart);
        }
        let c0 = d.get_char(0);
        if !((c0 >= 'a' && c0 <= 'z') || (c0 >= 'A' && c0 <= 'Z')) {
            return Err(GrammarError::BadStart);
        }
        let p = find_sep(d);
        proof {
            lemma_sep_pos(d@, 0);
        }
        let name = d.substring_char(0, p);
        if p == n {
            match Type::parse(name, None, None) {
                Ok(t) => Ok(Argument::Simple(t)),
                Err(e) => Err(e),
            }
        } else {
            let sepc = d.get_char(p);
            let rest = d.substring_char(p + 1, n);
            let rlen = n - (p + 1);
            let m = find_marker(rest);
            proof {
                lemma_marker_pos(rest@, 0);
            }
            let parg = rest.substring_char(0, m);
            let earg: Option<&str> = if m == rlen {
                None
            } else {
                Some(rest.substring_char(m + 3, rlen))
            };
            let t = match Type::parse(name, Some(parg), earg) {
                Ok(t) => t,
                Err(e) => {
                    return Err(e);
                },
            };
            if sepc == '!' {
                Ok(Argument::Format(t))
            } else {
                Ok(Argument::Test(t))
            }
        }
    }
}

} // verus!
