//! Argument types: how many raw tokens an argument consumes, how a candidate
//! value is validated, and how it is formatted into template-ready text.
//!
//! A URL-backed type builds a URL from its success template and the candidate
//! value; whether that URL is reachable is decided by a network probe that
//! the caller performs, and its outcome is passed back in here as a plain
//! boolean, so validation and formatting are pure functions of it.

use vstd::prelude::*;

use crate::template::{render, slots_ok, spec_render};
use crate::text::{lower, str_eq};

verus! {

/// The runtime representation of an argument type.
#[derive(Clone, Debug)]
pub enum Type {
    /// Free-form text consuming the given number of whitespace tokens.
    FreeText(usize),
    /// A value validated by building a URL from the first template and
    /// probing it; the optional second template formats the failure case.
    UrlBacked(String, Option<String>),
}

/// The mathematical model of a [`Type`].
pub enum TypeView {
    FreeText(int),
    UrlBacked(Seq<char>, Option<Seq<char>>),
}

impl View for Type {
    type V = TypeView;

    open spec fn view(&self) -> TypeView {
        match self {
            Type::FreeText(n) => TypeView::FreeText(*n as int),
            Type::UrlBacked(s, f) => TypeView::UrlBacked(
                s@,
                match f {
                    Some(x) => Some(x@),
                    None => None,
                },
            ),
        }
    }
}

impl TypeView {
    /// The configuration invariant: a token count of at least one, and
    /// single-slot templates.
    pub open spec fn wf(self) -> bool {
        match self {
            TypeView::FreeText(n) => n >= 1,
            TypeView::UrlBacked(s, f) => slots_ok(s, 1) && (f is Some ==> slots_ok(f->0, 1)),
        }
    }

    /// How many raw tokens this type consumes.
    pub open spec fn wanted(self) -> int {
        match self {
            TypeView::FreeText(n) => n,
            TypeView::UrlBacked(_, _) => 1,
        }
    }

    /// The validity test, given the outcome of the reachability probe.
    pub open spec fn spec_test(self, reachable: bool) -> bool {
        match self {
            TypeView::FreeText(_) => true,
            TypeView::UrlBacked(_, _) => reachable,
        }
    }

    /// The formatted value, given the outcome of the reachability probe:
    /// free text passes through; a reachable URL-backed value becomes the
    /// substituted success template; an unreachable one becomes the
    /// substituted failure template, or nothing when none is configured.
    pub open spec fn spec_format(self, cand: Seq<char>, reachable: bool) -> Option<Seq<char>> {
        match self {
            TypeView::FreeText(_) => Some(cand),
            TypeView::UrlBacked(s, f) => if reachable {
                Some(spec_render(s, seq![cand]))
            } else {
                match f {
                    Some(ft) => Some(spec_render(ft, seq![cand])),
                    None => None,
                }
            },
        }
    }
}

/// A malformed type descriptor: a fatal configuration error.
#[derive(Clone, Copy, Debug, PartialEq, Eq, Structural)]
pub enum GrammarError {
    /// The descriptor is empty or does not begin with a letter.
    BadStart,
    /// The type name is neither `url` nor a `string` variant.
    UnknownType,
    /// A `url` type without its primary argument.
    MissingUrlArgument,
    /// A `url` template whose placeholders are not exactly one `{0}`.
    BadTemplate,
}

/// Whether `s` names the free-text type: it begins with `string`.
pub open spec fn is_string_name(s: Seq<char>) -> bool {
    s.len() >= 6 && s.subrange(0, 6) == "string"@
}

/// Whether `s` names the URL-backed type, compared without regard to case.
pub open spec fn is_url_name(s: Seq<char>) -> bool {
    lower(s) == "url"@
}

/// The number of `.` characters in `s`.
pub open spec fn dot_count(s: Seq<char>) -> int
    decreases s.len(),
{
    if s.len() == 0 {
        0
    } else {
        (if s.last() == '.' {
            1int
        } else {
            0int
        }) + dot_count(s.drop_last())
    }
}

pub proof fn lemma_dot_count_bound(s: Seq<char>)
    ensures
        0 <= dot_count(s) <= s.len(),
    decreases s.len(),
{
    if s.len() > 0 {
        lemma_dot_count_bound(s.drop_last());
    }
}

/// What `Type::parse` yields for a type name and its optional arguments.
pub open spec fn spec_type_parse(
    name: Seq<char>,
    arg: Option<Seq<char>>,
    earg: Option<Seq<char>>,
) -> Result<TypeView, GrammarError> {
    if is_url_name(name) {
        match arg {
            None => Err(GrammarError::MissingUrlArgument),
            Some(a) => if slots_ok(a, 1) && (earg is None || slots_ok(earg->0, 1)) {
                Ok(TypeView::UrlBacked(a, earg))
            } else {
                Err(GrammarError::BadTemplate)
            },
        }
    } else if is_string_name(name) {
        Ok(
            TypeView::FreeText(
                if dot_count(name) >= 1 {
                    dot_count(name)
                } else {
                    1
                },
            ),
        )
    } else {
        Err(GrammarError::UnknownType)
    }
}

/// A free-text type accepts every candidate, whatever the probe outcome:
/// its validity test never returns false.
pub proof fn lemma_free_text_always_valid(n: int, reachable: bool)
    ensures
        TypeView::FreeText(n).spec_test(reachable),
{
}

/// A URL-backed type without a failure template formats to no value at all
/// when the probe fails: never to a partially substituted string.
pub proof fn lemma_url_format_absent_on_failure(s: Seq<char>, cand: Seq<char>)
    ensures
        TypeView::UrlBacked(s, None).spec_format(cand, false) is None,
{
}

fn count_dots(s: &str) -> (r: usize)
    ensures
        r == dot_count(s@),
{
    let n = s.unicode_len();
    let mut count: usize = 0;
    let mut i: usize = 0;
    while i < n
        invariant
            n == s@.len(),
            i <= n,
            count == dot_count(s@.subrange(0, i as int)),
            count <= i,
        decreases n - i,
    {
        proof {
            assert(s@.subrange(0, i + 1).drop_last() =~= s@.subrange(0, i as int));
        }
        if s.get_char(i) == '.' {
            count = count + 1;
        }
        i = i + 1;
    }
    proof {
        assert(s@.subrange(0, n as int) =~= s@);
    }
    count
}

fn is_url_name_exec(s: &str) -> (r: bool)
    ensures
        r == is_url_name(s@),
{
    proof {
        reveal_strlit("url");
        assert(lower("url"@) =~= "url"@);
    }
    crate::text::str_eq_ignore_ascii_case(s, "url")
}

fn is_string_name_exec(s: &str) -> (r: bool)
    ensures
        r == is_string_name(s@),
{
    if s.unicode_len() < 6 {
        false
    } else {
        let head = s.substring_char(0, 6);
        str_eq(head, "string")
    }
}

impl Type {
    /// Parses a type name with its optional primary and error arguments
    /// into an argument type, or reports the configuration error.
    pub fn parse(s: &str, arg: Option<&str>, earg: Option<&str>) -> (r: Result<Type, GrammarError>)
        ensures
            ({
                let m = spec_type_parse(
                    s@,
                    match arg {
                        Some(a) => Some(a@),
                        None => None,
                    },
                    match earg {
                        Some(e) => Some(e@),
                        None => None,
                    },
                );
                match r {
                    Ok(t) => m is Ok && t@ == m->Ok_0 && t@.wf(),
                    Err(e) => m is Err && e == m->Err_0,
                }
            }),
    {
        if is_url_name_exec(s) {
            match arg {
                None => Err(GrammarError::MissingUrlArgument),
                Some(a) => {
                    let a_ok = crate::template::template_expects_one(a);
                    let e_ok: bool = match earg {
                        None => true,
                        Some(e) => crate::template::template_expects_one(e),
                    };
                    if a_ok && e_ok {
                        Ok(
                            Type::UrlBacked(
                                a.to_owned(),
                                match earg {
                                    Some(e) => Some(e.to_owned()),
                                    None => None,
                                },
                            ),
                        )
                    } else {
                        Err(GrammarError::BadTemplate)
                    }
                },
            }
        } else if is_string_name_exec(s) {
            let dots = count_dots(s);
            proof {
                lemma_dot_count_bound(s@);
            }
            if dots >= 1 {
                Ok(Type::FreeText(dots))
            } else {
                Ok(Type::FreeText(1))
            }
        } else {
            Err(GrammarError::UnknownType)
        }
    }

    /// How many whitespace-separated raw tokens this type consumes.
    pub fn wanted_args(&self) -> (r: usize)
        ensures
            r == self@.wanted(),
    {
        match self {
            Type::FreeText(n) => *n,
            Type::UrlBacked(_, _) => 1,
        }
    }

    /// The URL the reachability probe must fetch for candidate `s`:
    /// `Some` exactly for URL-backed types.
    pub fn probe_url(&self, s: &str) -> (r: Option<String>)
        requires
            self@.wf(),
        ensures
            match self@ {
                TypeView::FreeText(_) => r is None,
                TypeView::UrlBacked(succ, _) => r is Some && r->0@ == spec_render(
                    succ,
                    seq![s@],
                ),
            },
    {
        match self {
            Type::FreeText(_) => None,
            Type::UrlBacked(succ, _) => {
                let mut vals: Vec<String> = Vec::new();
                vals.push(s.to_owned());
                proof {
                    assert(vals.deep_view() =~= seq![s@]);
                }
                match render(succ.as_str(), &vals) {
                    Some(u) => Some(u),
                    None => {
                        proof {
                            assert(false);
                        }
                        None
                    },
                }
            },
        }
    }

    /// The validity test, with the reachability probe's outcome supplied:
    /// free text is always valid, a URL-backed value is valid when its URL
    /// was reachable.
    pub fn test(&self, reachable: bool) -> (r: bool)
        ensures
            r == self@.spec_test(reachable),
    {
        match self {
            Type::FreeText(_) => true,
            Type::UrlBacked(_, _) => reachable,
        }
    }

    /// Formats candidate `s`, with the reachability probe's outcome
    /// supplied; `None` signals failure upstream.
    pub fn format(&self, s: &str, reachable: bool) -> (r: Option<String>)
        requires
            self@.wf(),
        ensures
            ({
                let m = self@.spec_format(s@, reachable);
                match r {
                    Some(v) => m is Some && v@ == m->0,
                    None => m is None,
                }
            }),
    {
        match self {
            Type::FreeText(_) => Some(s.to_owned()),
            Type::UrlBacked(succ, fail) => {
                let mut vals: Vec<String> = Vec::new();
                vals.push(s.to_owned());
                proof {
                    assert(vals.deep_view() =~= seq![s@]);
                }
                if reachable {
                    match render(succ.as_str(), &vals) {
                        Some(u) => Some(u),
                        None => {
                            proof {
                                assert(false);
                            }
                            None
                        },
                    }
                } else {
                    match fail {
                        Some(ft) => match render(ft.as_str(), &vals) {
                            Some(v) => Some(v),
                            None => {
                                proof {
                                    assert(false);
                                }
                                None
                            },
                        },
                        None => None,
                    }
                }
            },
        }
    }
}

} // verus!
