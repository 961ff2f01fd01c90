use vstd::prelude::*;
use vstd::std_specs::iter::IteratorSpec;
use crate::ast::{lemma_views_push, terms_view, views, Construct, Parse, Task, Term, TermV, Variable};
use crate::grammar::{
    blank_line, comment_line, conditional_block, conditional_keyword_len, define_block,
    dependencies, include_line, kw_define, kw_endef, kw_endif, kw_ifdef, kw_ifeq, kw_ifndef,
    kw_ifneq, kw_include, parse_spec, recipes, run_end, task_rule, term_at, terms_from,
    variable_line, RunKind, ParseContext, failure_context, assign_op_end, ident_end,
};
use crate::scan::{
    seek_word, skip_eol, skip_ident, skip_line_tail, skip_run, word_at,
};

verus! {

/// What a parsed term and its end are worth to the spec functions.
pub open spec fn step_view(r: Option<(Term, usize)>) -> Option<(TermV, int)> {
    match r {
        Some((t, q)) => Some((t@, q as int)),
        None => None,
    }
}

/// The characters of a text, one by one.
pub fn chars_of(text: &str) -> (v: Vec<char>)
    ensures
        v@ == text@,
{
    let mut it = text.chars();
    let mut v: Vec<char> = Vec::new();
    proof {
        broadcast use vstd::string::group_string_axioms;
    }
    loop
        invariant
            v@ + IteratorSpec::remaining(&it) == text@,
            it.obeys_prophetic_iter_laws(),
            IteratorSpec::decrease(&it) is Some,
        decreases IteratorSpec::decrease(&it)->0,
    {
        let ghost before = IteratorSpec::remaining(&it);
        match it.next() {
            Some(c) => {
                assert(v@.push(c) + before.drop_first() =~= v@ + before);
                v.push(c);
            },
            None => {
                assert(v@ + before =~= v@);
                return v;
            },
        }
    }
}

fn slice(text: &str, a: usize, b: usize) -> (r: String)
    requires
        a <= b <= text@.len(),
    ensures
        r@ == text@.subrange(a as int, b as int),
{
    text.substring_char(a, b).to_owned()
}

fn blank_line_exec(v: &Vec<char>, p: usize) -> (r: Option<(Term, usize)>)
    requires
        p <= v.len(),
    ensures
        step_view(r) == blank_line(v@, p as int),
        r matches Some((_, q)) ==> p <= q <= v.len(),
{
    let h = skip_run(v, p, RunKind::Blank);
    match skip_eol(v, h) {
        Some(e) => Some((Term::Empty, e)),
        None => None,
    }
}

fn define_block_exec(v: &Vec<char>, p: usize) -> (r: Option<(Term, usize)>)
    requires
        p <= v.len(),
    ensures
        step_view(r) == define_block(v@, p as int),
        r matches Some((_, q)) ==> p <= q <= v.len(),
{
    let kw = vec!['d', 'e', 'f', 'i', 'n', 'e'];
    let end = vec!['e', 'n', 'd', 'e', 'f'];
    assert(kw@ == kw_define());
    assert(end@ == kw_endef());
    if word_at(v, p, &kw) {
        let h = skip_run(v, p + 6, RunKind::Blank);
        match seek_word(v, h, &end) {
            Some(k) => Some((Term::Unimplemented(Construct::Define), k + 5)),
            None => None,
        }
    } else {
        None
    }
}

fn include_line_exec(v: &Vec<char>, p: usize) -> (r: Option<(Term, usize)>)
    requires
        p <= v.len(),
    ensures
        step_view(r) == include_line(v@, p as int),
        r matches Some((_, q)) ==> p <= q <= v.len(),
{
    let kw = vec!['i', 'n', 'c', 'l', 'u', 'd', 'e'];
    assert(kw@ == kw_include());
    if word_at(v, p, &kw) {
        let r = skip_run(v, p + 7, RunKind::Rest);
        match skip_line_tail(v, r) {
            Some(t) => Some((Term::Unimplemented(Construct::Include), t)),
            None => None,
        }
    } else {
        None
    }
}

fn conditional_keyword_len_exec(v: &Vec<char>, p: usize) -> (r: usize)
    requires
        p <= v.len(),
    ensures
        r as int == conditional_keyword_len(v@, p as int),
        r > 0 ==> p + r <= v.len(),
{
    let a = vec!['i', 'f', 'e', 'q'];
    let b = vec!['i', 'f', 'n', 'e', 'q'];
    let c = vec!['i', 'f', 'd', 'e', 'f'];
    let d = vec!['i', 'f', 'n', 'd', 'e', 'f'];
    assert(a@ == kw_ifeq());
    assert(b@ == kw_ifneq());
    assert(c@ == kw_ifdef());
    assert(d@ == kw_ifndef());
    if word_at(v, p, &a) {
        4
    } else if word_at(v, p, &b) {
        5
    } else if word_at(v, p, &c) {
        5
    } else if word_at(v, p, &d) {
        6
    } else {
        0
    }
}

fn conditional_block_exec(v: &Vec<char>, p: usize) -> (r: Option<(Term, usize)>)
    requires
        p <= v.len(),
    ensures
        step_view(r) == conditional_block(v@, p as int),
        r matches Some((_, q)) ==> p <= q <= v.len(),
{
    let end = vec!['e', 'n', 'd', 'i', 'f'];
    assert(end@ == kw_endif());
    let n = conditional_keyword_len_exec(v, p);
    if n > 0 {
        let h = skip_run(v, p + n, RunKind::Blank);
        match seek_word(v, h, &end) {
            Some(k) => Some((Term::Unimplemented(Construct::Conditional), k + 5)),
            None => None,
        }
    } else {
        None
    }
}

fn variable_line_exec(text: &str, v: &Vec<char>, p: usize) -> (r: Option<(Term, usize)>)
    requires
        p <= v.len(),
        v@ == text@,
    ensures
        step_view(r) == variable_line(v@, p as int),
        r matches Some((_, q)) ==> p <= q <= v.len(),
{
    let e = skip_ident(v, p);
    if e == p {
        return None;
    }
    let h = skip_run(v, e, RunKind::Blank);
    let o = if h < v.len() && v[h] == '=' {
        h + 1
    } else if h < v.len() && h + 1 < v.len() && v[h] == '?' && v[h + 1] == '=' {
        h + 2
    } else {
        return None;
    };
    let s = skip_run(v, o, RunKind::Blank);
    let r = skip_run(v, s, RunKind::Rest);
    match skip_line_tail(v, r) {
        Some(t) => {
            let var = Variable { name: slice(text, p, e), op: slice(text, h, o), value: slice(text, s, r) };
            Some((Term::Variable(var), t))
        },
        None => None,
    }
}

fn comment_line_exec(v: &Vec<char>, p: usize) -> (r: Option<(Term, usize)>)
    requires
        p <= v.len(),
    ensures
        step_view(r) == comment_line(v@, p as int),
        r matches Some((_, q)) ==> p <= q <= v.len(),
{
    let h = skip_run(v, p, RunKind::Blank);
    if h < v.len() && v[h] == '#' {
        let c = skip_run(v, h + 1, RunKind::CommentBody);
        match skip_eol(v, c) {
            Some(t) => Some((Term::Empty, t)),
            None => None,
        }
    } else {
        None
    }
}

fn dependencies_exec(text: &str, v: &Vec<char>, start: usize) -> (r: Option<(Vec<String>, usize)>)
    requires
        start <= v.len(),
        v@ == text@,
    ensures
        match r {
            Some((ds, q)) => dependencies(v@, start as int) == Some((views(ds@), q as int)) && start
                <= q <= v.len(),
            None => dependencies(v@, start as int) is None,
        },
{
    let mut ds: Vec<String> = Vec::new();
    let mut p = start;
    loop
        invariant
            start <= p <= v.len(),
            v@ == text@,
            dependencies(v@, start as int) == match dependencies(v@, p as int) {
                Some((rest, q)) => Some((views(ds@) + rest, q)),
                None => None,
            },
        decreases v.len() - p,
    {
        match skip_line_tail(v, p) {
            Some(t) => {
                assert(views(ds@) + seq![] =~= views(ds@));
                return Some((ds, t));
            },
            None => {},
        }
        let e = skip_ident(v, p);
        let n = skip_run(v, e, RunKind::Blank);
        if p < e {
            let d = slice(text, p, e);
            proof {
                lemma_views_push(ds@, d);
                match dependencies(v@, n as int) {
                    Some((rest, q)) => {
                        assert(views(ds@).push(d@) + rest =~= views(ds@) + (seq![d@] + rest));
                    },
                    None => {},
                }
            }
            ds.push(d);
            p = n;
        } else {
            return None;
        }
    }
}

fn recipes_exec(text: &str, v: &Vec<char>, start: usize) -> (r: (Vec<String>, usize))
    requires
        start <= v.len(),
        v@ == text@,
    ensures
        recipes(v@, start as int) == (views(r.0@), r.1 as int),
        start <= r.1 <= v.len(),
{
    let mut cs: Vec<String> = Vec::new();
    let mut p = start;
    loop
        invariant
            start <= p <= v.len(),
            v@ == text@,
            recipes(v@, start as int) == (views(cs@) + recipes(v@, p as int).0, recipes(
                v@,
                p as int,
            ).1),
        decreases v.len() - p,
    {
        if p < v.len() && v[p] == '\t' {
            let r = skip_run(v, p + 1, RunKind::Rest);
            match skip_line_tail(v, r) {
                Some(t) => {
                    if r > p + 1 {
                        let c = slice(text, p + 1, r);
                        proof {
                            lemma_views_push(cs@, c);
                            let rest = recipes(v@, t as int).0;
                            assert(views(cs@).push(c@) + rest =~= views(cs@) + (seq![c@] + rest));
                        }
                        cs.push(c);
                    }
                    p = t;
                },
                None => {
                    assert(views(cs@) + seq![] =~= views(cs@));
                    return (cs, p);
                },
            }
        } else if p < v.len() && v[p] == '#' {
            let c = skip_run(v, p + 1, RunKind::CommentBody);
            match skip_eol(v, c) {
                Some(t) => {
                    p = t;
                },
                None => {
                    assert(views(cs@) + seq![] =~= views(cs@));
                    return (cs, p);
                },
            }
        } else {
            assert(views(cs@) + seq![] =~= views(cs@));
            return (cs, p);
        }
    }
}

fn task_rule_exec(text: &str, v: &Vec<char>, p: usize) -> (r: Option<(Term, usize)>)
    requires
        p <= v.len(),
        v@ == text@,
    ensures
        step_view(r) == task_rule(v@, p as int),
        r matches Some((_, q)) ==> p <= q <= v.len(),
{
    let e = skip_ident(v, p);
    let h = skip_run(v, e, RunKind::Blank);
    if e > p && h < v.len() && v[h] == ':' {
        let k = skip_run(v, h + 1, RunKind::Blank);
        match dependencies_exec(text, v, k) {
            Some((ds, q)) => {
                let (cs, r) = recipes_exec(text, v, q);
                let task = Task { name: slice(text, p, e), dependencies: ds, commands: cs };
                Some((Term::Task(task), r))
            },
            None => None,
        }
    } else {
        None
    }
}

fn term_exec(text: &str, v: &Vec<char>, p: usize) -> (r: Option<(Term, usize)>)
    requires
        p <= v.len(),
        v@ == text@,
    ensures
        step_view(r) == term_at(v@, p as int),
        r matches Some((_, q)) ==> p <= q <= v.len(),
{
    let r = blank_line_exec(v, p);
    if r.is_some() {
        return r;
    }
    let r = define_block_exec(v, p);
    if r.is_some() {
        return r;
    }
    let r = include_line_exec(v, p);
    if r.is_some() {
        return r;
    }
    let r = conditional_block_exec(v, p);
    if r.is_some() {
        return r;
    }
    let r = variable_line_exec(text, v, p);
    if r.is_some() {
        return r;
    }
    let r = comment_line_exec(v, p);
    if r.is_some() {
        return r;
    }
    task_rule_exec(text, v, p)
}

/// Line and column, both counted from 1, of offset `p`.
pub open spec fn line_col(s: Seq<char>, p: int) -> (int, int)
    decreases p,
{
    if p <= 0 || p > s.len() {
        (1, 1)
    } else {
        let (l, c) = line_col(s, p - 1);
        if s[p - 1] == '\n' {
            (l + 1, 1)
        } else {
            (l, c + 1)
        }
    }
}

/// Where a text stops matching the grammar.
#[derive(Debug, Clone, Copy, PartialEq, Eq, Structural)]
pub struct SyntaxError {
    /// Offset, in characters, of the line part that no term matches.
    pub offset: usize,
    pub line: usize,
    pub column: usize,
    /// What the line at the offset was read as.
    pub context: ParseContext,
}

fn context_at(v: &Vec<char>, p: usize) -> (r: ParseContext)
    requires
        p <= v.len(),
    ensures
        r == failure_context(v@, p as int),
{
    let def = vec!['d', 'e', 'f', 'i', 'n', 'e'];
    let inc = vec!['i', 'n', 'c', 'l', 'u', 'd', 'e'];
    assert(def@ == kw_define());
    assert(inc@ == kw_include());
    let h = skip_run(v, p, RunKind::Blank);
    let e = skip_ident(v, p);
    let g = skip_run(v, e, RunKind::Blank);
    if word_at(v, p, &def) {
        ParseContext::Define
    } else if word_at(v, p, &inc) {
        ParseContext::Include
    } else if conditional_keyword_len_exec(v, p) > 0 {
        ParseContext::Conditional
    } else if h < v.len() && v[h] == '#' {
        ParseContext::Comment
    } else if e > p && g < v.len() && v[g] == ':' {
        ParseContext::Task
    } else if e > p && g < v.len() && (v[g] == '=' || (g + 1 < v.len() && v[g] == '?' && v[g + 1]
        == '=')) {
        ParseContext::Variable
    } else {
        ParseContext::Term
    }
}

fn locate(v: &Vec<char>, p: usize) -> (r: SyntaxError)
    requires
        p < v.len(),
    ensures
        r.offset == p,
        (r.line as int, r.column as int) == line_col(v@, p as int),
        r.context == failure_context(v@, p as int),
{
    let mut l: usize = 0;
    let mut c: usize = 0;
    let mut i: usize = 0;
    while i < p
        invariant
            i <= p < v.len(),
            l + c <= i,
            line_col(v@, i as int) == (l + 1, c + 1),
        decreases p - i,
    {
        if v[i] == '\n' {
            l = l + 1;
            c = 0;
        } else {
            c = c + 1;
        }
        i = i + 1;
    }
    SyntaxError { offset: p, line: l + 1, column: c + 1, context: context_at(v, p) }
}

/// Parses a whole text into its terms, or says where it stops matching the
/// grammar.
pub fn parse_terms(text: &str) -> (r: Result<Vec<Term>, SyntaxError>)
    ensures
        match r {
            Ok(ts) => parse_spec(text@) == Ok::<Seq<TermV>, int>(terms_view(ts@)),
            Err(e) => parse_spec(text@) == Err::<Seq<TermV>, int>(e.offset as int) && (
            e.line as int, e.column as int) == line_col(text@, e.offset as int) && e.context
                == failure_context(text@, e.offset as int),
        },
{
    let v = chars_of(text);
    let mut ts: Vec<Term> = Vec::new();
    let mut p: usize = 0;
    loop
        invariant
            p <= v.len(),
            v@ == text@,
            parse_spec(text@) == match terms_from(v@, p as int) {
                Ok(rest) => Ok(terms_view(ts@) + rest),
                Err(e) => Err::<Seq<TermV>, int>(e),
            },
        decreases v.len() - p,
    {
        if p >= v.len() {
            assert(terms_view(ts@) + seq![] =~= terms_view(ts@));
            return Ok(ts);
        }
        match term_exec(text, &v, p) {
            Some((t, q)) => {
                let n = skip_run(&v, q, RunKind::Blank);
                if p < n {
                    proof {
                        assert(terms_view(ts@.push(t)) =~= terms_view(ts@).push(t@));
                        match terms_from(v@, n as int) {
                            Ok(rest) => {
                                assert(terms_view(ts@).push(t@) + rest =~= terms_view(ts@) + (
                                seq![t@] + rest));
                            },
                            Err(e) => {},
                        }
                    }
                    ts.push(t);
                    p = n;
                } else {
                    return Err(locate(&v, p));
                }
            },
            None => {
                return Err(locate(&v, p));
            },
        }
    }
}

/// A comment at the start of a text: `#` and the rest of its line, line
/// continuations included. Gives back what follows it.
pub fn comment(input: &str) -> (r: Option<String>)
    ensures
        match r {
            Some(rest) => input@.len() > 0 && input@[0] == '#' && rest@ == input@.subrange(
                run_end(input@, 1, RunKind::CommentBody),
                input@.len() as int,
            ),
            None => input@.len() == 0 || input@[0] != '#',
        },
{
    let v = chars_of(input);
    if v.len() == 0 || v[0] != '#' {
        return None;
    }
    let e = skip_run(&v, 1, RunKind::CommentBody);
    Some(slice(input, e, v.len()))
}

/// An assignment line at the start of a text: gives back what follows it,
/// and the name, operator and value.
pub fn var(input: &str) -> (r: Option<(String, (String, String, String))>)
    ensures
        match r {
            Some((rest, (name, op, value))) => variable_line(input@, 0) matches Some((t, e)) && t
                == (TermV::Variable { name: name@, op: op@, value: value@ }) && rest@
                == input@.subrange(e, input@.len() as int),
            None => variable_line(input@, 0) is None,
        },
{
    let v = chars_of(input);
    match variable_line_exec(input, &v, 0) {
        Some((Term::Variable(x), e)) => Some((slice(input, e, v.len()), (x.name, x.op, x.value))),
        _ => None,
    }
}

/// The grammar of one Makefile.
pub struct Makefile;

impl Parse for Makefile {
    type Error = SyntaxError;

    fn parse(input: &str) -> (r: Result<Vec<Term>, SyntaxError>)
        ensures
            match r {
                Ok(ts) => parse_spec(input@) == Ok::<Seq<TermV>, int>(terms_view(ts@)),
                Err(e) => parse_spec(input@) == Err::<Seq<TermV>, int>(e.offset as int) && (
                e.line as int, e.column as int) == line_col(input@, e.offset as int) && e.context
                    == failure_context(input@, e.offset as int),
            },
    {
        parse_terms(input)
    }
}

} // verus!
