use vstd::prelude::*;
use crate::ast::{lemma_views_push, views};
use crate::parser::chars_of;

verus! {

/// The arguments of the first `make ` invocation of a command line, as regex
/// finds them.
pub uninterp spec fn make_args_of(line: Seq<char>) -> Option<Seq<char>>;

/// The directory of a `-C` flag or the file of an `-f` flag in an argument
/// text, as regex finds it.
pub uninterp spec fn path_flag_of(args: Seq<char>) -> Option<Seq<char>>;

pub open spec fn opt_view(r: Option<String>) -> Option<Seq<char>> {
    match r {
        Some(s) => Some(s@),
        None => None,
    }
}

/// Relies on regex's `Regex::captures` over the pattern
/// `make (((\\\n)|([^\n#|&>]))+)\n?`: the text of its first group.
#[verifier::external_body]
fn make_arguments(line: &str) -> (r: Option<String>)
    ensures
        opt_view(r) == make_args_of(line@),
{
    let re = regex::Regex::new(r"make (((\\\n)|([^\n#|&>]))+)\n?").unwrap();
    re.captures(line).map(|c| c[1].to_string())
}

/// Relies on regex's `Regex::captures` over the pattern
/// `(-C ?([^\s]+)|-f ?(((\\ )|[^\s])+))`: the text of its second group, or
/// else of its third.
#[verifier::external_body]
fn path_flag(args: &str) -> (r: Option<String>)
    ensures
        opt_view(r) == path_flag_of(args@),
{
    let re = regex::Regex::new(r"(-C ?([^\s]+)|-f ?(((\\ )|[^\s])+))").unwrap();
    re.captures(args).and_then(|c| c.get(2).or_else(|| c.get(3))).map(|m| m.as_str().to_string())
}

pub open spec fn is_space(c: char) -> bool {
    c == ' ' || c == '\t' || c == '\n' || c == '\r' || c == '\x0b' || c == '\x0c'
}

/// A backslash before a newline: the argument text goes on, and the
/// tokens are apart.
pub open spec fn line_break_at(s: Seq<char>, i: int) -> bool {
    0 <= i && i + 1 < s.len() && s[i] == '\\' && s[i + 1] == '\n'
}

/// A backslash before a space: the space belongs to the token.
pub open spec fn escaped_space_at(s: Seq<char>, i: int) -> bool {
    0 <= i && i + 1 < s.len() && s[i] == '\\' && s[i + 1] == ' '
}

/// Where the token that starts at `i` ends.
pub open spec fn token_end(s: Seq<char>, i: int) -> int
    decreases s.len() - i,
{
    if 0 <= i < s.len() && !is_space(s[i]) && !line_break_at(s, i) {
        if escaped_space_at(s, i) {
            token_end(s, i + 2)
        } else {
            token_end(s, i + 1)
        }
    } else {
        i
    }
}

/// The whitespace-separated tokens of `s` from `i` on.
pub open spec fn tokens_from(s: Seq<char>, i: int) -> Seq<Seq<char>>
    decreases s.len() - i,
{
    if i < 0 || i >= s.len() {
        seq![]
    } else if is_space(s[i]) {
        tokens_from(s, i + 1)
    } else if line_break_at(s, i) {
        tokens_from(s, i + 2)
    } else {
        let e = token_end(s, i);
        if i < e <= s.len() {
            seq![s.subrange(i, e)] + tokens_from(s, e)
        } else {
            seq![]
        }
    }
}

/// A token that names a task: not a flag, not an assignment, and without
/// `:` or `/`.
pub open spec fn task_token(t: Seq<char>) -> bool {
    t.len() > 0 && t[0] != '-' && !t.contains('=') && !t.contains(':') && !t.contains('/')
}

/// A flag whose value, when written apart, is the next token.
pub open spec fn path_flag_token(t: Seq<char>) -> bool {
    t == seq!['-', 'C'] || t == seq!['-', 'f']
}

/// The tokens that name tasks, in order; the value of a `-C` or `-f` flag
/// is none of them.
pub open spec fn task_names(toks: Seq<Seq<char>>) -> Seq<Seq<char>>
    decreases toks.len(),
{
    if toks.len() == 0 {
        seq![]
    } else {
        let prev = task_names(toks.drop_last());
        let n = toks.len();
        if task_token(toks[n - 1]) && !(n >= 2 && path_flag_token(toks[n - 2])) {
            prev.push(toks[n - 1])
        } else {
            prev
        }
    }
}

fn is_space_char(c: char) -> (r: bool)
    ensures
        r == is_space(c),
{
    c == ' ' || c == '\t' || c == '\n' || c == '\r' || c == '\x0b' || c == '\x0c'
}

/// Splits a text at whitespace.
pub fn tokens(s: &str) -> (r: Vec<String>)
    ensures
        views(r@) == tokens_from(s@, 0),
{
    let v = chars_of(s);
    let mut out: Vec<String> = Vec::new();
    let mut i: usize = 0;
    while i < v.len()
        invariant
            v@ == s@,
            i <= v.len(),
            tokens_from(s@, 0) == views(out@) + tokens_from(s@, i as int),
        decreases v.len() - i,
    {
        if is_space_char(v[i]) {
            i = i + 1;
        } else if i + 1 < v.len() && v[i] == '\\' && v[i + 1] == '\n' {
            i = i + 2;
        } else {
            let mut e = i;
            while e < v.len() && !is_space_char(v[e]) && !(e + 1 < v.len() && v[e] == '\\' && v[e
                + 1] == '\n')
                invariant
                    i <= e <= v.len(),
                    token_end(v@, e as int) == token_end(v@, i as int),
                decreases v.len() - e,
            {
                if e + 1 < v.len() && v[e] == '\\' && v[e + 1] == ' ' {
                    e = e + 2;
                } else {
                    e = e + 1;
                }
            }
            let t = s.substring_char(i, e).to_owned();
            proof {
                lemma_views_push(out@, t);
                assert(views(out@).push(t@) + tokens_from(s@, e as int) =~= views(out@) + (seq![t@]
                    + tokens_from(s@, e as int)));
            }
            out.push(t);
            i = e;
        }
    }
    assert(views(out@) + seq![] =~= views(out@));
    out
}

fn is_task_token(t: &String) -> (r: bool)
    ensures
        r == task_token(t@),
{
    let v = chars_of(t.as_str());
    if v.len() == 0 {
        return false;
    }
    if v[0] == '-' {
        return false;
    }
    let mut i: usize = 0;
    while i < v.len()
        invariant
            v@ == t@,
            i <= v.len(),
            forall|j: int| 0 <= j < i ==> v@[j] != '=' && v@[j] != ':' && v@[j] != '/',
        decreases v.len() - i,
    {
        if v[i] == '=' || v[i] == ':' || v[i] == '/' {
            assert(t@[i as int] == v@[i as int]);
            return false;
        }
        i = i + 1;
    }
    true
}

fn is_path_flag(t: &String) -> (r: bool)
    ensures
        r == path_flag_token(t@),
{
    let v = chars_of(t.as_str());
    let r = v.len() == 2 && v[0] == '-' && (v[1] == 'C' || v[1] == 'f');
    proof {
        if r {
            assert(t@ =~= seq!['-', v@[1]]);
        }
    }
    r
}

/// The task names that a `make` argument text asks for, in order.
pub fn requested_tasks(args: &str) -> (r: Vec<String>)
    ensures
        views(r@) == task_names(tokens_from(args@, 0)),
{
    let toks = tokens(args);
    let mut out: Vec<String> = Vec::new();
    let mut i: usize = 0;
    while i < toks.len()
        invariant
            i <= toks.len(),
            views(toks@) == tokens_from(args@, 0),
            views(out@) == task_names(views(toks@).subrange(0, i as int)),
        decreases toks.len() - i,
    {
        assert(views(toks@).subrange(0, i + 1).drop_last() =~= views(toks@).subrange(0, i as int));
        let after_flag = i >= 1 && is_path_flag(&toks[i - 1]);
        if is_task_token(&toks[i]) && !after_flag {
            let t = toks[i].clone();
            proof {
                lemma_views_push(out@, t);
            }
            out.push(t);
        }
        i = i + 1;
    }
    assert(views(toks@).subrange(0, toks.len() as int) =~= views(toks@));
    out
}

/// The invocation that a recipe line describes: the path, still holding its
/// references, and the task names.
pub open spec fn invocation_of(line: Seq<char>) -> Option<(Seq<char>, Seq<Seq<char>>)> {
    match make_args_of(line) {
        None => None,
        Some(a) => match path_flag_of(a) {
            None => None,
            Some(p) => Some((p, task_names(tokens_from(a, 0)))),
        },
    }
}

/// The external invocation that a recipe line describes: the path given to
/// `make` by `-C` or `-f`, still holding its variable references, and the
/// tasks it asks for. None when the line runs no `make` or gives it no path.
pub fn parse_make_line(line: &str) -> (r: Option<(String, Vec<String>)>)
    ensures
        match r {
            Some((path, tasks)) => invocation_of(line@) == Some((path@, views(tasks@))),
            None => invocation_of(line@) is None,
        },
{
    let args = match make_arguments(line) {
        Some(a) => a,
        None => return None,
    };
    let path = match path_flag(args.as_str()) {
        Some(p) => p,
        None => return None,
    };
    let tasks = requested_tasks(args.as_str());
    Some((path, tasks))
}

} // verus!
