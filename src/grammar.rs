use vstd::prelude::*;
use crate::ast::{Construct, TermV};

verus! {

/// The characters that a run of a given kind may hold.
#[derive(Debug, Clone, Copy, PartialEq, Eq, Structural)]
pub enum RunKind {
    /// Spaces and tabs.
    Blank,
    /// Anything up to the end of the line.
    CommentBody,
    /// Anything up to the end of the line or a comment.
    Rest,
}

pub open spec fn run_char(k: RunKind, c: char) -> bool {
    match k {
        RunKind::Blank => c == ' ' || c == '\t',
        RunKind::CommentBody => c != '\n' && c != '\r',
        RunKind::Rest => c != '\n' && c != '\r' && c != '#',
    }
}

/// A backslash that escapes the newline after it: the line goes on.
pub open spec fn continuation_at(s: Seq<char>, i: int) -> bool {
    0 <= i && i + 1 < s.len() && s[i] == '\\' && s[i + 1] == '\n'
}

/// Where a run of kind `k` starting at `i` ends; a continuation counts as
/// part of every run.
pub open spec fn run_end(s: Seq<char>, i: int, k: RunKind) -> int
    decreases s.len() - i,
{
    if i < 0 || i >= s.len() {
        i
    } else if continuation_at(s, i) {
        run_end(s, i + 2, k)
    } else if run_char(k, s[i]) {
        run_end(s, i + 1, k)
    } else {
        i
    }
}

/// The end of a line terminator at `i` (the end of the text counts as one),
/// or -1.
pub open spec fn eol_end(s: Seq<char>, i: int) -> int {
    if i == s.len() {
        i
    } else if 0 <= i < s.len() && s[i] == '\n' {
        i + 1
    } else {
        -1
    }
}

/// An optional comment followed by a line terminator: its end, or -1.
pub open spec fn line_tail_end(s: Seq<char>, i: int) -> int {
    let c = if 0 <= i < s.len() && s[i] == '#' {
        run_end(s, i + 1, RunKind::CommentBody)
    } else {
        i
    };
    eol_end(s, c)
}

pub open spec fn name_char(c: char) -> bool {
    ('a' <= c && c <= 'z') || ('A' <= c && c <= 'Z') || ('0' <= c && c <= '9') || c == '.' || c
        == '_' || c == '-'
}

/// Where the run of name characters that starts at `i` ends.
pub open spec fn name_end(s: Seq<char>, i: int) -> int
    decreases s.len() - i,
{
    if 0 <= i < s.len() && name_char(s[i]) {
        name_end(s, i + 1)
    } else {
        i
    }
}

/// The first index at or after `i` that holds `c`, or the length.
pub open spec fn find_char(s: Seq<char>, i: int, c: char) -> int
    decreases s.len() - i,
{
    if 0 <= i < s.len() && s[i] != c {
        find_char(s, i + 1, c)
    } else if i < 0 {
        s.len() as int
    } else {
        i
    }
}

/// Where an identifier at `i` ends: a `$(...)` reference with something
/// inside, or a run of name characters. `i` itself when there is none.
pub open spec fn ident_end(s: Seq<char>, i: int) -> int {
    if 0 <= i && i + 1 < s.len() && s[i] == '$' && s[i + 1] == '(' {
        let j = find_char(s, i + 2, ')');
        if i + 2 < j < s.len() {
            j + 1
        } else {
            i
        }
    } else {
        name_end(s, i)
    }
}

pub open spec fn starts_at(s: Seq<char>, i: int, w: Seq<char>) -> bool {
    0 <= i && i + w.len() <= s.len() && s.subrange(i, i + w.len()) == w
}

/// The first index at or after `i` where `w` occurs, or -1.
pub open spec fn find_word(s: Seq<char>, i: int, w: Seq<char>) -> int
    decreases s.len() - i,
{
    if i < 0 || i >= s.len() || i + w.len() > s.len() {
        -1
    } else if starts_at(s, i, w) {
        i
    } else {
        find_word(s, i + 1, w)
    }
}

pub open spec fn kw_define() -> Seq<char> {
    seq!['d', 'e', 'f', 'i', 'n', 'e']
}

pub open spec fn kw_endef() -> Seq<char> {
    seq!['e', 'n', 'd', 'e', 'f']
}

pub open spec fn kw_include() -> Seq<char> {
    seq!['i', 'n', 'c', 'l', 'u', 'd', 'e']
}

pub open spec fn kw_ifeq() -> Seq<char> {
    seq!['i', 'f', 'e', 'q']
}

pub open spec fn kw_ifneq() -> Seq<char> {
    seq!['i', 'f', 'n', 'e', 'q']
}

pub open spec fn kw_ifdef() -> Seq<char> {
    seq!['i', 'f', 'd', 'e', 'f']
}

pub open spec fn kw_ifndef() -> Seq<char> {
    seq!['i', 'f', 'n', 'd', 'e', 'f']
}

pub open spec fn kw_endif() -> Seq<char> {
    seq!['e', 'n', 'd', 'i', 'f']
}

/// A blank line, or blanks up to the end of the text.
pub open spec fn blank_line(s: Seq<char>, p: int) -> Option<(TermV, int)> {
    let e = eol_end(s, run_end(s, p, RunKind::Blank));
    if e >= 0 {
        Some((TermV::Empty, e))
    } else {
        None
    }
}

/// `define` up to the next `endef`.
pub open spec fn define_block(s: Seq<char>, p: int) -> Option<(TermV, int)> {
    if starts_at(s, p, kw_define()) {
        let k = find_word(s, run_end(s, p + 6, RunKind::Blank), kw_endef());
        if k >= 0 {
            Some((TermV::Unimplemented(Construct::Define), k + 5))
        } else {
            None
        }
    } else {
        None
    }
}

/// `include` and the rest of its line.
pub open spec fn include_line(s: Seq<char>, p: int) -> Option<(TermV, int)> {
    if starts_at(s, p, kw_include()) {
        let t = line_tail_end(s, run_end(s, p + 7, RunKind::Rest));
        if t >= 0 {
            Some((TermV::Unimplemented(Construct::Include), t))
        } else {
            None
        }
    } else {
        None
    }
}

/// The length of the conditional keyword at `p`, or 0.
pub open spec fn conditional_keyword_len(s: Seq<char>, p: int) -> int {
    if starts_at(s, p, kw_ifeq()) {
        4
    } else if starts_at(s, p, kw_ifneq()) {
        5
    } else if starts_at(s, p, kw_ifdef()) {
        5
    } else if starts_at(s, p, kw_ifndef()) {
        6
    } else {
        0
    }
}

/// A conditional keyword up to the next `endif`.
pub open spec fn conditional_block(s: Seq<char>, p: int) -> Option<(TermV, int)> {
    let n = conditional_keyword_len(s, p);
    if n > 0 {
        let k = find_word(s, run_end(s, p + n, RunKind::Blank), kw_endif());
        if k >= 0 {
            Some((TermV::Unimplemented(Construct::Conditional), k + 5))
        } else {
            None
        }
    } else {
        None
    }
}

/// The end of `=` or `?=` at `i`, or -1.
pub open spec fn assign_op_end(s: Seq<char>, i: int) -> int {
    if 0 <= i < s.len() && s[i] == '=' {
        i + 1
    } else if 0 <= i && i + 1 < s.len() && s[i] == '?' && s[i + 1] == '=' {
        i + 2
    } else {
        -1
    }
}

/// `NAME = value`, `NAME ?= value`; the value runs to the end of the line or
/// to a comment.
pub open spec fn variable_line(s: Seq<char>, p: int) -> Option<(TermV, int)> {
    let e = ident_end(s, p);
    let h = run_end(s, e, RunKind::Blank);
    let o = assign_op_end(s, h);
    let v = run_end(s, o, RunKind::Blank);
    let r = run_end(s, v, RunKind::Rest);
    let t = line_tail_end(s, r);
    if e > p && o >= 0 && t >= 0 {
        Some(
            (
                TermV::Variable {
                    name: s.subrange(p, e),
                    op: s.subrange(h, o),
                    value: s.subrange(v, r),
                },
                t,
            ),
        )
    } else {
        None
    }
}

/// A line that holds only blanks and a comment.
pub open spec fn comment_line(s: Seq<char>, p: int) -> Option<(TermV, int)> {
    let h = run_end(s, p, RunKind::Blank);
    if 0 <= h < s.len() && s[h] == '#' {
        let t = eol_end(s, run_end(s, h + 1, RunKind::CommentBody));
        if t >= 0 {
            Some((TermV::Empty, t))
        } else {
            None
        }
    } else {
        None
    }
}

/// The identifiers after a rule's colon, each followed by blanks, up to the
/// end of the line.
pub open spec fn dependencies(s: Seq<char>, p: int) -> Option<(Seq<Seq<char>>, int)>
    decreases s.len() - p,
{
    let t = line_tail_end(s, p);
    let e = ident_end(s, p);
    let n = run_end(s, e, RunKind::Blank);
    if p < 0 || p > s.len() {
        None
    } else if t >= 0 {
        Some((seq![], t))
    } else if p < e && e <= n && n <= s.len() {
        match dependencies(s, n) {
            Some((ds, q)) => Some((seq![s.subrange(p, e)] + ds, q)),
            None => None,
        }
    } else {
        None
    }
}

/// The recipe lines that follow a rule: tab-indented lines, whose non-empty
/// text is kept, and comment lines, which are skipped.
pub open spec fn recipes(s: Seq<char>, p: int) -> (Seq<Seq<char>>, int)
    decreases s.len() - p,
{
    if 0 <= p < s.len() && s[p] == '\t' {
        let r = run_end(s, p + 1, RunKind::Rest);
        let t = line_tail_end(s, r);
        if p < t <= s.len() && p + 1 <= r {
            let (cs, q) = recipes(s, t);
            if r > p + 1 {
                (seq![s.subrange(p + 1, r)] + cs, q)
            } else {
                (cs, q)
            }
        } else {
            (seq![], p)
        }
    } else if 0 <= p < s.len() && s[p] == '#' {
        let t = eol_end(s, run_end(s, p + 1, RunKind::CommentBody));
        if p < t <= s.len() {
            recipes(s, t)
        } else {
            (seq![], p)
        }
    } else {
        (seq![], p)
    }
}

/// `name: deps...` and its recipe lines.
pub open spec fn task_rule(s: Seq<char>, p: int) -> Option<(TermV, int)> {
    let e = ident_end(s, p);
    let h = run_end(s, e, RunKind::Blank);
    if e > p && 0 <= h < s.len() && s[h] == ':' {
        match dependencies(s, run_end(s, h + 1, RunKind::Blank)) {
            Some((ds, q)) => {
                let (cs, r) = recipes(s, q);
                Some((TermV::Task { name: s.subrange(p, e), dependencies: ds, commands: cs }, r))
            },
            None => None,
        }
    } else {
        None
    }
}

/// The term at `p`: the first of the alternatives, in this order, that
/// matches.
pub open spec fn term_at(s: Seq<char>, p: int) -> Option<(TermV, int)> {
    if blank_line(s, p) is Some {
        blank_line(s, p)
    } else if define_block(s, p) is Some {
        define_block(s, p)
    } else if include_line(s, p) is Some {
        include_line(s, p)
    } else if conditional_block(s, p) is Some {
        conditional_block(s, p)
    } else if variable_line(s, p) is Some {
        variable_line(s, p)
    } else if comment_line(s, p) is Some {
        comment_line(s, p)
    } else {
        task_rule(s, p)
    }
}

/// The construct that a line which no term matches was read as.
#[derive(Debug, Clone, Copy, PartialEq, Eq, Structural)]
pub enum ParseContext {
    Term,
    Task,
    Variable,
    Comment,
    Include,
    Define,
    Conditional,
}

/// What the line at `p` starts like: a directive keyword, a comment, a
/// rule header `name:`, an assignment `name =`, or none of these.
pub open spec fn failure_context(s: Seq<char>, p: int) -> ParseContext {
    let h = run_end(s, p, RunKind::Blank);
    let e = ident_end(s, p);
    let g = run_end(s, e, RunKind::Blank);
    if starts_at(s, p, kw_define()) {
        ParseContext::Define
    } else if starts_at(s, p, kw_include()) {
        ParseContext::Include
    } else if conditional_keyword_len(s, p) > 0 {
        ParseContext::Conditional
    } else if 0 <= h < s.len() && s[h] == '#' {
        ParseContext::Comment
    } else if e > p && 0 <= g < s.len() && s[g] == ':' {
        ParseContext::Task
    } else if e > p && assign_op_end(s, g) >= 0 {
        ParseContext::Variable
    } else {
        ParseContext::Term
    }
}

/// The terms from `p` to the end, each followed by blanks; on failure, the
/// offset of the term that no alternative matches.
pub open spec fn terms_from(s: Seq<char>, p: int) -> Result<Seq<TermV>, int>
    decreases s.len() - p,
{
    if p < 0 || p >= s.len() {
        Ok(seq![])
    } else {
        match term_at(s, p) {
            Some((t, q)) => {
                let n = run_end(s, q, RunKind::Blank);
                if p < n <= s.len() {
                    match terms_from(s, n) {
                        Ok(ts) => Ok(seq![t] + ts),
                        Err(e) => Err(e),
                    }
                } else {
                    Err(p)
                }
            },
            None => Err(p),
        }
    }
}

/// The terms of a whole text, or the offset of the first that fails.
pub open spec fn parse_spec(s: Seq<char>) -> Result<Seq<TermV>, int> {
    terms_from(s, 0)
}

/// A plain name: one or more name characters.
pub open spec fn plain_name(n: Seq<char>) -> bool {
    n.len() > 0 && forall|m: int| 0 <= m < n.len() ==> name_char(#[trigger] n[m])
}

/// The text of a recipe line: not empty, within one line, no comment, and
/// not ending in a backslash that would continue it.
pub open spec fn recipe_text(c: Seq<char>) -> bool {
    &&& c.len() > 0
    &&& forall|m: int| 0 <= m < c.len() ==> run_char(RunKind::Rest, #[trigger] c[m])
    &&& c.last() != '\\'
}

pub open spec fn begins_with(n: Seq<char>, w: Seq<char>) -> bool {
    n.len() >= w.len() && n.subrange(0, w.len() as int) == w
}

/// A name that does not read as a directive of the grammar.
pub open spec fn rule_name(n: Seq<char>) -> bool {
    &&& plain_name(n)
    &&& !begins_with(n, kw_define())
    &&& !begins_with(n, kw_include())
    &&& !begins_with(n, kw_ifeq())
    &&& !begins_with(n, kw_ifneq())
    &&& !begins_with(n, kw_ifdef())
    &&& !begins_with(n, kw_ifndef())
}

/// `name: d1 d2`, then two tab-indented recipe lines.
pub open spec fn rule_text(
    name: Seq<char>,
    d1: Seq<char>,
    d2: Seq<char>,
    c1: Seq<char>,
    c2: Seq<char>,
) -> Seq<char> {
    name + seq![':', ' '] + d1 + seq![' '] + d2 + seq!['\n', '\t'] + c1 + seq!['\n', '\t'] + c2
        + seq!['\n']
}

proof fn lemma_run_over(s: Seq<char>, i: int, j: int, k: RunKind)
    requires
        0 <= i <= j <= s.len(),
        forall|m: int| i <= m < j ==> run_char(k, #[trigger] s[m]) && !continuation_at(s, m),
        j == s.len() || (!continuation_at(s, j) && !run_char(k, s[j])),
    ensures
        run_end(s, i, k) == j,
    decreases j - i,
{
    if i < j {
        lemma_run_over(s, i + 1, j, k);
    }
}

proof fn lemma_name_over(s: Seq<char>, i: int, j: int)
    requires
        0 <= i <= j < s.len(),
        forall|m: int| i <= m < j ==> name_char(#[trigger] s[m]),
        !name_char(s[j]),
    ensures
        name_end(s, i) == j,
    decreases j - i,
{
    if i < j {
        lemma_name_over(s, i + 1, j);
    }
}

proof fn lemma_no_keyword(s: Seq<char>, name: Seq<char>, w: Seq<char>)
    requires
        plain_name(name),
        !begins_with(name, w),
        name.len() < s.len(),
        s.subrange(0, name.len() as int) == name,
        s[name.len() as int] == ':',
        forall|m: int| 0 <= m < w.len() ==> name_char(#[trigger] w[m]),
    ensures
        !starts_at(s, 0, w),
{
    if starts_at(s, 0, w) {
        if name.len() >= w.len() {
            assert(name.subrange(0, w.len() as int) =~= s.subrange(0, w.len() as int));
        } else {
            assert(s.subrange(0, w.len() as int)[name.len() as int] == s[name.len() as int]);
            assert(name_char(w[name.len() as int]));
        }
    }
}

/// Where the pieces of a rule text stand in `s`.
pub open spec fn laid_out(
    s: Seq<char>,
    name: Seq<char>,
    d1: Seq<char>,
    d2: Seq<char>,
    c1: Seq<char>,
    c2: Seq<char>,
) -> bool {
    let a = name.len() as int;
    let b = a + 2;
    let c = b + d1.len();
    let d = c + 1;
    let e = d + d2.len();
    let f = e + 2;
    let g = f + c1.len();
    let h = g + 2;
    let i = h + c2.len();
    &&& s.len() == i + 1
    &&& s.subrange(0, a) == name
    &&& s[a] == ':'
    &&& s[a + 1] == ' '
    &&& s.subrange(b, c) == d1
    &&& s[c] == ' '
    &&& s.subrange(d, e) == d2
    &&& s[e] == '\n'
    &&& s[e + 1] == '\t'
    &&& s.subrange(f, g) == c1
    &&& s[g] == '\n'
    &&& s[g + 1] == '\t'
    &&& s.subrange(h, i) == c2
    &&& s[i] == '\n'
}

proof fn lemma_rule_text_laid_out(
    name: Seq<char>,
    d1: Seq<char>,
    d2: Seq<char>,
    c1: Seq<char>,
    c2: Seq<char>,
)
    ensures
        laid_out(rule_text(name, d1, d2, c1, c2), name, d1, d2, c1, c2),
{
    let s = rule_text(name, d1, d2, c1, c2);
    let a = name.len() as int;
    let b = a + 2;
    let c = b + d1.len();
    let d = c + 1;
    let e = d + d2.len();
    let f = e + 2;
    let g = f + c1.len();
    let h = g + 2;
    let i = h + c2.len();
    assert(s.subrange(0, a) =~= name);
    assert(s.subrange(b, c) =~= d1);
    assert(s.subrange(d, e) =~= d2);
    assert(s.subrange(f, g) =~= c1);
    assert(s.subrange(h, i) =~= c2);
}

proof fn lemma_rule_head(
    s: Seq<char>,
    name: Seq<char>,
    d1: Seq<char>,
    d2: Seq<char>,
    c1: Seq<char>,
    c2: Seq<char>,
)
    requires
        laid_out(s, name, d1, d2, c1, c2),
        rule_name(name),
        plain_name(d1),
    ensures
        term_at(s, 0) == task_rule(s, 0),
        ident_end(s, 0) == name.len(),
        run_end(s, name.len() as int, RunKind::Blank) == name.len(),
        run_end(s, name.len() + 1 as int, RunKind::Blank) == name.len() + 2,
{
    let a = name.len() as int;
    assert forall|m: int| 0 <= m < a implies name_char(#[trigger] s[m]) by {
        assert(s.subrange(0, a)[m] == s[m]);
    }
    lemma_name_over(s, 0, a);
    lemma_no_keyword(s, name, kw_define());
    lemma_no_keyword(s, name, kw_include());
    lemma_no_keyword(s, name, kw_ifeq());
    lemma_no_keyword(s, name, kw_ifneq());
    lemma_no_keyword(s, name, kw_ifdef());
    lemma_no_keyword(s, name, kw_ifndef());
    assert(name_char(s[0]));
    assert(run_end(s, 0, RunKind::Blank) == 0);
    assert(blank_line(s, 0) is None);
    assert(ident_end(s, 0) == a);
    assert(run_end(s, a, RunKind::Blank) == a);
    assert(variable_line(s, 0) is None);
    assert(s.subrange(a + 2, a + 2 + d1.len())[0] == s[a + 2]);
    assert(name_char(d1[0]));
    lemma_run_over(s, a + 1, a + 2, RunKind::Blank);
}

proof fn lemma_rule_dependencies(
    s: Seq<char>,
    name: Seq<char>,
    d1: Seq<char>,
    d2: Seq<char>,
    c1: Seq<char>,
    c2: Seq<char>,
)
    requires
        laid_out(s, name, d1, d2, c1, c2),
        plain_name(d1),
        plain_name(d2),
    ensures
        dependencies(s, name.len() + 2 as int) == Some(
            (seq![d1, d2], (name.len() + 2 + d1.len() + 1 + d2.len() + 1) as int),
        ),
{
    let a = name.len() as int;
    let b = a + 2;
    let c = b + d1.len();
    let d = c + 1;
    let e = d + d2.len();
    assert forall|m: int| b <= m < c implies name_char(#[trigger] s[m]) by {
        assert(s.subrange(b, c)[m - b] == s[m]);
    }
    assert forall|m: int| d <= m < e implies name_char(#[trigger] s[m]) by {
        assert(s.subrange(d, e)[m - d] == s[m]);
    }
    assert(s[b] == d1[0]);
    assert(s[d] == d2[0]);
    lemma_name_over(s, b, c);
    lemma_run_over(s, c, d, RunKind::Blank);
    lemma_name_over(s, d, e);
    lemma_run_over(s, e, e, RunKind::Blank);
    assert(ident_end(s, b) == c);
    assert(ident_end(s, d) == e);
    assert(line_tail_end(s, b) == -1);
    assert(line_tail_end(s, d) == -1);
    assert(line_tail_end(s, e) == e + 1);
    assert(dependencies(s, e) == Some((Seq::<Seq<char>>::empty(), e + 1)));
    assert(seq![d2] + Seq::<Seq<char>>::empty() =~= seq![d2]);
    assert(dependencies(s, d) == Some((seq![d2], e + 1)));
    assert(seq![d1] + seq![d2] =~= seq![d1, d2]);
}

proof fn lemma_recipe_line(s: Seq<char>, f: int, g: int, c: Seq<char>)
    requires
        0 < f <= g < s.len(),
        s[f - 1] == '\t',
        s.subrange(f, g) == c,
        s[g] == '\n',
        recipe_text(c),
    ensures
        run_end(s, f, RunKind::Rest) == g,
        line_tail_end(s, g) == g + 1,
{
    assert forall|m: int| f <= m < g implies run_char(RunKind::Rest, #[trigger] s[m])
        && !continuation_at(s, m) by {
        assert(s.subrange(f, g)[m - f] == s[m]);
        assert(run_char(RunKind::Rest, c[m - f]));
        if m + 1 < g {
            assert(s.subrange(f, g)[m + 1 - f] == s[m + 1]);
            assert(run_char(RunKind::Rest, c[m + 1 - f]));
        } else {
            assert(c[m - f] == c.last());
        }
    }
    lemma_run_over(s, f, g, RunKind::Rest);
}

proof fn lemma_rule_recipes(
    s: Seq<char>,
    name: Seq<char>,
    d1: Seq<char>,
    d2: Seq<char>,
    c1: Seq<char>,
    c2: Seq<char>,
)
    requires
        laid_out(s, name, d1, d2, c1, c2),
        recipe_text(c1),
        recipe_text(c2),
    ensures
        recipes(s, (name.len() + 2 + d1.len() + 1 + d2.len() + 1) as int) == (seq![c1, c2], s.len() as int),
{
    let a = name.len() as int;
    let e = a + 2 + d1.len() + 1 + d2.len();
    let f = e + 2;
    let g = f + c1.len();
    let h = g + 2;
    let i = h + c2.len();
    lemma_recipe_line(s, f, g, c1);
    lemma_recipe_line(s, h, i, c2);
    assert(recipes(s, i + 1) == (Seq::<Seq<char>>::empty(), i + 1));
    assert(seq![c2] + Seq::<Seq<char>>::empty() =~= seq![c2]);
    assert(recipes(s, g + 1) == (seq![c2], i + 1));
    assert(seq![c1] + seq![c2] =~= seq![c1, c2]);
}

/// A rule with two dependencies and two recipe lines parses to exactly that
/// one task.
pub proof fn lemma_rule_round_trip(
    name: Seq<char>,
    d1: Seq<char>,
    d2: Seq<char>,
    c1: Seq<char>,
    c2: Seq<char>,
)
    requires
        rule_name(name),
        plain_name(d1),
        plain_name(d2),
        recipe_text(c1),
        recipe_text(c2),
    ensures
        parse_spec(rule_text(name, d1, d2, c1, c2)) == Ok::<Seq<TermV>, int>(
            seq![TermV::Task { name, dependencies: seq![d1, d2], commands: seq![c1, c2] }],
        ),
{
    let s = rule_text(name, d1, d2, c1, c2);
    let t = TermV::Task { name, dependencies: seq![d1, d2], commands: seq![c1, c2] };
    lemma_rule_text_laid_out(name, d1, d2, c1, c2);
    lemma_rule_head(s, name, d1, d2, c1, c2);
    lemma_rule_dependencies(s, name, d1, d2, c1, c2);
    lemma_rule_recipes(s, name, d1, d2, c1, c2);
    assert(task_rule(s, 0) == Some((t, s.len() as int)));
    assert(run_end(s, s.len() as int, RunKind::Blank) == s.len());
    assert(terms_from(s, s.len() as int) == Ok::<Seq<TermV>, int>(seq![]));
    assert(seq![t] + Seq::<TermV>::empty() =~= seq![t]);
}

/// Each dependency written after a space.
pub open spec fn deps_text(ds: Seq<Seq<char>>) -> Seq<char>
    decreases ds.len(),
{
    if ds.len() == 0 {
        seq![]
    } else {
        seq![' '] + ds[0] + deps_text(ds.drop_first())
    }
}

/// Each recipe line written after a tab and ended by a newline.
pub open spec fn recipe_block(cs: Seq<Seq<char>>) -> Seq<char>
    decreases cs.len(),
{
    if cs.len() == 0 {
        seq![]
    } else {
        seq!['\t'] + cs[0] + seq!['\n'] + recipe_block(cs.drop_first())
    }
}

proof fn lemma_deps_text(s: Seq<char>, p: int, q: int, ds: Seq<Seq<char>>)
    requires
        0 <= p <= q < s.len(),
        s.subrange(p, q) == deps_text(ds),
        s[q] == '\n',
        forall|k: int| 0 <= k < ds.len() ==> plain_name(#[trigger] ds[k]),
    ensures
        dependencies(s, run_end(s, p, RunKind::Blank)) == Some((ds, q + 1)),
    decreases ds.len(),
{
    if ds.len() == 0 {
        assert(s.subrange(p, q).len() == 0);
        lemma_run_over(s, p, p, RunKind::Blank);
        assert(line_tail_end(s, q) == q + 1);
    } else {
        let d0 = ds[0];
        let rest = ds.drop_first();
        let e = p + 1 + d0.len();
        assert(plain_name(d0));
        assert forall|k: int| 0 <= k < rest.len() implies plain_name(#[trigger] rest[k]) by {
            assert(rest[k] == ds[k + 1]);
        }
        let t = s.subrange(p, q);
        assert(t[0] == ' ');
        assert(s[p] == t[0]);
        assert forall|m: int| p + 1 <= m < e implies name_char(#[trigger] s[m]) by {
            assert(s[m] == t[m - p]);
            assert(t[m - p] == d0[m - p - 1]);
        }
        assert(s[p + 1] == d0[0]) by {
            assert(s[p + 1] == t[1]);
        }
        assert(s.subrange(e, q) =~= deps_text(rest)) by {
            assert forall|m: int| 0 <= m < q - e implies s.subrange(e, q)[m] == deps_text(rest)[m] by {
                assert(s.subrange(e, q)[m] == t[m + e - p]);
            }
        }
        if rest.len() == 0 {
            assert(e == q);
        } else {
            assert(deps_text(rest)[0] == ' ');
            assert(s[e] == ' ');
        }
        assert(!name_char(s[e]));
        lemma_run_over(s, p, p + 1, RunKind::Blank);
        lemma_name_over(s, p + 1, e);
        lemma_deps_text(s, e, q, rest);
        assert(line_tail_end(s, p + 1) == -1);
        assert(ident_end(s, p + 1) == e);
        assert(s.subrange(p + 1, e) =~= d0) by {
            assert forall|m: int| 0 <= m < d0.len() implies s.subrange(p + 1, e)[m] == d0[m] by {
                assert(s[p + 1 + m] == t[m + 1]);
            }
        }
        lemma_run_end_bounds(s, e, RunKind::Blank);
        assert(seq![d0] + rest =~= ds);
    }
}

proof fn lemma_run_end_bounds(s: Seq<char>, i: int, k: RunKind)
    requires
        0 <= i <= s.len(),
    ensures
        i <= run_end(s, i, k) <= s.len(),
    decreases s.len() - i,
{
    if i < s.len() {
        if continuation_at(s, i) {
            lemma_run_end_bounds(s, i + 2, k);
        } else if run_char(k, s[i]) {
            lemma_run_end_bounds(s, i + 1, k);
        }
    }
}

proof fn lemma_recipe_block(s: Seq<char>, p: int, q: int, cs: Seq<Seq<char>>)
    requires
        0 <= p <= q <= s.len(),
        s.subrange(p, q) == recipe_block(cs),
        q == s.len() || (s[q] != '\t' && s[q] != '#'),
        forall|k: int| 0 <= k < cs.len() ==> recipe_text(#[trigger] cs[k]),
    ensures
        recipes(s, p) == (cs, q),
    decreases cs.len(),
{
    if cs.len() == 0 {
        assert(s.subrange(p, q).len() == 0);
    } else {
        let c0 = cs[0];
        let rest = cs.drop_first();
        let f = p + 1;
        let g = f + c0.len();
        assert(recipe_text(c0));
        assert forall|k: int| 0 <= k < rest.len() implies recipe_text(#[trigger] rest[k]) by {
            assert(rest[k] == cs[k + 1]);
        }
        let t = s.subrange(p, q);
        let blk = seq!['\t'] + c0 + seq!['\n'] + recipe_block(rest);
        assert(recipe_block(cs) == blk);
        assert(t.len() == blk.len());
        assert(blk[0] == '\t');
        assert(blk[g - p] == '\n');
        assert(s[p] == t[0]);
        assert(s[g] == t[g - p]);
        assert(s.subrange(f, g) =~= c0) by {
            assert forall|m: int| 0 <= m < c0.len() implies s.subrange(f, g)[m] == c0[m] by {
                assert(s[f + m] == t[m + 1]);
                assert(blk[m + 1] == c0[m]);
            }
        }
        assert(s.subrange(g + 1, q) =~= recipe_block(rest)) by {
            assert forall|m: int| 0 <= m < q - g - 1 implies s.subrange(g + 1, q)[m] == recipe_block(
                rest,
            )[m] by {
                assert(s.subrange(g + 1, q)[m] == t[m + g + 1 - p]);
                assert(blk[m + g + 1 - p] == recipe_block(rest)[m]);
            }
        }
        lemma_recipe_line(s, f, g, c0);
        lemma_recipe_block(s, g + 1, q, rest);
        assert(seq![s.subrange(f, g)] + rest =~= cs);
    }
}

proof fn lemma_general_head(s: Seq<char>, name: Seq<char>)
    requires
        rule_name(name),
        name.len() < s.len(),
        s.subrange(0, name.len() as int) == name,
        s[name.len() as int] == ':',
    ensures
        term_at(s, 0) == task_rule(s, 0),
        ident_end(s, 0) == name.len(),
        run_end(s, name.len() as int, RunKind::Blank) == name.len(),
{
    let a = name.len() as int;
    assert forall|m: int| 0 <= m < a implies name_char(#[trigger] s[m]) by {
        assert(s.subrange(0, a)[m] == s[m]);
    }
    lemma_name_over(s, 0, a);
    lemma_no_keyword(s, name, kw_define());
    lemma_no_keyword(s, name, kw_include());
    lemma_no_keyword(s, name, kw_ifeq());
    lemma_no_keyword(s, name, kw_ifneq());
    lemma_no_keyword(s, name, kw_ifdef());
    lemma_no_keyword(s, name, kw_ifndef());
    assert(name_char(s[0]));
    assert(run_end(s, 0, RunKind::Blank) == 0);
    assert(blank_line(s, 0) is None);
    assert(ident_end(s, 0) == a);
    assert(run_end(s, a, RunKind::Blank) == a);
    assert(variable_line(s, 0) is None);
    assert(comment_line(s, 0) is None);
}

/// A rule with any number of dependencies and recipe lines, followed by text
/// that starts with neither a tab nor `#`, is read as exactly that task, and
/// reading stops where that text begins.
pub proof fn lemma_rule_reads_back(
    name: Seq<char>,
    ds: Seq<Seq<char>>,
    cs: Seq<Seq<char>>,
    rest: Seq<char>,
)
    requires
        rule_name(name),
        forall|k: int| 0 <= k < ds.len() ==> plain_name(#[trigger] ds[k]),
        forall|k: int| 0 <= k < cs.len() ==> recipe_text(#[trigger] cs[k]),
        rest.len() == 0 || (rest[0] != '\t' && rest[0] != '#'),
    ensures
        ({
            let s = name + seq![':'] + deps_text(ds) + seq!['\n'] + recipe_block(cs) + rest;
            term_at(s, 0) == Some(
                (
                    TermV::Task { name, dependencies: ds, commands: cs },
                    s.len() - rest.len(),
                ),
            )
        }),
{
    let s = name + seq![':'] + deps_text(ds) + seq!['\n'] + recipe_block(cs) + rest;
    let a = name.len() as int;
    let q = a + 1 + deps_text(ds).len();
    let r = q + 1 + recipe_block(cs).len();
    assert(s.subrange(0, a) =~= name);
    assert(s[a] == ':');
    assert(s.subrange(a + 1, q) =~= deps_text(ds));
    assert(s[q] == '\n');
    assert(s.subrange(q + 1, r) =~= recipe_block(cs));
    assert(r == s.len() - rest.len());
    if rest.len() > 0 {
        assert(s[r] == rest[0]);
    }
    lemma_general_head(s, name);
    lemma_deps_text(s, a + 1, q, ds);
    lemma_recipe_block(s, q + 1, r, cs);
}

} // verus!
