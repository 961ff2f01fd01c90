use vstd::prelude::*;
use crate::grammar::{
    eol_end, find_char, find_word, ident_end, line_tail_end, name_char, name_end,
    run_char, run_end, starts_at, RunKind,
};

verus! {

/// An optional position as the spec functions write it: -1 for none.
pub open spec fn pos_of(r: Option<usize>) -> int {
    match r {
        Some(e) => e as int,
        None => -1,
    }
}

pub fn is_run_char(k: RunKind, c: char) -> (r: bool)
    ensures
        r == run_char(k, c),
{
    match k {
        RunKind::Blank => c == ' ' || c == '\t',
        RunKind::CommentBody => c != '\n' && c != '\r',
        RunKind::Rest => c != '\n' && c != '\r' && c != '#',
    }
}

pub fn is_name_char(c: char) -> (r: bool)
    ensures
        r == name_char(c),
{
    ('a' <= c && c <= 'z') || ('A' <= c && c <= 'Z') || ('0' <= c && c <= '9') || c == '.' || c
        == '_' || c == '-'
}

pub fn skip_run(v: &Vec<char>, i: usize, k: RunKind) -> (r: usize)
    requires
        i <= v.len(),
    ensures
        r as int == run_end(v@, i as int, k),
        i <= r <= v.len(),
{
    let mut j = i;
    loop
        invariant
            i <= j <= v.len(),
            run_end(v@, j as int, k) == run_end(v@, i as int, k),
        decreases v.len() - j,
    {
        if j >= v.len() {
            return j;
        }
        if j + 1 < v.len() && v[j] == '\\' && v[j + 1] == '\n' {
            j = j + 2;
        } else if is_run_char(k, v[j]) {
            j = j + 1;
        } else {
            return j;
        }
    }
}

pub fn skip_eol(v: &Vec<char>, i: usize) -> (r: Option<usize>)
    requires
        i <= v.len(),
    ensures
        pos_of(r) == eol_end(v@, i as int),
        r matches Some(e) ==> i <= e <= v.len(),
{
    if i == v.len() {
        Some(i)
    } else if v[i] == '\n' {
        Some(i + 1)
    } else {
        None
    }
}

pub fn skip_line_tail(v: &Vec<char>, i: usize) -> (r: Option<usize>)
    requires
        i <= v.len(),
    ensures
        pos_of(r) == line_tail_end(v@, i as int),
        r matches Some(e) ==> i <= e <= v.len(),
{
    let c = if i < v.len() && v[i] == '#' {
        skip_run(v, i + 1, RunKind::CommentBody)
    } else {
        i
    };
    skip_eol(v, c)
}

pub fn skip_name(v: &Vec<char>, i: usize) -> (r: usize)
    requires
        i <= v.len(),
    ensures
        r as int == name_end(v@, i as int),
        i <= r <= v.len(),
{
    let mut j = i;
    while j < v.len() && is_name_char(v[j])
        invariant
            i <= j <= v.len(),
            name_end(v@, j as int) == name_end(v@, i as int),
        decreases v.len() - j,
    {
        j = j + 1;
    }
    j
}

pub fn seek_char(v: &Vec<char>, i: usize, c: char) -> (r: usize)
    requires
        i <= v.len(),
    ensures
        r as int == find_char(v@, i as int, c),
        i <= r <= v.len(),
{
    let mut j = i;
    while j < v.len() && v[j] != c
        invariant
            i <= j <= v.len(),
            find_char(v@, j as int, c) == find_char(v@, i as int, c),
        decreases v.len() - j,
    {
        j = j + 1;
    }
    j
}

pub fn skip_ident(v: &Vec<char>, i: usize) -> (r: usize)
    requires
        i <= v.len(),
    ensures
        r as int == ident_end(v@, i as int),
        i <= r <= v.len(),
{
    if i < v.len() && i + 1 < v.len() && v[i] == '$' && v[i + 1] == '(' {
        let j = seek_char(v, i + 2, ')');
        if i + 2 < j && j < v.len() {
            j + 1
        } else {
            i
        }
    } else {
        skip_name(v, i)
    }
}

pub fn word_at(v: &Vec<char>, i: usize, w: &Vec<char>) -> (r: bool)
    requires
        i <= v.len(),
    ensures
        r == starts_at(v@, i as int, w@),
{
    if w.len() > v.len() - i {
        return false;
    }
    let mut k: usize = 0;
    while k < w.len()
        invariant
            i + w.len() <= v.len(),
            k <= w.len(),
            forall|m: int| 0 <= m < k ==> v@[i + m] == w@[m],
        decreases w.len() - k,
    {
        if v[i + k] != w[k] {
            assert(v@.subrange(i as int, i + w.len())[k as int] != w@[k as int]);
            return false;
        }
        k = k + 1;
    }
    assert(v@.subrange(i as int, i + w.len()) =~= w@);
    true
}

pub fn seek_word(v: &Vec<char>, i: usize, w: &Vec<char>) -> (r: Option<usize>)
    requires
        i <= v.len(),
    ensures
        pos_of(r) == find_word(v@, i as int, w@),
        r matches Some(e) ==> i <= e && e + w.len() <= v.len(),
{
    let mut j = i;
    loop
        invariant
            i <= j <= v.len(),
            find_word(v@, j as int, w@) == find_word(v@, i as int, w@),
        decreases v.len() - j,
    {
        if j >= v.len() || w.len() > v.len() - j {
            return None;
        }
        if word_at(v, j, w) {
            return Some(j);
        }
        j = j + 1;
    }
}

} // verus!
