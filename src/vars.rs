use vstd::prelude::*;
use crate::ast::{views, Variable};

verus! {

/// The names inside the `${NAME}` references of a text, in order, as regex
/// finds them.
pub uninterp spec fn var_ref_names_of(s: Seq<char>) -> Seq<Seq<char>>;

/// The pieces of a text between its `${NAME}` references, as regex splits
/// it.
pub uninterp spec fn var_ref_gaps_of(s: Seq<char>) -> Seq<Seq<char>>;

/// A reference written out: `${NAME}`.
pub open spec fn reference(name: Seq<char>) -> Seq<char> {
    seq!['$', '{'] + name + seq!['}']
}

/// Gaps and names put back together, each name written as a reference.
pub open spec fn with_refs(gaps: Seq<Seq<char>>, names: Seq<Seq<char>>) -> Seq<char>
    decreases names.len(),
{
    if names.len() == 0 || gaps.len() != names.len() + 1 {
        if gaps.len() > 0 {
            gaps[0]
        } else {
            seq![]
        }
    } else {
        with_refs(gaps.drop_last(), names.drop_last()) + reference(names.last()) + gaps.last()
    }
}

/// Relies on regex's `Regex::captures_iter` over the pattern `\$\{([^}]+)\}`:
/// the text of the first group of each match.
#[verifier::external_body]
fn var_ref_names(s: &str) -> (r: Vec<String>)
    ensures
        views(r@) == var_ref_names_of(s@),
{
    let re = regex::Regex::new(r"\$\{([^}]+)\}").unwrap();
    re.captures_iter(s).map(|c| c[1].to_string()).collect()
}

/// Relies on regex's `Regex::split` over the pattern `\$\{([^}]+)\}`: one
/// piece more than there are matches, and the pieces with the matches
/// between them give back the text.
#[verifier::external_body]
fn var_ref_gaps(s: &str) -> (r: Vec<String>)
    ensures
        views(r@) == var_ref_gaps_of(s@),
        r@.len() == var_ref_names_of(s@).len() + 1,
        with_refs(views(r@), var_ref_names_of(s@)) == s@,
{
    let re = regex::Regex::new(r"\$\{([^}]+)\}").unwrap();
    re.split(s).map(|p| p.to_string()).collect()
}

/// The value that a table of variables gives a name: the last definition
/// of it.
pub open spec fn var_value(vars: Seq<Variable>, name: Seq<char>) -> Option<Seq<char>>
    decreases vars.len(),
{
    if vars.len() == 0 {
        None
    } else if vars.last().name@ == name {
        Some(vars.last().value@)
    } else {
        var_value(vars.drop_last(), name)
    }
}

/// What a reference is replaced by: the variable's value, or the reference
/// itself when the name is not defined.
pub open spec fn replacement(vars: Seq<Variable>, name: Seq<char>) -> Seq<char> {
    match var_value(vars, name) {
        Some(v) => v,
        None => reference(name),
    }
}

/// Gaps and names put back together, each name replaced once.
pub open spec fn substituted(gaps: Seq<Seq<char>>, names: Seq<Seq<char>>, vars: Seq<Variable>) -> Seq<
    char,
>
    decreases names.len(),
{
    if names.len() == 0 || gaps.len() != names.len() + 1 {
        if gaps.len() > 0 {
            gaps[0]
        } else {
            seq![]
        }
    } else {
        substituted(gaps.drop_last(), names.drop_last(), vars) + replacement(vars, names.last())
            + gaps.last()
    }
}

/// Looks a variable up; the last definition of the name wins.
pub fn lookup<'a>(vars: &'a Vec<Variable>, name: &String) -> (r: Option<&'a String>)
    ensures
        match r {
            Some(v) => var_value(vars@, name@) == Some(v@),
            None => var_value(vars@, name@) is None,
        },
{
    let mut k = vars.len();
    assert(vars@.subrange(0, k as int) =~= vars@);
    while k > 0
        invariant
            k <= vars.len(),
            var_value(vars@, name@) == var_value(vars@.subrange(0, k as int), name@),
        decreases k,
    {
        assert(vars@.subrange(0, k - 1) =~= vars@.subrange(0, k as int).drop_last());
        if vars[k - 1].name == *name {
            return Some(&vars[k - 1].value);
        }
        k = k - 1;
    }
    None
}

fn reference_string(name: &String) -> (r: String)
    ensures
        r@ == reference(name@),
{
    proof {
        reveal_strlit("${");
        reveal_strlit("}");
    }
    let mut r = String::new();
    r.append("${");
    r.append(name.as_str());
    r.append("}");
    r
}

/// Puts pieces and references back together, each reference replaced by its
/// variable's value, or left as it is when the name is not defined. Values
/// are not expanded again.
pub fn substitute(gaps: &Vec<String>, names: &Vec<String>, vars: &Vec<Variable>) -> (r: String)
    requires
        gaps.len() == names.len() + 1,
    ensures
        r@ == substituted(views(gaps@), views(names@), vars@),
{
    let mut out = gaps[0].clone();
    let mut i: usize = 0;
    while i < names.len()
        invariant
            gaps.len() == names.len() + 1,
            i <= names.len(),
            out@ == substituted(
                views(gaps@.subrange(0, i + 1)),
                views(names@.subrange(0, i as int)),
                vars@,
            ),
        decreases names.len() - i,
    {
        proof {
            let g2 = views(gaps@.subrange(0, i + 2));
            let n2 = views(names@.subrange(0, i + 1));
            assert(g2.drop_last() =~= views(gaps@.subrange(0, i + 1)));
            assert(n2.drop_last() =~= views(names@.subrange(0, i as int)));
        }
        match lookup(vars, &names[i]) {
            Some(v) => out.append(v.as_str()),
            None => {
                let refr = reference_string(&names[i]);
                out.append(refr.as_str());
            },
        }
        out.append(gaps[i + 1].as_str());
        i = i + 1;
    }
    proof {
        assert(gaps@.subrange(0, names.len() + 1) =~= gaps@);
        assert(names@.subrange(0, names.len() as int) =~= names@);
    }
    out
}

/// Replaces every `${NAME}` reference of a text, in one pass.
pub fn resolve_text(s: &str, vars: &Vec<Variable>) -> (r: String)
    ensures
        r@ == substituted(var_ref_gaps_of(s@), var_ref_names_of(s@), vars@),
        (forall|i: int|
            0 <= i < var_ref_names_of(s@).len() ==> var_value(
                vars@,
                #[trigger] var_ref_names_of(s@)[i],
            ) is None) ==> r@ == s@,
{
    let names = var_ref_names(s);
    let gaps = var_ref_gaps(s);
    let r = substitute(&gaps, &names, vars);
    proof {
        if forall|i: int|
            0 <= i < var_ref_names_of(s@).len() ==> var_value(
                vars@,
                #[trigger] var_ref_names_of(s@)[i],
            ) is None {
            lemma_substituted_undefined(var_ref_gaps_of(s@), var_ref_names_of(s@), vars@);
        }
    }
    r
}

/// With no reference's name defined, substitution gives the text back.
pub proof fn lemma_substituted_undefined(
    gaps: Seq<Seq<char>>,
    names: Seq<Seq<char>>,
    vars: Seq<Variable>,
)
    requires
        forall|i: int| 0 <= i < names.len() ==> var_value(vars, #[trigger] names[i]) is None,
    ensures
        substituted(gaps, names, vars) == with_refs(gaps, names),
    decreases names.len(),
{
    if names.len() > 0 && gaps.len() == names.len() + 1 {
        let n2 = names.drop_last();
        assert forall|i: int| 0 <= i < n2.len() implies var_value(vars, #[trigger] n2[i]) is None by {
            assert(n2[i] == names[i]);
        }
        lemma_substituted_undefined(gaps.drop_last(), n2, vars);
        assert(var_value(vars, names[names.len() - 1]) is None);
    }
}

} // verus!
