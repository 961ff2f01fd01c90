use vstd::prelude::*;

verus! {

/// A construct that the grammar recognises but whose body is never
/// interpreted.
#[derive(Debug, Clone, Copy, PartialEq, Eq, Structural)]
pub enum Construct {
    Conditional,
    Include,
    Define,
}

/// A rule as written: its name, the names after the colon, and its recipe
/// lines without the leading tab.
#[derive(Debug, Clone)]
pub struct Task {
    pub name: String,
    pub dependencies: Vec<String>,
    pub commands: Vec<String>,
}

/// An assignment as written; `op` is `=` or `?=`.
#[derive(Debug, Clone)]
pub struct Variable {
    pub name: String,
    pub op: String,
    pub value: String,
}

/// One syntactic unit of a file.
#[derive(Debug, Clone)]
pub enum Term {
    Task(Task),
    Variable(Variable),
    Empty,
    Unimplemented(Construct),
}

/// The mathematical value of a term.
pub enum TermV {
    Task { name: Seq<char>, dependencies: Seq<Seq<char>>, commands: Seq<Seq<char>> },
    Variable { name: Seq<char>, op: Seq<char>, value: Seq<char> },
    Empty,
    Unimplemented(Construct),
}

/// The character sequences of a sequence of strings.
pub open spec fn views(v: Seq<String>) -> Seq<Seq<char>> {
    v.map_values(|x: String| x@)
}

pub proof fn lemma_views_push(v: Seq<String>, x: String)
    ensures
        views(v.push(x)) == views(v).push(x@),
{
    assert(views(v.push(x)) =~= views(v).push(x@));
}

pub proof fn lemma_views_concat(v: Seq<String>, w: Seq<String>)
    ensures
        views(v + w) == views(v) + views(w),
{
    assert(views(v + w) =~= views(v) + views(w));
}

impl View for Task {
    type V = TermV;

    open spec fn view(&self) -> TermV {
        TermV::Task {
            name: self.name@,
            dependencies: views(self.dependencies@),
            commands: views(self.commands@),
        }
    }
}

impl View for Term {
    type V = TermV;

    open spec fn view(&self) -> TermV {
        match self {
            Term::Task(t) => t@,
            Term::Variable(v) => TermV::Variable { name: v.name@, op: v.op@, value: v.value@ },
            Term::Empty => TermV::Empty,
            Term::Unimplemented(c) => TermV::Unimplemented(*c),
        }
    }
}

/// The terms' values, in order.
pub open spec fn terms_view(v: Seq<Term>) -> Seq<TermV> {
    v.map_values(|t: Term| t@)
}

/// A parser of whole files.
pub trait Parse {
    type Error;

    fn parse(input: &str) -> Result<Vec<Term>, Self::Error>;
}

} // verus!
