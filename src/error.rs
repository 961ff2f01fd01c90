use vstd::prelude::*;
use crate::grammar::ParseContext;
use crate::parser::SyntaxError;
use crate::text::{decimal, decimal_string};

verus! {

/// Why a walk stops, or why one invocation is dropped.
#[derive(Debug)]
pub enum Error {
    /// A file could not be read.
    IO(String),
    /// A file does not match the grammar; the message says where.
    ParseErr(String),
    /// A path could not be resolved.
    PathErr(String),
    /// The task identifiers are used up.
    Exhausted,
}

pub open spec fn no_parent_message(file: Seq<char>) -> Seq<char> {
    seq!['n', 'o', ' ', 'p', 'a', 'r', 'e', 'n', 't', ' ', 'd', 'i', 'r', 'e', 'c', 't', 'o', 'r', 'y', ':', ' '] + file
}

/// The name of a construct in messages.
pub open spec fn context_name(c: ParseContext) -> Seq<char> {
    match c {
        ParseContext::Term => seq!['t', 'e', 'r', 'm'],
        ParseContext::Task => seq!['t', 'a', 's', 'k'],
        ParseContext::Variable => seq!['v', 'a', 'r', 'i', 'a', 'b', 'l', 'e'],
        ParseContext::Comment => seq!['c', 'o', 'm', 'm', 'e', 'n', 't'],
        ParseContext::Include => seq!['i', 'n', 'c', 'l', 'u', 'd', 'e'],
        ParseContext::Define => seq!['d', 'e', 'f', 'i', 'n', 'e'],
        ParseContext::Conditional => seq!['c', 'o', 'n', 'd', 'i', 't', 'i', 'o', 'n', 'a', 'l'],
    }
}

/// `line L, column C, in CONTEXT: no term matches`.
pub open spec fn syntax_message(line: nat, column: nat, context: ParseContext) -> Seq<char> {
    seq!['l', 'i', 'n', 'e', ' '] + decimal(line) + seq![',', ' ', 'c', 'o', 'l', 'u', 'm', 'n', ' ']
        + decimal(column) + seq![',', ' ', 'i', 'n', ' '] + context_name(context) + seq![
        ':',
        ' ',
        'n',
        'o',
        ' ',
        't',
        'e',
        'r',
        'm',
        ' ',
        'm',
        'a',
        't',
        'c',
        'h',
        'e',
        's',
    ]
}

fn context_str(c: ParseContext) -> (r: &'static str)
    ensures
        r@ == context_name(c),
{
    proof {
        reveal_strlit("term");
        reveal_strlit("task");
        reveal_strlit("variable");
        reveal_strlit("comment");
        reveal_strlit("include");
        reveal_strlit("define");
        reveal_strlit("conditional");
    }
    match c {
        ParseContext::Term => "term",
        ParseContext::Task => "task",
        ParseContext::Variable => "variable",
        ParseContext::Comment => "comment",
        ParseContext::Include => "include",
        ParseContext::Define => "define",
        ParseContext::Conditional => "conditional",
    }
}

impl Error {
    /// The error for a text that does not match the grammar.
    pub fn from_syntax(e: &SyntaxError) -> (r: Error)
        ensures
            r matches Error::ParseErr(m) && m@ == syntax_message(
                e.line as nat,
                e.column as nat,
                e.context,
            ),
    {
        proof {
            reveal_strlit("line ");
            reveal_strlit(", column ");
            reveal_strlit(", in ");
            reveal_strlit(": no term matches");
        }
        let mut m = String::new();
        m.append("line ");
        m.append(decimal_string(e.line).as_str());
        m.append(", column ");
        m.append(decimal_string(e.column).as_str());
        m.append(", in ");
        m.append(context_str(e.context));
        m.append(": no term matches");
        proof {
            assert(m@ =~= syntax_message(e.line as nat, e.column as nat, e.context));
        }
        Error::ParseErr(m)
    }

    /// The error for a file whose path has no parent directory.
    pub fn no_parent(file: &String) -> (r: Error)
        ensures
            r matches Error::PathErr(m) && m@ == no_parent_message(file@),
    {
        proof {
            reveal_strlit("no parent directory: ");
        }
        let mut m = String::new();
        m.append("no parent directory: ");
        m.append(file.as_str());
        Error::PathErr(m)
    }
}

} // verus!
