use makegraph::ast::{Construct, Parse, Term};
use makegraph::grammar::ParseContext;
use makegraph::parser::{comment, parse_terms, var, Makefile};

#[test]
fn test_comment() {
    let cases = [
        ("# hello world!", Some("")),
        ("#hello world!", Some("")),
        ("# hello world!\n", Some("\n")),
        ("# hello world!\r\n", Some("\r\n")),
        ("# hello world! # comment", Some("")),
        ("# hello world! \\\n comment", Some("")),
        ("# hello world! \n", Some("\n")),
        ("# hello world! \r\n", Some("\r\n")),
        ("# hello world! \n# comment", Some("\n# comment")),
        ("# hello world! \r\n# comment", Some("\r\n# comment")),
    ];

    for (i, (input, expected)) in cases.into_iter().enumerate() {
        let result = comment(input);
        assert_eq!(result.as_deref(), expected, "case {:02}, input: {:?}", i, input);
    }
}

#[test]
fn test_vars() {
    let cases = [
        ("foo=bar", Some(("", ("foo", "=", "bar")))),
        ("var = value", Some(("", ("var", "=", "value")))),
        ("_var=123", Some(("", ("_var", "=", "123")))),
        ("VAR=Hello World!", Some(("", ("VAR", "=", "Hello World!")))),
        ("var1=123 var2=456", Some(("", ("var1", "=", "123 var2=456")))),
        ("var1=123\t\\\n456", Some(("", ("var1", "=", "123\t\\\n456")))),
        ("var1=123\nvar2=456", Some(("var2=456", ("var1", "=", "123")))),
        ("var1=123 # comment", Some(("", ("var1", "=", "123 ")))),
        ("var1=123 \\\n #comment", Some(("", ("var1", "=", "123 \\\n ")))),
        ("var1=123\n# comment", Some(("# comment", ("var1", "=", "123")))),
    ];

    for (i, (input, expected)) in cases.into_iter().enumerate() {
        let result = var(input);
        let got = result
            .as_ref()
            .map(|(rest, (n, o, v))| (rest.as_str(), (n.as_str(), o.as_str(), v.as_str())));
        assert_eq!(got, expected, "case {:02}, input: {:?}", i, input);
    }
}

fn task_parts(t: &Term) -> (String, Vec<String>, Vec<String>) {
    match t {
        Term::Task(t) => (t.name.clone(), t.dependencies.clone(), t.commands.clone()),
        other => panic!("not a task: {:?}", other),
    }
}

#[test]
fn task_with_dependencies_and_commands() {
    let terms = parse_terms("name: dep1 dep2\n\tcmd1\n\tcmd2\n").unwrap();
    assert_eq!(terms.len(), 1);
    let (name, deps, cmds) = task_parts(&terms[0]);
    assert_eq!(name, "name");
    assert_eq!(deps, vec!["dep1", "dep2"]);
    assert_eq!(cmds, vec!["cmd1", "cmd2"]);
}

#[test]
fn recipe_comment_lines_are_skipped() {
    let terms = parse_terms("all: a # trailing\n# note\n\techo hi\n\n").unwrap();
    let (name, deps, cmds) = task_parts(&terms[0]);
    assert_eq!(name, "all");
    assert_eq!(deps, vec!["a"]);
    assert_eq!(cmds, vec!["echo hi"]);
    assert!(matches!(terms[1], Term::Empty));
}

#[test]
fn continued_dependency_line() {
    let terms = parse_terms("all: a \\\n b\n").unwrap();
    let (_, deps, _) = task_parts(&terms[0]);
    assert_eq!(deps, vec!["a", "b"]);
}

#[test]
fn variable_forms() {
    let terms = parse_terms("CC ?= gcc\nDIR = $(HOME)/src\n").unwrap();
    assert_eq!(terms.len(), 2);
    match &terms[0] {
        Term::Variable(v) => {
            assert_eq!(v.name, "CC");
            assert_eq!(v.op, "?=");
            assert_eq!(v.value, "gcc");
        }
        other => panic!("{:?}", other),
    }
    match &terms[1] {
        Term::Variable(v) => assert_eq!(v.value, "$(HOME)/src"),
        other => panic!("{:?}", other),
    }
}

#[test]
fn unimplemented_constructs() {
    let text = "include other.mk\nifeq ($(A),b)\nx: y\nendif\ndefine BODY\nstuff\nendef\n";
    let terms = parse_terms(text).unwrap();
    let kinds: Vec<Construct> = terms
        .iter()
        .filter_map(|t| match t {
            Term::Unimplemented(c) => Some(*c),
            _ => None,
        })
        .collect();
    assert_eq!(kinds, vec![Construct::Include, Construct::Conditional, Construct::Define]);
}

#[test]
fn empty_text_has_no_terms() {
    assert_eq!(parse_terms("").unwrap().len(), 0);
    assert!(matches!(parse_terms("\n   \n# only a comment\n").unwrap()[0], Term::Empty));
}

#[test]
fn space_indented_recipe_is_a_syntax_error() {
    let err = parse_terms("all: dep\n    echo hi\n").unwrap_err();
    assert_eq!(err.offset, 13);
    assert_eq!(err.line, 2);
    assert_eq!(err.column, 5);
}

#[test]
fn dependency_that_is_not_an_identifier_fails() {
    let err = parse_terms("a: b=c\n").unwrap_err();
    assert_eq!(err.offset, 0);
    assert_eq!((err.line, err.column), (1, 1));
}

#[test]
fn indented_comment_opens_the_text() {
    let terms = parse_terms("  # c\n").unwrap();
    assert_eq!(terms.len(), 1);
    assert!(matches!(terms[0], Term::Empty));
    let terms = parse_terms("\t# c\nx: y\n").unwrap();
    assert_eq!(terms.len(), 2);
    assert!(matches!(terms[0], Term::Empty));
}

#[test]
fn parse_trait_gives_the_terms() {
    let terms = Makefile::parse("build: dep1 dep2\n\tcmd1\n\tcmd2\n").unwrap();
    assert_eq!(terms.len(), 1);
    let (name, deps, cmds) = task_parts(&terms[0]);
    assert_eq!(name, "build");
    assert_eq!(deps, vec!["dep1", "dep2"]);
    assert_eq!(cmds, vec!["cmd1", "cmd2"]);
    assert!(Makefile::parse("a:\n cmd\n").is_err());
    let terms = Makefile::parse("ifeq (a,b)\nX=1\nendif\ninclude other.mk\n").unwrap();
    assert_eq!(terms.len(), 3);
    assert!(matches!(terms[0], Term::Unimplemented(Construct::Conditional)));
    assert!(matches!(terms[1], Term::Empty));
    assert!(matches!(terms[2], Term::Unimplemented(Construct::Include)));
}

#[test]
fn error_context_follows_the_line() {
    assert_eq!(parse_terms("a: b=c\n").unwrap_err().context, ParseContext::Task);
    assert_eq!(parse_terms("x = 1\r\n").unwrap_err().context, ParseContext::Variable);
    assert_eq!(parse_terms("define X\nbody\n").unwrap_err().context, ParseContext::Define);
    assert_eq!(parse_terms("echo hi\n").unwrap_err().context, ParseContext::Term);
    assert_eq!(parse_terms("# c\r\n").unwrap_err().context, ParseContext::Comment);
}
