use makegraph::ast::Variable;
use makegraph::command::{parse_make_line, requested_tasks, tokens};
use makegraph::error::Error;
use makegraph::makefile::{External, IDGen, Makefile, Task, VarStr};
use makegraph::parser::parse_terms;
use makegraph::text::decimal_string;
use makegraph::vars::{resolve_text, substitute};

fn assemble(text: &str) -> (Makefile, Vec<External<VarStr>>, IDGen) {
    let mut ids = IDGen::new("task");
    let mut ext = Vec::new();
    let terms = parse_terms(text).unwrap();
    let m = Makefile::from_terms(&mut ids, &mut ext, "/work/Makefile".to_string(), terms);
    (m, ext, ids)
}

fn task<'a>(m: &'a Makefile, name: &str) -> &'a Task {
    &m.tasks.iter().find(|(_, t)| t.name == name).unwrap().1
}

fn variable(name: &str, value: &str) -> Variable {
    Variable { name: name.to_string(), op: "=".to_string(), value: value.to_string() }
}

#[test]
fn phony_flags_and_no_phony_task() {
    let (m, _, _) = assemble(".PHONY: a b\n\na:\n\tcmd\n\nb:\n");
    assert_eq!(m.tasks.len(), 2);
    assert!(task(&m, "a").phony);
    assert!(task(&m, "b").phony);
    assert!(m.tasks.iter().all(|(_, t)| t.name != ".PHONY"));
    assert_eq!(task(&m, "a").commands, vec!["cmd"]);
    assert!(task(&m, "b").commands.is_empty());
}

#[test]
fn phony_declared_after_the_task() {
    let (m, _, _) = assemble("c:\n\tx\nd:\n.PHONY: c\n");
    assert!(task(&m, "c").phony);
    assert!(!task(&m, "d").phony);
}

#[test]
fn rules_for_one_name_are_merged() {
    let (m, _, ids) = assemble("x: a\nx: b\n\tcmd\n");
    assert_eq!(m.tasks.len(), 1);
    let x = task(&m, "x");
    assert_eq!(x.dependencies, vec!["a", "b"]);
    assert_eq!(x.commands, vec!["cmd"]);
    assert_eq!(ids.count, 1);
}

#[test]
fn empty_later_rule_keeps_commands() {
    let (m, _, _) = assemble("x:\n\tfirst\nx: extra\n");
    let x = task(&m, "x");
    assert_eq!(x.commands, vec!["first"]);
    assert_eq!(x.dependencies, vec!["extra"]);
}

#[test]
fn later_assignment_wins() {
    let (m, _, _) = assemble("A = 1\nB = 2\nA ?= 3\n");
    assert_eq!(m.variables.len(), 2);
    let a = m.variables.iter().find(|v| v.name == "A").unwrap();
    assert_eq!(a.value, "3");
    assert_eq!(a.op, "?=");
}

#[test]
fn ids_are_handed_out_in_order() {
    let (m, _, ids) = assemble("a:\nb:\nc:\n");
    let got: Vec<&str> = m.tasks.iter().map(|(id, _)| id.as_str()).collect();
    assert_eq!(got, vec!["task0", "task1", "task2"]);
    assert_eq!(ids.count, 3);
    assert_eq!(m.get_id("b").map(String::as_str), Some("task1"));
}

#[test]
fn unknown_dependency_has_no_id() {
    let (m, _, _) = assemble("a: missing\n\techo\n");
    assert!(m.get_id("missing").is_none());
    assert!(m.get_id("a").is_some());
}

#[test]
fn id_generator_counts() {
    let mut g = IDGen::new("cluster_");
    assert_eq!(g.next(), "cluster_0");
    assert_eq!(g.next(), "cluster_1");
    for _ in 0..8 {
        g.next();
    }
    assert_eq!(g.next(), "cluster_10");
}

#[test]
fn decimal_notation() {
    assert_eq!(decimal_string(0), "0");
    assert_eq!(decimal_string(7), "7");
    assert_eq!(decimal_string(1203), "1203");
    assert_eq!(decimal_string(usize::MAX), usize::MAX.to_string());
}

#[test]
fn variable_substitution() {
    let vars = vec![variable("DIR", "lib")];
    assert_eq!(resolve_text("${DIR}/sub", &vars), "lib/sub");
}

#[test]
fn undefined_reference_is_left_in_place() {
    let vars = vec![variable("A", "x")];
    assert_eq!(resolve_text("${A}-${B}-${A}", &vars), "x-${B}-x");
    assert_eq!(resolve_text("plain", &vars), "plain");
    assert_eq!(resolve_text("", &vars), "");
}

#[test]
fn substituted_values_are_not_expanded_again() {
    let vars = vec![variable("A", "${B}"), variable("B", "no")];
    assert_eq!(resolve_text("${A}", &vars), "${B}");
}

#[test]
fn last_definition_is_used_by_lookup() {
    let vars = vec![variable("A", "1"), variable("A", "2")];
    assert_eq!(resolve_text("${A}", &vars), "2");
}

#[test]
fn substitute_puts_pieces_together() {
    let gaps = vec!["<".to_string(), "|".to_string(), ">".to_string()];
    let names = vec!["X".to_string(), "Y".to_string()];
    let vars = vec![variable("X", "1")];
    assert_eq!(substitute(&gaps, &names, &vars), "<1|${Y}>");
}

#[test]
fn recipe_scanning_finds_the_invocation() {
    let (path, tasks) = parse_make_line("make -C ${DIR} build test").unwrap();
    assert_eq!(path, "${DIR}");
    assert_eq!(tasks, vec!["build", "test"]);
    let (m, ext, _) = assemble("DIR=sub\nall:\n\tmake -C ${DIR} build test\n");
    assert_eq!(ext.len(), 1);
    assert_eq!(ext[0].id, "task0");
    assert_eq!(ext[0].tasks, vec!["build", "test"]);
    assert_eq!(m.resolve_vars(&ext[0].path), "sub");
    assert_eq!(m.resolve_makefile(&ext[0].path).unwrap(), "/work/sub");
}

#[test]
fn make_file_flag_and_no_path() {
    let (path, tasks) = parse_make_line("cd x && make -f other.mk all V=1").unwrap();
    assert_eq!(path, "other.mk");
    assert_eq!(tasks, vec!["all"]);
    assert!(parse_make_line("make all").is_none());
    assert!(parse_make_line("echo hello").is_none());
}

#[test]
fn task_names_skip_flags_and_assignments() {
    assert_eq!(tokens(" a  b\tc "), vec!["a", "b", "c"]);
    assert_eq!(requested_tasks("-C sub -j4 X=1 one ../up two"), vec!["one", "two"]);
    assert!(requested_tasks("").is_empty());
}

#[test]
fn absolute_invocation_path_stands() {
    let (m, ext, _) = assemble("a:\n\tmake -C /abs/dir t\n");
    assert_eq!(m.resolve_makefile(&ext[0].path).unwrap(), "/abs/dir");
}

#[test]
fn file_without_parent_is_a_path_error() {
    let mut ids = IDGen::new("task");
    let mut ext = Vec::new();
    let m = Makefile::from_terms(&mut ids, &mut ext, "/".to_string(), Vec::new());
    match m.resolve_makefile(&VarStr("x".to_string())) {
        Err(Error::PathErr(msg)) => assert_eq!(msg, "no parent directory: /"),
        other => panic!("{:?}", other),
    }
}

#[test]
fn external_map_path() {
    let e = External { path: 3u32, id: "task1".to_string(), tasks: vec!["t".to_string()] };
    let f = e.map_path(|p| p + 1);
    assert_eq!(f.path, 4);
    assert_eq!(f.id, "task1");
}

#[test]
fn escaped_space_stays_in_the_file_name() {
    let (path, tasks) = parse_make_line("make -f a\\ b.mk all").unwrap();
    assert_eq!(path, "a\\ b.mk");
    assert_eq!(tasks, vec!["all"]);
}

#[test]
fn continued_invocation_line() {
    assert_eq!(requested_tasks("-C d one \\\n two"), vec!["one", "two"]);
    assert_eq!(tokens("a\\ b c"), vec!["a\\ b", "c"]);
}
