use makegraph::error::Error;
use makegraph::walk::{makefile_in, Walker};

fn step(w: &mut Walker, text: &str, found: Vec<Option<(String, bool)>>) -> Vec<Option<String>> {
    let targets = w.load(text).unwrap();
    assert_eq!(targets.len(), found.len());
    w.commit(found);
    targets
}

#[test]
fn two_files_that_call_each_other_are_walked_once() {
    let mut w = Walker::new("/p/a/Makefile".to_string());
    assert_eq!(w.next_file().as_deref(), Some("/p/a/Makefile"));
    let targets = step(&mut w, "all:\n\tmake -C ../b all\n", vec![Some(("/p/b".to_string(), true))]);
    assert_eq!(targets, vec![Some("/p/a/../b".to_string())]);
    assert_eq!(w.next_file().as_deref(), Some("/p/b/Makefile"));
    step(&mut w, "all:\n\tmake -C ../a all\n", vec![Some(("/p/a".to_string(), true))]);
    assert_eq!(w.next_file(), None);
    let (files, edges) = w.finish();
    assert_eq!(files.len(), 2);
    assert_eq!(edges.len(), 2);
    assert_eq!(edges[0].path, "/p/b/Makefile");
    assert_eq!(edges[1].path, "/p/a/Makefile");
    assert_eq!(files[1].get_id(&edges[0].tasks[0]).map(String::as_str), Some("task1"));
}

#[test]
fn ids_are_unique_across_files() {
    let mut w = Walker::new("/r/Makefile".to_string());
    step(&mut w, "x:\n\tmake -C s y\ny:\n", vec![Some(("/r/s".to_string(), true))]);
    step(&mut w, "x:\ny:\nz:\n", vec![]);
    let (files, _) = w.finish();
    let mut ids: Vec<String> = files.iter().flat_map(|m| m.tasks.iter().map(|(id, _)| id.clone())).collect();
    assert_eq!(ids, vec!["task0", "task1", "task2", "task3", "task4"]);
    ids.dedup();
    assert_eq!(ids.len(), 5);
}

#[test]
fn unresolved_invocation_is_dropped() {
    let mut w = Walker::new("/r/Makefile".to_string());
    step(&mut w, "x:\n\tmake -C gone y\n", vec![None]);
    assert_eq!(w.next_file(), None);
    let (files, edges) = w.finish();
    assert_eq!(files.len(), 1);
    assert!(edges.is_empty());
}

#[test]
fn syntax_error_stops_the_walk() {
    let mut w = Walker::new("/r/Makefile".to_string());
    match w.load("all: dep\n    echo hi\n") {
        Err(Error::ParseErr(msg)) => assert_eq!(msg, "line 2, column 5, in term: no term matches"),
        other => panic!("{:?}", other),
    }
    assert_eq!(w.next_file().as_deref(), Some("/r/Makefile"));
}

#[test]
fn directory_stands_for_its_makefile() {
    assert_eq!(makefile_in(&"/x/y".to_string(), true), "/x/y/Makefile");
    assert_eq!(makefile_in(&"/x/y.mk".to_string(), false), "/x/y.mk");
}

#[test]
fn self_invocation_is_not_queued_again() {
    let mut w = Walker::new("/r/Makefile".to_string());
    step(&mut w, "x:\n\tmake -C . y\ny:\n", vec![Some(("/r".to_string(), true))]);
    assert_eq!(w.next_file(), None);
}

#[test]
fn identical_invocations_give_one_edge() {
    let mut w = Walker::new("/r/Makefile".to_string());
    step(
        &mut w,
        "x:\n\tmake -C s y\n\tmake -C s y\n",
        vec![Some(("/r/s".to_string(), true)), Some(("/r/s".to_string(), true))],
    );
    let (_, edges) = w.finish();
    assert_eq!(edges.len(), 1);
}

#[test]
fn syntax_error_in_a_rule_names_the_task() {
    let mut w = Walker::new("/r/Makefile".to_string());
    match w.load("ok: a\nbad: b=c\n") {
        Err(Error::ParseErr(msg)) => assert_eq!(msg, "line 2, column 1, in task: no term matches"),
        other => panic!("{:?}", other),
    }
}
