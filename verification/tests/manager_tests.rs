use linked_list::interactive::Management;
use linked_list::linked_list::List;
use linked_list::ll_manager::LinkedListManager;
use linked_list::ll_manager::do_help;
use linked_list::ll_manager::do_insert_head;
use linked_list::ll_manager::do_insert_tail;
use linked_list::ll_manager::do_remove;
use linked_list::ll_manager::str_to_i32;

fn args_of(tokens: &[&str]) -> Vec<String> {
    tokens.iter().map(|t| t.to_string()).collect()
}

#[test]
fn str_to_i32_accepts_signed_decimals() {
    let strs = args_of(&["42", "-7", "+0", "007"]);
    let got = str_to_i32(&strs);
    assert_eq!(got, vec![Ok(42), Ok(-7), Ok(0), Ok(7)]);
}

#[test]
fn str_to_i32_covers_the_i32_range_exactly() {
    let strs = args_of(&["2147483647", "-2147483648", "2147483648", "-2147483649"]);
    let got = str_to_i32(&strs);
    assert_eq!(got, vec![Ok(2147483647), Ok(-2147483648), Err(()), Err(())]);
}

#[test]
fn str_to_i32_rejects_malformed_tokens() {
    let strs = args_of(&["abc", "", "4 2", "+", "-", "12x", "99999999999999999999"]);
    let got = str_to_i32(&strs);
    assert_eq!(got, vec![Err(()), Err(()), Err(()), Err(()), Err(()), Err(()), Err(())]);
}

#[test]
fn do_insert_tail_appends_parsed_value() {
    let mut list = List::new();
    assert!(do_insert_tail(&mut list, &args_of(&["3"])));
    assert!(do_insert_tail(&mut list, &args_of(&["4"])));
    assert_eq!(list.list(), vec![3, 4]);
}

#[test]
fn do_insert_tail_rejects_bad_arguments() {
    let mut list = List::new();
    assert!(!do_insert_tail(&mut list, &args_of(&[])));
    assert!(!do_insert_tail(&mut list, &args_of(&["1", "2"])));
    assert!(!do_insert_tail(&mut list, &args_of(&["one"])));
    assert_eq!(list.len(), 0);
}

#[test]
fn do_insert_head_prepends_parsed_value() {
    let mut list = List::new();
    assert!(do_insert_head(&mut list, &args_of(&["3"])));
    assert!(do_insert_head(&mut list, &args_of(&["4"])));
    assert_eq!(list.list(), vec![4, 3]);
}

#[test]
fn do_remove_reports_presence() {
    let mut list = List::new();
    assert!(do_insert_tail(&mut list, &args_of(&["5"])));
    assert!(do_remove(&mut list, &args_of(&["5"])));
    assert!(!do_remove(&mut list, &args_of(&["5"])));
    assert!(!do_remove(&mut list, &args_of(&["five"])));
    assert_eq!(list.len(), 0);
}

#[test]
fn do_help_always_succeeds() {
    assert!(do_help());
}

#[test]
fn manager_runs_commands_and_snapshots() {
    let mut mgr = LinkedListManager::new();
    assert!(mgr.assign_job(&"it".to_string(), &args_of(&["0"])));
    assert!(mgr.assign_job(&"it".to_string(), &args_of(&["1"])));
    assert!(mgr.assign_job(&"it".to_string(), &args_of(&["2"])));
    let got = mgr.gen_graph();
    let expect = "digraph LinkedList {
rankdir=LR;
node [shape=record];
edge [arrowtail=dot, dir=both, tailclip=false]
len [label=\"Len | 3\"]
node0 [label=\"{<val>0 | <next>}\"]
node0:next:c -> node1;
node1 [label=\"{<val>1 | <next>}\"]
node1:next:c -> node2;
node2 [label=\"{<val>2 | <next>}\"]
}"
    .to_string();
    assert_eq!(got, expect, "\nGot:\n{}", got);
}

#[test]
fn manager_rejects_unknown_and_malformed_commands() {
    let mut mgr = LinkedListManager::new();
    assert!(!mgr.assign_job(&"flip".to_string(), &args_of(&["1"])));
    assert!(!mgr.assign_job(&"it".to_string(), &args_of(&["one"])));
    assert!(!mgr.assign_job(&"rm".to_string(), &args_of(&["1"])));
    assert!(mgr.assign_job(&"help".to_string(), &args_of(&[])));
    let got = mgr.gen_graph();
    let expect = "digraph LinkedList {
rankdir=LR;
node [shape=record];
edge [arrowtail=dot, dir=both, tailclip=false]
len [label=\"Len | 0\"]
}"
    .to_string();
    assert_eq!(got, expect, "\nGot:\n{}", got);
}

#[test]
fn manager_head_and_remove_follow_the_engine() {
    let mut mgr = LinkedListManager::new();
    assert!(mgr.assign_job(&"ih".to_string(), &args_of(&["2"])));
    assert!(mgr.assign_job(&"ih".to_string(), &args_of(&["1"])));
    assert!(mgr.assign_job(&"it".to_string(), &args_of(&["1"])));
    assert!(mgr.assign_job(&"rm".to_string(), &args_of(&["1"])));
    let got = mgr.gen_graph();
    let expect = "digraph LinkedList {
rankdir=LR;
node [shape=record];
edge [arrowtail=dot, dir=both, tailclip=false]
len [label=\"Len | 2\"]
node2 [label=\"{<val>2 | <next>}\"]
node2:next:c -> node1;
node1 [label=\"{<val>1 | <next>}\"]
}"
    .to_string();
    assert_eq!(got, expect, "\nGot:\n{}", got);
}
