use linked_list::linked_list::List;
use linked_list::linked_list::ListErr;

#[test]
fn insert_tail() {
    let mut list = List::new();
    list.insert_tail(1);
    assert_eq!(list.len(), 1);
    assert_eq!(list.list(), vec![1]);
}

#[test]
fn insert_tail_multi() {
    let mut list = List::new();
    list.insert_tail(1);
    list.insert_tail(2);
    assert_eq!(list.len(), 2);
    assert_eq!(list.list(), vec![1, 2]);
}

#[test]
fn insert_head() {
    let mut list = List::new();
    list.insert_head(1);
    assert_eq!(list.len(), 1);
    assert_eq!(list.list(), vec![1]);
}

#[test]
fn insert_head_multi() {
    let mut list = List::new();
    list.insert_head(2);
    list.insert_head(1);
    assert_eq!(list.len(), 2);
    assert_eq!(list.list(), vec![1, 2]);
}

#[test]
fn remove_exist() {
    let mut list = List::new();
    list.insert_tail(1);
    let got = list.remove(1);
    assert!(got.is_ok());
    assert_eq!(got.unwrap(), 1);
}

#[test]
fn remove_not_exist() {
    let mut list = List::new();
    let got = list.remove(1);
    assert!(got.is_err());
}

#[test]
fn remove_multi() {
    let mut list = List::new();
    list.insert_tail(1);
    list.insert_tail(2);
    let got = list.remove(2);
    assert!(matches!(got, Ok(2)));
    assert_eq!(list.len(), 1);
}

#[test]
fn list() {
    let mut list = List::new();
    list.insert_tail(1);
    list.insert_tail(2);
    list.insert_tail(3);
    list.insert_tail(4);
    list.insert_tail(5);
    let got = list.list();
    assert_eq!(got, vec![1, 2, 3, 4, 5]);
}

#[test]
fn find_mid_odd() {
    let mut list = List::new();
    list.insert_tail(1);
    list.insert_tail(2);
    list.insert_tail(3);
    list.insert_tail(4);
    list.insert_tail(5);
    let got = list.find_mid();
    assert!(matches!(got, Ok(3)));
}

#[test]
fn find_mid_even() {
    let mut list = List::new();
    list.insert_tail(1);
    list.insert_tail(2);
    list.insert_tail(3);
    list.insert_tail(4);
    let got = list.find_mid();
    assert!(matches!(got, Ok(2)));
}

#[test]
fn find_mid_empty() {
    let list = List::new();
    let got = list.find_mid();
    assert!(matches!(got, Err(ListErr::EmptyList)));
}

#[test]
fn gen_no_node_graph() {
    let list = List::new();
    let got = list.gen_graph();
    let expect = "digraph LinkedList {
rankdir=LR;
node [shape=record];
edge [arrowtail=dot, dir=both, tailclip=false]
len [label=\"Len | 0\"]
}"
    .to_string();
    assert_eq!(got, expect, "\nGot:\n{}", got);
}

#[test]
fn gen_one_node_graph() {
    let mut list = List::new();
    list.insert_tail(1);
    let got = list.gen_graph();
    let expect = "digraph LinkedList {
rankdir=LR;
node [shape=record];
edge [arrowtail=dot, dir=both, tailclip=false]
len [label=\"Len | 1\"]
node1 [label=\"{<val>1 | <next>}\"]
}"
    .to_string();
    assert_eq!(got, expect, "\nGot:\n{}", got);
}

#[test]
fn gen_multi_node_graph() {
    let mut list = List::new();
    list.insert_tail(0);
    list.insert_tail(1);
    list.insert_tail(2);
    let got = list.gen_graph();
    let expect = "digraph LinkedList {
rankdir=LR;
node [shape=record];
edge [arrowtail=dot, dir=both, tailclip=false]
len [label=\"Len | 3\"]
node0 [label=\"{<val>0 | <next>}\"]
node0:next:c -> node1;
node1 [label=\"{<val>1 | <next>}\"]
node1:next:c -> node2;
node2 [label=\"{<val>2 | <next>}\"]
}"
    .to_string();
    assert_eq!(got, expect, "\nGot:\n{}", got);
}

#[test]
fn remove_absent_leaves_list_unchanged() {
    let mut list = List::new();
    list.insert_tail(1);
    list.insert_tail(2);
    list.insert_tail(3);
    let got = list.remove(9);
    assert!(matches!(got, Err(ListErr::NotFound)));
    assert_eq!(list.len(), 3);
    assert_eq!(list.list(), vec![1, 2, 3]);
}

#[test]
fn remove_takes_only_first_occurrence() {
    let mut list = List::new();
    list.insert_tail(1);
    list.insert_tail(2);
    list.insert_tail(1);
    let got = list.remove(1);
    assert!(matches!(got, Ok(1)));
    assert_eq!(list.len(), 2);
    assert_eq!(list.list(), vec![2, 1]);
}

#[test]
fn find_mid_short_lists() {
    let mut list = List::new();
    list.insert_tail(7);
    assert!(matches!(list.find_mid(), Ok(7)));
    list.insert_tail(8);
    assert!(matches!(list.find_mid(), Ok(7)));
}

#[test]
fn gen_graph_negative_value() {
    let mut list = List::new();
    list.insert_tail(-1);
    let got = list.gen_graph();
    let expect = "digraph LinkedList {
rankdir=LR;
node [shape=record];
edge [arrowtail=dot, dir=both, tailclip=false]
len [label=\"Len | 1\"]
node-1 [label=\"{<val>-1 | <next>}\"]
}"
    .to_string();
    assert_eq!(got, expect, "\nGot:\n{}", got);
}

#[test]
fn gen_graph_is_reproducible() {
    let mut list = List::new();
    list.insert_head(4);
    list.insert_tail(5);
    let first = list.gen_graph();
    let second = list.gen_graph();
    assert_eq!(first, second);
}
