//! A singly-linked list of `i32` values.
//!
//! Each node exclusively owns the remainder of the chain, so the structure
//! is a strict chain: no node is shared, none is reachable twice, and no
//! cycle can form. The list caches its element count; the type invariant
//! ties the cache to the length of the chain.

use vstd::prelude::*;
use vstd::string::StringExecFns;

use crate::text::dec_digits;
use crate::text::int_text;
use crate::text::push_i32_text;
use crate::text::push_usize_digits;

verus! {

/// Errors of the list engine.
#[derive(Debug, PartialEq, Eq, Structural)]
pub enum ListErr {
    /// The value to remove does not occur in the list.
    NotFound,
    /// The midpoint of a zero-length list was requested.
    EmptyList,
}

/// One list element: a value and sole ownership of the rest of the chain.
struct Node {
    val: i32,
    next: Option<Box<Node>>,
}

/// A singly-linked list of `i32` values with a cached element count.
pub struct List {
    head: Option<Box<Node>>,
    size: usize,
}

/// The values held by a chain, in head-to-tail order.
spec fn chain_seq(node: Option<Box<Node>>) -> Seq<i32>
    decreases node,
{
    match node {
        Option::None => Seq::empty(),
        Option::Some(n) => seq![n.val] + chain_seq(n.next),
    }
}

/// The sequence with the first occurrence of `v` taken out, and the
/// sequence itself where `v` does not occur.
pub open spec fn seq_remove_first(s: Seq<i32>, v: i32) -> Seq<i32>
    decreases s.len(),
{
    if s.len() == 0 {
        s
    } else if s[0] == v {
        s.drop_first()
    } else {
        seq![s[0]] + seq_remove_first(s.drop_first(), v)
    }
}

/// The index of the first occurrence of `v` in `s` (meaningful when `v`
/// occurs in `s`).
pub open spec fn first_index_of(s: Seq<i32>, v: i32) -> int
    decreases s.len(),
{
    if s.len() == 0 {
        0
    } else if s[0] == v {
        0
    } else {
        1 + first_index_of(s.drop_first(), v)
    }
}

/// A value occurs in a chain extended at the head exactly when it is the
/// new head value or occurs in the rest.
proof fn lemma_cons_contains(v: i32, t: Seq<i32>, x: i32)
    ensures
        (seq![v] + t).contains(x) <==> (v == x || t.contains(x)),
{
    let s = seq![v] + t;
    if s.contains(x) {
        let i = choose|i: int| 0 <= i < s.len() && s[i] == x;
        if i == 0 {
            assert(v == x);
        } else {
            assert(t[i - 1] == x);
            assert(t.contains(x));
        }
    }
    if v == x {
        assert(s[0] == x);
        assert(s.contains(x));
    }
    if t.contains(x) {
        let i = choose|i: int| 0 <= i < t.len() && t[i] == x;
        assert(s[i + 1] == x);
        assert(s.contains(x));
    }
}

/// Removing a value that occurs shortens the sequence by exactly one.
pub proof fn lemma_remove_first_len(s: Seq<i32>, v: i32)
    requires
        s.contains(v),
    ensures
        seq_remove_first(s, v).len() == s.len() - 1,
    decreases s.len(),
{
    if s.len() > 0 && s[0] != v {
        lemma_cons_contains(s[0], s.drop_first(), v);
        assert(s =~= seq![s[0]] + s.drop_first());
        lemma_remove_first_len(s.drop_first(), v);
    }
}

/// Removing a value that does not occur leaves the sequence unchanged.
pub proof fn lemma_remove_first_absent(s: Seq<i32>, v: i32)
    requires
        !s.contains(v),
    ensures
        seq_remove_first(s, v) == s,
    decreases s.len(),
{
    if s.len() == 0 {
    } else {
        assert(s[0] != v);
        assert(s =~= seq![s[0]] + s.drop_first());
        lemma_cons_contains(s[0], s.drop_first(), v);
        lemma_remove_first_absent(s.drop_first(), v);
        assert(seq_remove_first(s, v) =~= s);
    }
}

/// Removing a present value takes out exactly its first occurrence: the
/// occurrence is at `first_index_of`, no earlier position holds the value,
/// and what remains is the sequence with that single position deleted.
pub proof fn lemma_remove_first_occurrence(s: Seq<i32>, v: i32)
    requires
        s.contains(v),
    ensures
        0 <= first_index_of(s, v) < s.len(),
        s[first_index_of(s, v)] == v,
        forall|j: int| 0 <= j < first_index_of(s, v) ==> s[j] != v,
        seq_remove_first(s, v) == s.remove(first_index_of(s, v)),
    decreases s.len(),
{
    if s.len() == 0 {
    } else if s[0] == v {
        assert(seq_remove_first(s, v) =~= s.remove(0));
    } else {
        let t = s.drop_first();
        assert(s =~= seq![s[0]] + t);
        lemma_cons_contains(s[0], t, v);
        lemma_remove_first_occurrence(t, v);
        let i = first_index_of(t, v);
        assert(first_index_of(s, v) == 1 + i);
        assert(s[1 + i] == t[i]);
        assert(forall|j: int| 0 <= j < 1 + i ==> s[j] != v) by {
            assert(forall|j: int| 1 <= j < 1 + i ==> s[j] == t[j - 1]);
        }
        assert(seq_remove_first(s, v) =~= s.remove(1 + i));
    }
}

/// The sequence a list holds after a run of `insert_tail` calls with the
/// values of `vs`, in order, starting from a list holding `init`; each
/// call appends its value as `insert_tail` ensures.
pub open spec fn tail_inserted(init: Seq<i32>, vs: Seq<i32>) -> Seq<i32>
    decreases vs.len(),
{
    if vs.len() == 0 {
        init
    } else {
        tail_inserted(init.push(vs[0]), vs.drop_first())
    }
}

/// The sequence a list holds after a run of `insert_head` calls with the
/// values of `vs`, in order, starting from a list holding `init`; each
/// call prepends its value as `insert_head` ensures.
pub open spec fn head_inserted(init: Seq<i32>, vs: Seq<i32>) -> Seq<i32>
    decreases vs.len(),
{
    if vs.len() == 0 {
        init
    } else {
        head_inserted(seq![vs[0]] + init, vs.drop_first())
    }
}

proof fn lemma_tail_inserted_general(init: Seq<i32>, vs: Seq<i32>)
    ensures
        tail_inserted(init, vs) == init + vs,
    decreases vs.len(),
{
    if vs.len() == 0 {
        assert(init + vs =~= init);
    } else {
        lemma_tail_inserted_general(init.push(vs[0]), vs.drop_first());
        assert(init.push(vs[0]) + vs.drop_first() =~= init + vs);
    }
}

proof fn lemma_head_inserted_general(init: Seq<i32>, vs: Seq<i32>)
    ensures
        head_inserted(init, vs) == vs.reverse() + init,
    decreases vs.len(),
{
    if vs.len() == 0 {
        assert(vs.reverse() + init =~= init);
    } else {
        lemma_head_inserted_general(seq![vs[0]] + init, vs.drop_first());
        assert(vs.drop_first().reverse() + (seq![vs[0]] + init) =~= vs.reverse() + init);
    }
}

/// A run of `insert_tail` calls with values v1..vn on an initially empty
/// list leaves exactly [v1, ..., vn].
pub proof fn lemma_insert_tail_run(vs: Seq<i32>)
    ensures
        tail_inserted(Seq::empty(), vs) == vs,
{
    lemma_tail_inserted_general(Seq::empty(), vs);
    assert(Seq::empty() + vs =~= vs);
}

/// A run of `insert_head` calls with values v1..vn on an initially empty
/// list leaves exactly [vn, ..., v1].
pub proof fn lemma_insert_head_run(vs: Seq<i32>)
    ensures
        head_inserted(Seq::empty(), vs) == vs.reverse(),
{
    lemma_head_inserted_general(Seq::empty(), vs);
    assert(vs.reverse() + Seq::empty() =~= vs.reverse());
}

/// Attaches a terminal node holding `val` to the end of the chain.
fn push_tail(node: Option<Box<Node>>, val: i32) -> (r: Option<Box<Node>>)
    ensures
        chain_seq(r) == chain_seq(node).push(val),
    decreases node,
{
    match node {
        None => {
            let r = Some(Box::new(Node { val, next: None }));
            proof {
                assert(chain_seq(r) =~= chain_seq(None).push(val));
            }
            r
        },
        Some(b) => {
            let Node { val: head_val, next } = *b;
            let ghost old_next = next;
            let rest = push_tail(next, val);
            let r = Some(Box::new(Node { val: head_val, next: rest }));
            proof {
                assert(chain_seq(r) =~= (seq![head_val] + chain_seq(old_next)).push(val));
            }
            r
        },
    }
}

/// Detaches the first node holding `val`; reports whether one was found.
fn remove_first(node: Option<Box<Node>>, val: i32) -> (r: (Option<Box<Node>>, bool))
    ensures
        r.1 == chain_seq(node).contains(val),
        chain_seq(r.0) == seq_remove_first(chain_seq(node), val),
    decreases node,
{
    match node {
        None => {
            proof {
                assert(!chain_seq(None::<Box<Node>>).contains(val));
            }
            (None, false)
        },
        Some(b) => {
            let Node { val: v, next } = *b;
            let ghost s = seq![v] + chain_seq(next);
            proof {
                lemma_cons_contains(v, chain_seq(next), val);
            }
            let ghost t = chain_seq(next);
            if v == val {
                proof {
                    assert(s[0] == val);
                    assert(s.contains(val));
                    assert(s.drop_first() =~= t);
                }
                (next, true)
            } else {
                let (rest, found) = remove_first(next, val);
                let r = Some(Box::new(Node { val: v, next: rest }));
                proof {
                    assert(s.drop_first() =~= t);
                    assert(s[0] == v);
                    assert(chain_seq(r) =~= seq_remove_first(s, val));
                }
                (r, found)
            }
        },
    }
}

/// Appends the chain's values to `out`, in head-to-tail order.
fn collect_values(node: &Option<Box<Node>>, out: &mut Vec<i32>)
    ensures
        final(out)@ == old(out)@ + chain_seq(*node),
    decreases *node,
{
    match node {
        None => {
            proof {
                assert(out@ =~= out@ + chain_seq(None::<Box<Node>>));
            }
        },
        Some(b) => {
            out.push(b.val);
            collect_values(&b.next, out);
            proof {
                assert(out@ =~= old(out)@ + chain_seq(*node));
            }
        },
    }
}

/// One step of pointer traversal: the next link when the pointer is on a
/// node, the pointer itself once it has run off the end.
fn forward<'a>(ptr: &'a Option<Box<Node>>) -> (r: &'a Option<Box<Node>>)
    ensures
        chain_seq(*ptr).len() == 0 ==> chain_seq(*r) == chain_seq(*ptr),
        chain_seq(*ptr).len() > 0 ==> chain_seq(*r) == chain_seq(*ptr).drop_first(),
{
    match ptr {
        Some(curr) => {
            proof {
                assert(chain_seq(*ptr).drop_first() =~= chain_seq(curr.next));
            }
            &curr.next
        },
        None => ptr,
    }
}

/// The number of single steps the slow pointer still takes when the fast
/// pointer has `b` nodes left ahead of it.
spec fn mid_extra(b: int) -> int
    decreases b,
{
    if b <= 2 {
        0
    } else {
        1 + mid_extra(b - 2)
    }
}

/// The slow pointer of the fast/slow walk ends on the earlier middle
/// candidate: position `(b - 1) / 2` (zero-based) of a chain of length `b`.
proof fn lemma_mid_extra(b: int)
    requires
        b >= 1,
    ensures
        mid_extra(b) == (b - 1) / 2,
    decreases b,
{
    if b > 2 {
        lemma_mid_extra(b - 2);
    }
}

/// The fast/slow walk: the fast pointer advances two links per step, the
/// slow one link; when the fast pointer runs off the end, the slow
/// pointer's node holds the result.
fn two_pointer<'a>(slow: &'a Option<Box<Node>>, fast: &'a Option<Box<Node>>) -> (r: i32)
    requires
        1 <= chain_seq(*fast).len(),
        chain_seq(*fast).len() <= chain_seq(*slow).len(),
    ensures
        r == chain_seq(*slow)[mid_extra(chain_seq(*fast).len() as int)],
    decreases chain_seq(*fast).len(),
{
    let ghost a = chain_seq(*slow).len() as int;
    let ghost b = chain_seq(*fast).len() as int;
    let f1 = forward(fast);
    let f2 = forward(f1);
    if f2.is_none() {
        proof {
            assert(b <= 2);
            assert(mid_extra(b) == 0);
        }
        match slow {
            Some(s) => s.val,
            None => unreached(),
        }
    } else {
        proof {
            assert(chain_seq(*f2).len() == b - 2);
            assert(b >= 3);
        }
        let s1 = forward(slow);
        let r = two_pointer(s1, f2);
        proof {
            lemma_mid_extra(b - 2);
            assert(0 <= mid_extra(b - 2) < chain_seq(*s1).len());
            assert(chain_seq(*s1) == chain_seq(*slow).drop_first());
            assert(chain_seq(*slow).drop_first()[mid_extra(b - 2)]
                == chain_seq(*slow)[1 + mid_extra(b - 2)]);
        }
        r
    }
}

/// The record-node line for a list value: the node identifier derives
/// from the value itself.
pub open spec fn node_text(v: i32) -> Seq<char> {
    "node"@ + int_text(v as int) + " [label=\"{<val>"@ + int_text(v as int) + " | <next>}\"]\n"@
}

/// The edge line from the successor slot of the node holding `v` to the
/// node holding `w`.
pub open spec fn edge_text(v: i32, w: i32) -> Seq<char> {
    "node"@ + int_text(v as int) + ":next:c -> node"@ + int_text(w as int) + ";\n"@
}

/// The record nodes and edges for the values of `s`, in head-to-tail
/// order: one record node per value, and for every value except the last
/// an edge to its successor's identifier.
pub open spec fn nodes_text(s: Seq<i32>) -> Seq<char>
    decreases s.len(),
{
    if s.len() == 0 {
        Seq::empty()
    } else if s.len() == 1 {
        node_text(s[0])
    } else {
        node_text(s[0]) + edge_text(s[0], s[1]) + nodes_text(s.drop_first())
    }
}

/// The fixed preamble of every graph description: header, layout
/// directive, node-shape directive, edge-style directive.
pub open spec fn preamble_text() -> Seq<char> {
    "digraph LinkedList {\n"@ + "rankdir=LR;\n"@ + "node [shape=record];\n"@
        + "edge [arrowtail=dot, dir=both, tailclip=false]\n"@
}

/// The full graph description of a list holding `s`: preamble, a length
/// annotation, the record nodes with their edges, and the closing brace.
pub open spec fn graph_text(s: Seq<i32>) -> Seq<char> {
    preamble_text() + "len [label=\"Len | "@ + dec_digits(s.len()) + "\"]\n"@ + nodes_text(s)
        + "}"@
}

/// Appends the record node and edge lines for the chain starting at
/// `node`, walking it once recursively.
fn push_nodes(out: &mut String, node: &Node)
    ensures
        final(out)@ == old(out)@ + nodes_text(seq![node.val] + chain_seq(node.next)),
    decreases *node,
{
    let ghost s = seq![node.val] + chain_seq(node.next);
    out.append("node");
    push_i32_text(out, node.val);
    out.append(" [label=\"{<val>");
    push_i32_text(out, node.val);
    out.append(" | <next>}\"]\n");
    match &node.next {
        None => {
            proof {
                assert(s.len() == 1);
                assert(s[0] == node.val);
                assert(out@ =~= old(out)@ + nodes_text(s));
            }
        },
        Some(nxt) => {
            out.append("node");
            push_i32_text(out, node.val);
            out.append(":next:c -> node");
            push_i32_text(out, nxt.val);
            out.append(";\n");
            push_nodes(out, nxt);
            proof {
                assert(s.len() >= 2);
                assert(s[0] == node.val);
                assert(s[1] == nxt.val);
                assert(s.drop_first() =~= seq![nxt.val] + chain_seq(nxt.next));
                assert(out@ =~= old(out)@ + nodes_text(s));
            }
        },
    }
}

impl View for List {
    type V = Seq<i32>;

    closed spec fn view(&self) -> Seq<i32> {
        chain_seq(self.head)
    }
}

impl List {
    /// The cached count always equals the number of nodes in the chain.
    #[verifier::type_invariant]
    spec fn wf(self) -> bool {
        self.size == chain_seq(self.head).len()
    }

    /// Creates an empty list.
    pub fn new() -> (r: Self)
        ensures
            r@ == Seq::<i32>::empty(),
    {
        List { head: None, size: 0 }
    }

    /// Attaches a new terminal node holding `val` at the end of the chain.
    pub fn insert_tail(&mut self, val: i32)
        requires
            old(self)@.len() < usize::MAX,
        ensures
            final(self)@ == old(self)@.push(val),
    {
        proof {
            use_type_invariant(&*self);
        }
        let mut tmp = List { head: None, size: 0 };
        std::mem::swap(self, &mut tmp);
        let List { head, size } = tmp;
        let new_head = push_tail(head, val);
        *self = List { head: new_head, size: size + 1 };
    }

    /// Makes a new node holding `val` the head of the chain.
    pub fn insert_head(&mut self, val: i32)
        requires
            old(self)@.len() < usize::MAX,
        ensures
            final(self)@ == seq![val] + old(self)@,
    {
        proof {
            use_type_invariant(&*self);
        }
        let mut tmp = List { head: None, size: 0 };
        std::mem::swap(self, &mut tmp);
        let List { head, size } = tmp;
        *self = List { head: Some(Box::new(Node { val, next: head })), size: size + 1 };
    }

    /// Removes the first node whose value equals `val` and returns the
    /// removed value, or fails with `NotFound` leaving the list unchanged.
    pub fn remove(&mut self, val: i32) -> (r: Result<i32, ListErr>)
        ensures
            final(self)@ == seq_remove_first(old(self)@, val),
            old(self)@.contains(val) ==> r == Ok::<i32, ListErr>(val)
                && final(self)@.len() == old(self)@.len() - 1,
            !old(self)@.contains(val) ==> r == Err::<i32, ListErr>(ListErr::NotFound)
                && final(self)@ == old(self)@,
    {
        proof {
            use_type_invariant(&*self);
        }
        let mut tmp = List { head: None, size: 0 };
        std::mem::swap(self, &mut tmp);
        let List { head, size } = tmp;
        let ghost s = chain_seq(head);
        let (new_head, found) = remove_first(head, val);
        if found {
            proof {
                lemma_remove_first_len(s, val);
            }
            *self = List { head: new_head, size: size - 1 };
            Ok(val)
        } else {
            proof {
                lemma_remove_first_absent(s, val);
            }
            *self = List { head: new_head, size };
            Err(ListErr::NotFound)
        }
    }

    /// Produces the values in head-to-tail order without mutating the list.
    pub fn list(&self) -> (r: Vec<i32>)
        ensures
            r@ == self@,
    {
        let mut ret: Vec<i32> = Vec::new();
        collect_values(&self.head, &mut ret);
        proof {
            assert(ret@ =~= self@);
        }
        ret
    }

    /// Locates the structural midpoint by a fast/slow two-pointer walk:
    /// the element at zero-based position `(n - 1) / 2`, the earlier of
    /// the two middle candidates when the length `n` is even. Fails with
    /// `EmptyList` when the list has zero elements.
    pub fn find_mid(&self) -> (r: Result<i32, ListErr>)
        ensures
            self@.len() == 0 ==> r == Err::<i32, ListErr>(ListErr::EmptyList),
            self@.len() > 0 ==> r == Ok::<i32, ListErr>(self@[(self@.len() as int - 1) / 2]),
    {
        if self.head.is_none() {
            return Err(ListErr::EmptyList);
        }
        let v = two_pointer(&self.head, &self.head);
        proof {
            lemma_mid_extra(self@.len() as int);
        }
        Ok(v)
    }

    /// Renders the current list shape as a deterministic textual graph
    /// description: fixed preamble, a length annotation, then one record
    /// node per element in head-to-tail order with an edge between each
    /// pair of neighbours. Two calls against an unchanged list produce
    /// byte-identical output. Node identifiers derive from the element
    /// values, not their positions, so two elements holding the same
    /// value collide under this identifier scheme; that limitation is
    /// kept as part of the wire format.
    pub fn gen_graph(&self) -> (r: String)
        ensures
            r@ == graph_text(self@),
    {
        proof {
            use_type_invariant(&*self);
        }
        let mut out = String::new();
        out.append("digraph LinkedList {\n");
        out.append("rankdir=LR;\n");
        out.append("node [shape=record];\n");
        out.append("edge [arrowtail=dot, dir=both, tailclip=false]\n");
        out.append("len [label=\"Len | ");
        push_usize_digits(&mut out, self.size);
        out.append("\"]\n");
        match &self.head {
            None => {
            },
            Some(h) => {
                push_nodes(&mut out, h);
                proof {
                    assert(seq![h.val] + chain_seq(h.next) =~= self@);
                }
            },
        }
        out.append("}");
        proof {
            assert(out@ =~= graph_text(self@));
        }
        out
    }

    /// Returns the cached element count.
    pub fn len(&self) -> (r: usize)
        ensures
            r == self@.len(),
    {
        proof {
            use_type_invariant(&*self);
        }
        self.size
    }
}

} // verus!
