//! The list manager: a `Management` capability backed by the list engine.
//!
//! Commands: `it <i32>` inserts at the tail, `ih <i32>` at the head,
//! `rm <i32>` removes by value, `help` shows the command summary. A
//! command with the wrong number of arguments, a malformed integer
//! argument, or an unknown name is rejected without mutating the list.

use std::io::Write;

use vstd::prelude::*;
use vstd::string::StringExecFns;

use crate::interactive::Management;
use crate::linked_list::List;
use crate::linked_list::graph_text;
use crate::linked_list::seq_remove_first;
use crate::text::parse_i32;
use crate::text::parse_i32_spec;
use crate::text::parse_result;

verus! {

broadcast use vstd::string::group_string_axioms;

/// The `Management` capability backed by the list engine.
pub struct LinkedListManager {
    list: List,
}

impl View for LinkedListManager {
    type V = Seq<i32>;

    closed spec fn view(&self) -> Seq<i32> {
        self.list@
    }
}

impl LinkedListManager {
    /// Creates a manager over an empty list.
    pub fn new() -> (r: Self)
        ensures
            r@ == Seq::<i32>::empty(),
    {
        LinkedListManager { list: List::new() }
    }
}

/// Parses each token as an `i32`, keeping the per-token outcomes.
pub fn str_to_i32(strs: &Vec<String>) -> (r: Vec<Result<i32, ()>>)
    ensures
        r@.len() == strs@.len(),
        forall|i: int| 0 <= i < r@.len() ==> r@[i] == parse_result(strs@[i]@),
{
    let mut out: Vec<Result<i32, ()>> = Vec::new();
    let mut i: usize = 0;
    while i < strs.len()
        invariant
            i <= strs@.len(),
            out@.len() == i,
            forall|k: int| 0 <= k < i ==> out@[k] == parse_result(strs@[k]@),
        decreases strs@.len() - i,
    {
        out.push(parse_i32(&strs[i]));
        i += 1;
    }
    out
}

/// Runs the insert-at-tail command: exactly one argument, parsed as an
/// `i32`, appended to the list; anything else is rejected unchanged.
pub fn do_insert_tail(list: &mut List, args: &Vec<String>) -> (r: bool)
    requires
        old(list)@.len() < usize::MAX,
    ensures
        r == (args@.len() == 1 && parse_i32_spec(args@[0]@) is Some),
        r ==> final(list)@ == old(list)@.push(parse_i32_spec(args@[0]@).unwrap()),
        !r ==> final(list)@ == old(list)@,
{
    if args.len() != 1 {
        return false;
    }
    let vals = str_to_i32(args);
    match vals[0] {
        Ok(v) => {
            list.insert_tail(v);
            true
        },
        Err(_) => false,
    }
}

/// Runs the insert-at-head command: exactly one argument, parsed as an
/// `i32`, prepended to the list; anything else is rejected unchanged.
pub fn do_insert_head(list: &mut List, args: &Vec<String>) -> (r: bool)
    requires
        old(list)@.len() < usize::MAX,
    ensures
        r == (args@.len() == 1 && parse_i32_spec(args@[0]@) is Some),
        r ==> final(list)@ == seq![parse_i32_spec(args@[0]@).unwrap()] + old(list)@,
        !r ==> final(list)@ == old(list)@,
{
    if args.len() != 1 {
        return false;
    }
    let vals = str_to_i32(args);
    match vals[0] {
        Ok(v) => {
            list.insert_head(v);
            true
        },
        Err(_) => false,
    }
}

/// Runs the remove command: exactly one argument, parsed as an `i32`;
/// succeeds only when a matching element was present and removed.
pub fn do_remove(list: &mut List, args: &Vec<String>) -> (r: bool)
    ensures
        r == (args@.len() == 1 && parse_i32_spec(args@[0]@) is Some && old(list)@.contains(
            parse_i32_spec(args@[0]@).unwrap(),
        )),
        r ==> final(list)@ == seq_remove_first(old(list)@, parse_i32_spec(args@[0]@).unwrap()),
        !r ==> final(list)@ == old(list)@,
{
    if args.len() != 1 {
        return false;
    }
    let vals = str_to_i32(args);
    match vals[0] {
        Ok(v) => {
            match list.remove(v) {
                Ok(_) => true,
                Err(_) => false,
            }
        },
        Err(_) => false,
    }
}

/// Relies on std::io::Stdout::write_fmt, through `writeln`: prints the
/// command summary to standard output.
#[verifier::external_body]
fn print_help() {
    let mut out = std::io::stdout();
    let _ = writeln!(out, "COMMAND:");
    let _ = writeln!(out, "\tit [i32]");
    let _ = writeln!(out, "\tih [i32]");
    let _ = writeln!(out, "\trm [i32]");
}

/// Runs the help command: shows the command summary; always succeeds.
pub fn do_help() -> (r: bool)
    ensures
        r,
{
    print_help();
    true
}

impl Management for LinkedListManager {
    /// Routes `it`/`ih`/`rm` to the list handlers and `help` to the
    /// command summary; any other command is rejected. Only a recognized
    /// insert or remove command with exactly one well-formed `i32`
    /// argument mutates the managed list.
    fn assign_job(&mut self, cmd: &String, args: &Vec<String>) -> (r: bool)
        ensures
            cmd@ == "it"@ && old(self)@.len() < usize::MAX ==> r == (args@.len() == 1
                && parse_i32_spec(args@[0]@) is Some),
            cmd@ == "it"@ && r ==> final(self)@ == old(self)@.push(
                parse_i32_spec(args@[0]@).unwrap(),
            ),
            cmd@ == "ih"@ && old(self)@.len() < usize::MAX ==> r == (args@.len() == 1
                && parse_i32_spec(args@[0]@) is Some),
            cmd@ == "ih"@ && r ==> final(self)@ == seq![parse_i32_spec(args@[0]@).unwrap()]
                + old(self)@,
            cmd@ == "rm"@ ==> r == (args@.len() == 1 && parse_i32_spec(args@[0]@) is Some
                && old(self)@.contains(parse_i32_spec(args@[0]@).unwrap())),
            cmd@ == "rm"@ && r ==> final(self)@ == seq_remove_first(
                old(self)@,
                parse_i32_spec(args@[0]@).unwrap(),
            ),
            cmd@ == "help"@ ==> r && final(self)@ == old(self)@,
            cmd@ != "it"@ && cmd@ != "ih"@ && cmd@ != "rm"@ && cmd@ != "help"@ ==> !r
                && final(self)@ == old(self)@,
            !r ==> final(self)@ == old(self)@,
    {
        proof {
            reveal_strlit("it");
            reveal_strlit("ih");
            reveal_strlit("rm");
            reveal_strlit("help");
            assert("it"@.len() == 2);
            assert("ih"@.len() == 2);
            assert("rm"@.len() == 2);
            assert("help"@.len() == 4);
            assert("it"@[1] == 't');
            assert("ih"@[1] == 'h');
            assert("it"@ != "ih"@);
            assert("it"@ != "rm"@);
            assert("it"@ != "help"@);
            assert("ih"@ != "rm"@);
            assert("ih"@ != "help"@);
            assert("rm"@ != "help"@);
        }
        let it_kw = String::from_str("it");
        let ih_kw = String::from_str("ih");
        let rm_kw = String::from_str("rm");
        let help_kw = String::from_str("help");
        if *cmd == it_kw {
            // a chain filling the whole address space cannot grow further
            if self.list.len() < usize::MAX {
                do_insert_tail(&mut self.list, args)
            } else {
                false
            }
        } else if *cmd == ih_kw {
            if self.list.len() < usize::MAX {
                do_insert_head(&mut self.list, args)
            } else {
                false
            }
        } else if *cmd == rm_kw {
            do_remove(&mut self.list, args)
        } else if *cmd == help_kw {
            do_help()
        } else {
            false
        }
    }

    /// The snapshot is the serializer's output for the managed list.
    fn gen_graph(&self) -> (r: String)
        ensures
            r@ == graph_text(self@),
    {
        self.list.gen_graph()
    }
}

} // verus!
