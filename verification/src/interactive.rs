//! Line tokenizing and command dispatch.
//!
//! A command line is split on single spaces and each field is trimmed; an
//! empty or all-whitespace line yields no tokens. The dispatcher routes
//! the first token to a pluggable `Management` capability and reports the
//! outcome of the iteration as a `HandlerErr` where no command ran.

use vstd::prelude::*;
use vstd::string::StrSliceExecFns;
use vstd::string::StringExecFns;

verus! {

/// The per-iteration outcomes of the dispatcher that do not run a command.
#[derive(Debug, PartialEq, Eq, Structural)]
pub enum HandlerErr {
    /// The line held no tokens; the iteration is skipped.
    ArgLack,
    /// The exit keyword was given; the loop terminates.
    Exit,
    /// The command was not recognized; help is shown instead.
    NoCmd,
}

/// Whitespace for token trimming.
pub open spec fn is_space(c: char) -> bool {
    c == ' ' || c == '\t' || c == '\n' || c == '\r'
}

/// `s` without its leading whitespace.
pub open spec fn trim_front(s: Seq<char>) -> Seq<char>
    decreases s.len(),
{
    if s.len() > 0 && is_space(s[0]) {
        trim_front(s.drop_first())
    } else {
        s
    }
}

/// `s` without its trailing whitespace.
pub open spec fn trim_back(s: Seq<char>) -> Seq<char>
    decreases s.len(),
{
    if s.len() > 0 && is_space(s.last()) {
        trim_back(s.drop_last())
    } else {
        s
    }
}

/// `s` without leading and trailing whitespace.
pub open spec fn trim_text(s: Seq<char>) -> Seq<char> {
    trim_back(trim_front(s))
}

/// The fields of `s` split on single spaces: one field more than there
/// are spaces, and a field may be empty.
pub open spec fn split_spaces(s: Seq<char>) -> Seq<Seq<char>>
    decreases s.len(),
{
    if s.len() == 0 {
        seq![s]
    } else if s[0] == ' ' {
        seq![Seq::<char>::empty()] + split_spaces(s.drop_first())
    } else {
        seq![seq![s[0]] + split_spaces(s.drop_first())[0]] + split_spaces(s.drop_first()).drop_first()
    }
}

/// The tokens of a command line: the line split on single spaces with
/// each field trimmed, except that a line whose fields are all empty
/// (an empty or all-whitespace line) yields no tokens at all.
pub open spec fn words_of(s: Seq<char>) -> Seq<Seq<char>> {
    if forall|i: int| 0 <= i < split_spaces(s).len() ==> trim_text(split_spaces(s)[i]).len() == 0 {
        Seq::empty()
    } else {
        Seq::new(split_spaces(s).len(), |i: int| trim_text(split_spaces(s)[i]))
    }
}

/// A split always yields at least one field.
proof fn lemma_split_len(s: Seq<char>)
    ensures
        split_spaces(s).len() >= 1,
    decreases s.len(),
{
    if s.len() == 0 {
    } else if s[0] == ' ' {
    } else {
        lemma_split_len(s.drop_first());
    }
}

/// Where the first `j` characters of `s` are not spaces and position `j`
/// is a space or the end, the first field of the split is exactly those
/// `j` characters and the rest is the split of what follows the space.
proof fn lemma_split_head(s: Seq<char>, j: int)
    requires
        0 <= j <= s.len(),
        forall|k: int| 0 <= k < j ==> s[k] != ' ',
        j == s.len() || s[j] == ' ',
    ensures
        j == s.len() ==> split_spaces(s) == seq![s],
        j < s.len() ==> split_spaces(s) == seq![s.subrange(0, j)] + split_spaces(
            s.subrange(j + 1, s.len() as int),
        ),
    decreases s.len(),
{
    lemma_split_len(s.drop_first());
    if s.len() == 0 {
        assert(split_spaces(s) =~~= seq![s]);
    } else if j == 0 {
        if j < s.len() {
            assert(s[0] == ' ');
            assert(Seq::<char>::empty() =~= s.subrange(0, 0));
            assert(s.drop_first() =~= s.subrange(1, s.len() as int));
            assert(split_spaces(s) =~~= seq![s.subrange(0, 0)] + split_spaces(
                s.subrange(1, s.len() as int),
            ));
        }
    } else {
        let t = s.drop_first();
        lemma_split_head(t, j - 1);
        if j == s.len() {
            assert(split_spaces(t) == seq![t]);
            assert(seq![s[0]] + t =~= s);
            assert(split_spaces(s) =~~= seq![s]);
        } else {
            assert(t[j - 1] == s[j]);
            assert(split_spaces(t) == seq![t.subrange(0, j - 1)] + split_spaces(
                t.subrange(j, t.len() as int),
            ));
            assert(seq![s[0]] + t.subrange(0, j - 1) =~= s.subrange(0, j));
            assert(t.subrange(j, t.len() as int) =~= s.subrange(j + 1, s.len() as int));
            assert(split_spaces(t)[0] == t.subrange(0, j - 1));
            assert(split_spaces(t).drop_first() =~~= split_spaces(s.subrange(j + 1, s.len() as int)));
            assert(split_spaces(s) =~~= seq![s.subrange(0, j)] + split_spaces(
                s.subrange(j + 1, s.len() as int),
            ));
        }
    }
}

/// Where the first `a` characters of `s` are whitespace and position `a`
/// is not (or is the end), trimming the front drops exactly them.
proof fn lemma_trim_front_range(s: Seq<char>, a: int)
    requires
        0 <= a <= s.len(),
        forall|k: int| 0 <= k < a ==> is_space(s[k]),
        a == s.len() || !is_space(s[a]),
    ensures
        trim_front(s) == s.subrange(a, s.len() as int),
    decreases s.len(),
{
    if a == 0 {
        assert(s.subrange(0, s.len() as int) =~= s);
    } else {
        let t = s.drop_first();
        lemma_trim_front_range(t, a - 1);
        assert(t.subrange(a - 1, t.len() as int) =~= s.subrange(a, s.len() as int));
    }
}

/// Where the characters of `s` from position `b` on are whitespace and
/// position `b - 1` is not (or `b` is zero), trimming the back drops
/// exactly them.
proof fn lemma_trim_back_range(s: Seq<char>, b: int)
    requires
        0 <= b <= s.len(),
        forall|k: int| b <= k < s.len() ==> is_space(s[k]),
        b == 0 || !is_space(s[b - 1]),
    ensures
        trim_back(s) == s.subrange(0, b),
    decreases s.len(),
{
    if b == s.len() {
        assert(s.subrange(0, s.len() as int) =~= s);
    } else {
        assert(is_space(s.last()));
        let t = s.drop_last();
        lemma_trim_back_range(t, b);
        assert(t.subrange(0, b) =~= s.subrange(0, b));
    }
}

/// Relates a token list built field by field to `words_of`.
proof fn lemma_words_from_parts(s: Seq<char>, parts: Seq<Seq<char>>)
    requires
        parts.len() == split_spaces(s).len(),
        forall|i: int| 0 <= i < parts.len() ==> parts[i] == trim_text(split_spaces(s)[i]),
    ensures
        (exists|i: int| 0 <= i < parts.len() && parts[i].len() > 0) ==> words_of(s) == parts,
        !(exists|i: int| 0 <= i < parts.len() && parts[i].len() > 0) ==> words_of(s)
            == Seq::<Seq<char>>::empty(),
{
    if exists|i: int| 0 <= i < parts.len() && parts[i].len() > 0 {
        let w = choose|i: int| 0 <= i < parts.len() && parts[i].len() > 0;
        assert(trim_text(split_spaces(s)[w]).len() > 0);
        assert(words_of(s) =~~= parts);
    } else {
        assert forall|i: int|
            0 <= i < split_spaces(s).len() implies trim_text(split_spaces(s)[i]).len() == 0 by {
            assert(parts[i] == trim_text(split_spaces(s)[i]));
            assert(!(0 <= i < parts.len() && parts[i].len() > 0));
        }
    }
}

/// Whether `c` is trimmed away at a token's edge.
fn space_char(c: char) -> (r: bool)
    ensures
        r == is_space(c),
{
    c == ' ' || c == '\t' || c == '\n' || c == '\r'
}

/// Splits a command line on single spaces and trims each token; an empty
/// or all-whitespace line yields no tokens.
pub fn to_words(s: &String) -> (r: Vec<String>)
    ensures
        r.deep_view() == words_of(s@),
{
    let sl = s.as_str();
    let n = sl.unicode_len();
    let ghost sq = s@;
    let mut toks: Vec<String> = Vec::new();
    let mut any = false;
    let mut pos: usize = 0;
    let mut done = false;
    proof {
        assert(sq.subrange(0, n as int) =~= sq);
        assert(split_spaces(sq).subrange(0, split_spaces(sq).len() as int) =~~= split_spaces(sq));
    }
    while !done
        invariant
            sq == s@,
            sl@ == sq,
            n == sq.len(),
            toks@.len() <= split_spaces(sq).len(),
            done ==> toks@.len() == split_spaces(sq).len(),
            !done ==> pos <= n,
            !done ==> pos == 0 || sq[pos - 1] == ' ',
            !done ==> split_spaces(sq.subrange(pos as int, n as int)) == split_spaces(
                sq,
            ).subrange(toks@.len() as int, split_spaces(sq).len() as int),
            forall|i: int|
                0 <= i < toks@.len() ==> toks@[i]@ == trim_text(split_spaces(sq)[i]),
            any <==> exists|i: int|
                0 <= i < toks@.len() && trim_text(split_spaces(sq)[i]).len() > 0,
        decreases 2 * (n - pos) + (if done { 0int } else { 1int }),
    {
        let ghost k = toks@.len() as int;
        let ghost ll = split_spaces(sq).len() as int;
        let ghost u = sq.subrange(pos as int, n as int);
        proof {
            lemma_split_len(u);
        }
        let mut j: usize = pos;
        while j < n && sl.get_char(j) != ' '
            invariant
                pos <= j <= n,
                sl@ == sq,
                n == sq.len(),
                forall|k2: int| pos <= k2 < j ==> sq[k2] != ' ',
            decreases n - j,
        {
            j += 1;
        }
        let mut ts: usize = pos;
        while ts < j && space_char(sl.get_char(ts))
            invariant
                pos <= ts <= j <= n,
                sl@ == sq,
                n == sq.len(),
                forall|k2: int| pos <= k2 < ts ==> is_space(sq[k2]),
            decreases j - ts,
        {
            ts += 1;
        }
        let mut te: usize = j;
        while te > ts && space_char(sl.get_char(te - 1))
            invariant
                pos <= ts <= te <= j <= n,
                sl@ == sq,
                n == sq.len(),
                forall|k2: int| te <= k2 < j ==> is_space(sq[k2]),
            decreases te,
        {
            te -= 1;
        }
        let ghost raw = sq.subrange(pos as int, j as int);
        proof {
            lemma_split_head(u, j - pos);
            if j < n {
                assert(u.subrange(0, j - pos) =~= raw);
            }
            assert(split_spaces(sq)[k] == split_spaces(u)[0]);
            assert(split_spaces(u)[0] == raw);
            // the trimmed token is exactly sq[ts .. te]
            assert(forall|k2: int| 0 <= k2 < ts - pos ==> is_space(raw[k2]));
            lemma_trim_front_range(raw, ts - pos);
            let w = sq.subrange(ts as int, j as int);
            assert(raw.subrange(ts - pos, raw.len() as int) =~= w);
            assert(forall|k2: int| te - ts <= k2 < w.len() ==> is_space(w[k2]));
            lemma_trim_back_range(w, te - ts);
            assert(w.subrange(0, te - ts) =~= sq.subrange(ts as int, te as int));
            assert(trim_text(raw) == sq.subrange(ts as int, te as int));
        }
        let tok = sl.substring_char(ts, te);
        toks.push(tok.to_owned());
        if te > ts {
            any = true;
        }
        proof {
            assert(toks@[k]@ == trim_text(split_spaces(sq)[k]));
            assert(trim_text(split_spaces(sq)[k]).len() == te - ts);
        }
        if j < n {
            let ghost p = pos as int;
            proof {
                assert(u.subrange(j - p + 1, u.len() as int) =~= sq.subrange(
                    j + 1,
                    n as int,
                ));
                assert(split_spaces(u).drop_first() =~~= split_spaces(
                    sq.subrange(j + 1, n as int),
                ));
                assert(split_spaces(sq).subrange(k, ll).drop_first() =~~= split_spaces(
                    sq,
                ).subrange(k + 1, ll));
            }
            pos = j + 1;
        } else {
            done = true;
            proof {
                assert(split_spaces(u) == seq![u]);
                assert(split_spaces(sq).subrange(k, ll).len() == 1);
                assert(toks@.len() == ll);
            }
        }
    }
    proof {
        lemma_words_from_parts(sq, toks.deep_view());
        assert(toks.deep_view().len() == toks@.len());
        assert(forall|i: int|
            0 <= i < toks@.len() ==> toks.deep_view()[i] == toks@[i]@);
    }
    if any {
        proof {
            assert(toks.deep_view() =~~= words_of(sq));
        }
        toks
    } else {
        let r: Vec<String> = Vec::new();
        proof {
            assert(r.deep_view() =~~= words_of(sq));
        }
        r
    }
}

/// The capability the dispatcher depends on: run a named command with its
/// argument tokens and report whether it was recognized and applied, and
/// produce a current graph-description snapshot on demand.
pub trait Management {
    /// Runs the command named `cmd` with the argument tokens `args`;
    /// reports whether the command was recognized and applied.
    fn assign_job(&mut self, cmd: &String, args: &Vec<String>) -> bool;

    /// Produces a graph-description snapshot of the current state.
    fn gen_graph(&self) -> String;
}

/// The command dispatcher: routes tokenized lines to a `Management`
/// capability.
pub struct Interactor<M: Management> {
    /// The capability commands are routed to.
    pub manager: M,
}

impl<M: Management> Interactor<M> {
    /// Wraps a capability for dispatch.
    pub fn new(manager: M) -> (r: Self)
        ensures
            r.manager == manager,
    {
        Interactor { manager }
    }

    /// Dispatches one tokenized line: no tokens fail with `ArgLack`, the
    /// exit keyword as first token fails with `Exit`, and any other first
    /// token is forwarded to the capability with the remaining tokens as
    /// arguments. An unrecognized command invokes the capability's help
    /// command and fails with `NoCmd`.
    pub fn handle_cmd(&mut self, args: Vec<String>) -> (r: Result<(), HandlerErr>)
        ensures
            args@.len() == 0 ==> r == Err::<(), HandlerErr>(HandlerErr::ArgLack)
                && final(self).manager == old(self).manager,
            args@.len() > 0 && args@[0]@ == "exit"@ ==> r == Err::<(), HandlerErr>(
                HandlerErr::Exit,
            ) && final(self).manager == old(self).manager,
            args@.len() > 0 && args@[0]@ != "exit"@ ==> (r == Ok::<(), HandlerErr>(())
                || r == Err::<(), HandlerErr>(HandlerErr::NoCmd)),
    {
        if args.len() == 0 {
            return Err(HandlerErr::ArgLack);
        }
        let exit_kw = String::from_str("exit");
        if args[0] == exit_kw {
            return Err(HandlerErr::Exit);
        }
        let rest = tail_tokens(&args);
        let done = self.manager.assign_job(&args[0], &rest);
        if done {
            Ok(())
        } else {
            let help_kw = String::from_str("help");
            let no_args: Vec<String> = Vec::new();
            self.manager.assign_job(&help_kw, &no_args);
            Err(HandlerErr::NoCmd)
        }
    }

    /// Requests a graph-description snapshot from the capability.
    pub fn gen_graph(&self) -> String {
        self.manager.gen_graph()
    }
}

/// Copies every token but the first.
fn tail_tokens(args: &Vec<String>) -> (r: Vec<String>)
    requires
        args@.len() >= 1,
    ensures
        r@.len() == args@.len() - 1,
        forall|i: int| 0 <= i < r@.len() ==> r@[i] == args@[i + 1],
{
    let mut rest: Vec<String> = Vec::new();
    let mut i: usize = 1;
    while i < args.len()
        invariant
            1 <= i <= args@.len(),
            rest@.len() == i - 1,
            forall|k: int| 0 <= k < rest@.len() ==> rest@[k] == args@[k + 1],
        decreases args@.len() - i,
    {
        rest.push(args[i].clone());
        i += 1;
    }
    rest
}

} // verus!
