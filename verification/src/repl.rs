//! The read-eval-print loop: each line is parsed, its macros are defined and
//! expanded, and it is evaluated; the values and messages are the text shown.
//! Bindings and macros carry over from line to line.

use vstd::prelude::*;
use vstd::utf8::encode_utf8;
use crate::ast::{Node, SpecNode, SpecStmt};
use crate::eval::eval;
use crate::eval_spec::{CALL_DEPTH_LIMIT, node_result};
use crate::float::FloatArith;
use crate::lexer::{Lexer, lex_all};
use crate::macros::{define_macros, defined_macros, expand_macros, expanded_node};
use crate::object::{
    Env, Environment, Object, RtState, Runtime, SpecObject, env_push, inspect_text, view_strings,
};
use crate::parser::Parser;
use crate::parser_spec::{PState, program_loop};
use crate::text::{append_str, push_char};

verus! {

/// The prompt shown before each line is read.
pub const PROMPT: &'static str = ">> ";

/// The tokens of a source text and what parsing them gives: the parser's
/// final state (with its messages) and the statements.
pub open spec fn parsed(source: Seq<u8>) -> (PState, Seq<SpecStmt>) {
    program_loop(lex_all(source, 0), PState { pos: 0, errors: Seq::empty() }, Seq::empty())
}

/// Lines of text, each followed by a newline.
pub open spec fn lines_text(ls: Seq<Seq<char>>) -> Seq<char>
    decreases ls.len(),
{
    if ls.len() == 0 {
        Seq::empty()
    } else {
        lines_text(ls.drop_last()) + ls.last() + seq!['\n']
    }
}

/// What one line of input gives: the text the session writes for it, the
/// text `puts` prints while it runs (to standard output, apart from the
/// session's text), and the state after it. The session writes the parser's
/// messages if there are any; else the line's value, if it has one (or the
/// message of a failed macro expansion).
#[verifier::opaque]
pub open spec fn line_result<F: FloatArith>(line: Seq<u8>, env: usize, menv: usize, st: RtState) -> (
    Seq<char>,
    Seq<char>,
    RtState,
) {
    let (pst, prog) = parsed(line);
    if pst.errors.len() > 0 {
        (lines_text(pst.errors), Seq::empty(), st)
    } else {
        let (kept, st1) = defined_macros(prog, 0, menv, st, Seq::empty());
        let (ex, st2) = expanded_node::<F>(SpecNode::Program(kept), menv, st1);
        match ex {
            Err(m) => (
                lines_text(seq![m]),
                lines_text(st2.output),
                RtState { envs: st2.envs, output: Seq::empty() },
            ),
            Ok(n) => {
                let (r, st3) = node_result::<F>(CALL_DEPTH_LIMIT as nat, n, env, st2);
                let shown = match r {
                    Some(o) => lines_text(seq![inspect_text(o)]),
                    None => Seq::empty(),
                };
                (shown, lines_text(st3.output), RtState { envs: st3.envs, output: Seq::empty() })
            },
        }
    }
}

pub proof fn lemma_next_newline(b: Seq<u8>, i: int)
    requires
        0 <= i <= b.len(),
    ensures
        i <= next_newline(b, i) <= b.len(),
    decreases b.len() - i,
{
    if i < b.len() && b[i] != 10 {
        lemma_next_newline(b, i + 1);
    }
}

/// The first newline byte at or after `i`, or the end.
pub open spec fn next_newline(b: Seq<u8>, i: int) -> int
    decreases b.len() - i,
{
    if i >= b.len() || i < 0 {
        b.len() as int
    } else if b[i] == 10 {
        i
    } else {
        next_newline(b, i + 1)
    }
}

/// A line without the carriage returns at its end.
pub open spec fn trim_cr(s: Seq<u8>) -> Seq<u8>
    decreases s.len(),
{
    if s.len() > 0 && s.last() == 13 {
        trim_cr(s.drop_last())
    } else {
        s
    }
}

/// Everything the session writes while reading the input from byte `pos`: a
/// prompt before each line and the line's text after it, and a last prompt
/// at the end.
pub open spec fn transcript<F: FloatArith>(b: Seq<u8>, pos: int, env: usize, menv: usize, st: RtState) -> Seq<
    char,
>
    decreases b.len() - pos,
{
    if 0 <= pos < b.len() {
        let e = next_newline(b, pos);
        proof {
            lemma_next_newline(b, pos);
        }
        let (text, _, st1) = line_result::<F>(trim_cr(b.subrange(pos, e)), env, menv, st);
        let rest = if e < b.len() {
            transcript::<F>(b, e + 1, env, menv, st1)
        } else {
            ">> "@
        };
        ">> "@ + text + rest
    } else {
        ">> "@
    }
}

/// Everything `puts` prints while the input is read from byte `pos`, line
/// after line.
pub open spec fn printed<F: FloatArith>(b: Seq<u8>, pos: int, env: usize, menv: usize, st: RtState) -> Seq<
    char,
>
    decreases b.len() - pos,
{
    if 0 <= pos < b.len() {
        let e = next_newline(b, pos);
        proof {
            lemma_next_newline(b, pos);
        }
        let (_, text, st1) = line_result::<F>(trim_cr(b.subrange(pos, e)), env, menv, st);
        let rest = if e < b.len() {
            printed::<F>(b, e + 1, env, menv, st1)
        } else {
            Seq::empty()
        };
        text + rest
    } else {
        Seq::empty()
    }
}

/// The state a fresh interpreter starts in: two empty environments, for
/// values and for macros.
pub open spec fn initial_state() -> RtState {
    env_push(env_push(RtState { envs: Seq::empty(), output: Seq::empty() }, None), None)
}

/// An interpreter session: the runtime, the environment of values and the
/// environment of macros.
pub struct Repl {
    pub rt: Runtime,
    pub env: Env,
    pub macro_env: Env,
}

/// The lines, each followed by a newline.
fn join_lines(ls: &[String]) -> (r: String)
    ensures
        r@ == lines_text(view_strings(ls@)),
{
    let ghost lv = view_strings(ls@);
    let mut out = String::new();
    let mut i: usize = 0;
    while i < ls.len()
        invariant
            i <= ls@.len(),
            lv == view_strings(ls@),
            out@ == lines_text(lv.take(i as int)),
        decreases ls@.len() - i,
    {
        append_str(&mut out, ls[i].as_str());
        push_char(&mut out, '\n');
        assert(lv.take(i + 1).drop_last() =~= lv.take(i as int));
        i = i + 1;
    }
    assert(lv.take(ls@.len() as int) =~= lv);
    out
}

impl Repl {
    /// A fresh session.
    pub fn new() -> (r: Repl)
        ensures
            r.rt@ == initial_state(),
            r.env == 0,
            r.macro_env == 1,
    {
        let mut rt = Runtime::new();
        let env = Environment::new(&mut rt);
        let macro_env = Environment::new(&mut rt);
        Repl { rt, env, macro_env }
    }

    /// Runs one line of source text (as bytes) and gives back the text the
    /// session writes for it and the text `puts` printed meanwhile.
    pub fn eval_line_bytes<F: FloatArith>(&mut self, line: Vec<u8>) -> (out: (String, String))
        ensures
            (out.0@, out.1@, final(self).rt@) == line_result::<F>(
                line@,
                old(self).env,
                old(self).macro_env,
                old(self).rt@,
            ),
            final(self).env == old(self).env,
            final(self).macro_env == old(self).macro_env,
    {
        reveal(line_result);
        let lexer = Lexer::from_bytes(line);
        let mut p = Parser::new(lexer);
        let mut program = p.parse_program();
        let errs = p.errors();
        if errs.len() > 0 {
            return (join_lines(errs), String::new());
        }
        define_macros(&mut program, self.macro_env, &mut self.rt);
        match expand_macros::<F>(Node::Program(program), self.macro_env, &mut self.rt) {
            Err(m) => {
                let lines = self.rt.take_output();
                let mut shown: Vec<String> = Vec::new();
                shown.push(m);
                assert(view_strings(shown@) =~= seq![shown@[0]@]);
                (join_lines(shown.as_slice()), join_lines(lines.as_slice()))
            },
            Ok(n) => {
                let r = eval::<F>(&n, self.env, &mut self.rt);
                let lines = self.rt.take_output();
                let mut shown: Vec<String> = Vec::new();
                match r {
                    Some(o) => {
                        let t = o.inspect();
                        shown.push(t);
                        assert(view_strings(shown@) =~= seq![shown@[0]@]);
                    },
                    None => {
                        assert(view_strings(shown@) =~= Seq::<Seq<char>>::empty());
                    },
                }
                (join_lines(shown.as_slice()), join_lines(lines.as_slice()))
            },
        }
    }

    /// Runs one line of source text and gives back the text the session
    /// writes for it and the text `puts` printed meanwhile.
    pub fn eval_line<F: FloatArith>(&mut self, line: &str) -> (out: (String, String))
        ensures
            (out.0@, out.1@, final(self).rt@) == line_result::<F>(
                encode_utf8(line@),
                old(self).env,
                old(self).macro_env,
                old(self).rt@,
            ),
            final(self).env == old(self).env,
            final(self).macro_env == old(self).macro_env,
    {
        self.eval_line_bytes::<F>(vstd::slice::slice_to_vec(line.as_bytes()))
    }
}

/// The bytes of `b` from `start` to `end`, without carriage returns at the end.
fn trimmed_line(b: &[u8], start: usize, end: usize) -> (r: Vec<u8>)
    requires
        start <= end <= b@.len(),
    ensures
        r@ == trim_cr(b@.subrange(start as int, end as int)),
{
    let mut v: Vec<u8> = Vec::new();
    let mut i = start;
    while i < end
        invariant
            start <= i <= end,
            end <= b@.len(),
            v@ == b@.subrange(start as int, i as int),
        decreases end - i,
    {
        v.push(b[i]);
        i = i + 1;
        assert(v@ =~= b@.subrange(start as int, i as int));
    }
    while v.len() > 0 && v[v.len() - 1] == 13
        invariant
            trim_cr(v@) == trim_cr(b@.subrange(start as int, end as int)),
        decreases v@.len(),
    {
        v.pop();
    }
    v
}

/// Runs a whole session over `input`, line by line as a reader would hand
/// them out, and gives back everything the session writes, prompts
/// included, and, apart from it, everything `puts` printed.
pub fn start<F: FloatArith>(input: &str) -> (out: (String, String))
    ensures
        out.0@ == transcript::<F>(encode_utf8(input@), 0, 0, 1, initial_state()),
        out.1@ == printed::<F>(encode_utf8(input@), 0, 0, 1, initial_state()),
{
    let b = input.as_bytes();
    let mut repl = Repl::new();
    let mut out = String::new();
    let mut put = String::new();
    let mut pos: usize = 0;
    while pos < b.len()
        invariant
            pos <= b@.len(),
            b@ == encode_utf8(input@),
            repl.env == 0,
            repl.macro_env == 1,
            out@ + transcript::<F>(b@, pos as int, 0, 1, repl.rt@) == transcript::<F>(
                b@,
                0,
                0,
                1,
                initial_state(),
            ),
            put@ + printed::<F>(b@, pos as int, 0, 1, repl.rt@) == printed::<F>(
                b@,
                0,
                0,
                1,
                initial_state(),
            ),
        decreases b@.len() - pos,
    {
        let mut e = pos;
        while e < b.len() && b[e] != 10
            invariant
                pos <= e <= b@.len(),
                next_newline(b@, e as int) == next_newline(b@, pos as int),
            decreases b@.len() - e,
        {
            e = e + 1;
        }
        proof {
            lemma_next_newline(b@, pos as int);
        }
        let ghost st = repl.rt@;
        let ghost prefix = out@;
        let ghost pprefix = put@;
        append_str(&mut out, PROMPT);
        let line = trimmed_line(b, pos, e);
        let (text, shown_by_puts) = repl.eval_line_bytes::<F>(line);
        append_str(&mut out, text.as_str());
        append_str(&mut put, shown_by_puts.as_str());
        let next = if e < b.len() {
            e + 1
        } else {
            e
        };
        proof {
            assert(out@ == prefix + ">> "@ + text@);
            assert(prefix + (">> "@ + text@ + transcript::<F>(b@, next as int, 0, 1, repl.rt@)) =~= prefix
                + ">> "@ + text@ + transcript::<F>(b@, next as int, 0, 1, repl.rt@));
            assert(put@ == pprefix + shown_by_puts@);
            if next < b@.len() {
                assert(pprefix + (shown_by_puts@ + printed::<F>(b@, next as int, 0, 1, repl.rt@))
                    =~= pprefix + shown_by_puts@ + printed::<F>(b@, next as int, 0, 1, repl.rt@));
            } else {
                assert(pprefix + (shown_by_puts@ + Seq::<char>::empty()) =~= pprefix + shown_by_puts@
                    + printed::<F>(b@, next as int, 0, 1, repl.rt@));
            }
        }
        pos = next;
    }
    append_str(&mut out, PROMPT);
    (out, put)
}

/// What running a whole program shows: its first parser message as an
/// error; else what `puts` wrote, and the program's value unless it is `nil`
/// or there is none.
#[verifier::opaque]
pub open spec fn run_result<F: FloatArith>(source: Seq<u8>) -> Result<Seq<char>, Seq<char>> {
    let (pst, prog) = parsed(source);
    if pst.errors.len() > 0 {
        Err(pst.errors[0])
    } else {
        let st0 = env_push(RtState { envs: Seq::empty(), output: Seq::empty() }, None);
        let (r, st1) = node_result::<F>(CALL_DEPTH_LIMIT as nat, SpecNode::Program(prog), 0, st0);
        match r {
            Some(SpecObject::Nil) => Ok(lines_text(st1.output)),
            Some(o) => Ok(lines_text(st1.output.push(inspect_text(o)))),
            None => Ok(lines_text(st1.output)),
        }
    }
}

/// Runs a whole program, without macros, and gives back what it shows, or
/// its first parser message.
pub fn run<F: FloatArith>(source: &str) -> (r: Result<String, String>)
    ensures
        match r {
            Ok(t) => run_result::<F>(encode_utf8(source@)) == Ok::<Seq<char>, Seq<char>>(t@),
            Err(m) => run_result::<F>(encode_utf8(source@)) == Err::<Seq<char>, Seq<char>>(m@),
        },
{
    reveal(run_result);
    let mut p = Parser::new(Lexer::new(source));
    let program = p.parse_program();
    let errs = p.errors();
    if errs.len() > 0 {
        return Err(errs[0].clone());
    }
    let mut rt = Runtime::new();
    let env = Environment::new(&mut rt);
    let r = eval::<F>(&Node::Program(program), env, &mut rt);
    let mut lines = rt.take_output();
    match r {
        Some(Object::Nil) => {},
        Some(o) => {
            let ghost before = lines@;
            let t = o.inspect();
            lines.push(t);
            assert(view_strings(lines@) =~= view_strings(before).push(t@));
        },
        None => {},
    }
    Ok(join_lines(lines.as_slice()))
}

} // verus!
