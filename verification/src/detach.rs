//! Detached child processes: what to start, and the Windows command line that
//! hands the arguments over.
//!
//! A detached child must hold none of the parent's handles, so it is started
//! from a single command line there; the quoting follows the rules by which
//! the C runtime takes a command line apart.

use crate::text::{owned, to_chars};
use vstd::prelude::*;

verus! {

pub const QUOTE: u16 = 34;

pub const BACKSLASH: u16 = 92;

pub const SPACE: u16 = 32;

pub const TAB: u16 = 9;

/// Where a detached child's output goes.
#[derive(Debug, Clone)]
pub enum Stdio {
    Null,
    /// Append to the file at this path.
    File(String),
}

/// A child process to start detached.
#[derive(Debug, Clone)]
pub struct Detached {
    pub program: String,
    pub args: Vec<String>,
    pub stdout: Stdio,
    pub stderr: Stdio,
}

impl Detached {
    /// No arguments, output discarded.
    pub fn new(program: String) -> (d: Detached)
        ensures
            d.program == program,
            d.args@.len() == 0,
            d.stdout is Null,
            d.stderr is Null,
    {
        Detached { program, args: Vec::new(), stdout: Stdio::Null, stderr: Stdio::Null }
    }

    pub fn arg(self, arg: &str) -> (d: Detached)
        ensures
            d.program == self.program,
            crate::text::views(d.args@) == crate::text::views(self.args@).push(arg@),
            d.stdout == self.stdout,
            d.stderr == self.stderr,
    {
        let mut args: Vec<String> = self.args;
        args.push(owned(arg));
        assert(crate::text::views(args@) =~= crate::text::views(self.args@).push(arg@));
        Detached { program: self.program, args, stdout: self.stdout, stderr: self.stderr }
    }

    pub fn stdout(self, stdout: Stdio) -> (d: Detached)
        ensures
            d == (Detached { stdout, ..self }),
    {
        Detached { program: self.program, args: self.args, stdout, stderr: self.stderr }
    }

    pub fn stderr(self, stderr: Stdio) -> (d: Detached)
        ensures
            d == (Detached { stderr, ..self }),
    {
        Detached { program: self.program, args: self.args, stdout: self.stdout, stderr }
    }
}

/// A character in UTF-16: itself, or a surrogate pair beyond the first plane.
pub open spec fn utf16_char(c: char) -> Seq<u16> {
    let n = c as u32;
    if n < 0x1_0000 {
        seq![n as u16]
    } else {
        seq![(0xd800 + (n - 0x1_0000) / 0x400) as u16, (0xdc00 + (n - 0x1_0000) % 0x400) as u16]
    }
}

/// A text in UTF-16.
pub open spec fn utf16(s: Seq<char>) -> Seq<u16>
    decreases s.len(),
{
    if s.len() == 0 {
        Seq::empty()
    } else {
        utf16(s.drop_last()) + utf16_char(s.last())
    }
}

/// `str::encode_utf16`.
pub fn wide(s: &str) -> (w: Vec<u16>)
    ensures
        w@ == utf16(s@),
{
    let v: Vec<char> = to_chars(s);
    let mut w: Vec<u16> = Vec::new();
    let mut i: usize = 0;
    assert(s@.take(0) =~= Seq::empty());
    while i < v.len()
        invariant
            v@ == s@,
            i <= v@.len(),
            w@ == utf16(s@.take(i as int)),
        decreases v@.len() - i,
    {
        let n: u32 = v[i] as u32;
        let ghost before = w@;
        if n < 0x1_0000 {
            w.push(n as u16);
        } else {
            let m: u32 = n - 0x1_0000;
            w.push((0xd800 + m / 0x400) as u16);
            w.push((0xdc00 + m % 0x400) as u16);
        }
        proof {
            assert(s@.take(i as int + 1).drop_last() =~= s@.take(i as int));
            assert(w@ =~= before + utf16_char(v@[i as int]));
        }
        i = i + 1;
    }
    assert(s@.take(v@.len() as int) =~= s@);
    w
}

/// How many backslashes the argument ends in.
pub open spec fn trailing(arg: Seq<u16>) -> nat
    decreases arg.len(),
{
    if arg.len() > 0 && arg.last() == BACKSLASH {
        trailing(arg.drop_last()) + 1
    } else {
        0
    }
}

pub open spec fn backslashes(n: nat) -> Seq<u16> {
    Seq::new(n, |i: int| BACKSLASH)
}

/// The argument with its quotes escaped: a run of backslashes before a quote
/// is doubled, and the quote gets one of its own.
pub open spec fn escaped(arg: Seq<u16>) -> Seq<u16>
    decreases arg.len(),
{
    if arg.len() == 0 {
        Seq::empty()
    } else if arg.last() == QUOTE {
        escaped(arg.drop_last()) + backslashes(trailing(arg.drop_last()) + 1) + seq![QUOTE]
    } else {
        escaped(arg.drop_last()).push(arg.last())
    }
}

pub open spec fn blank(c: u16) -> bool {
    c == SPACE || c == TAB
}

/// Whether the argument must stand in quotes.
pub open spec fn needs_quotes(arg: Seq<u16>) -> bool {
    arg.len() == 0 || exists|i: int| 0 <= i < arg.len() && blank(#[trigger] arg[i])
}

/// The argument as it stands on the command line. A run of backslashes at the
/// end is doubled where a closing quote follows.
pub open spec fn rendered(arg: Seq<u16>, force_quotes: bool) -> Seq<u16> {
    if force_quotes || needs_quotes(arg) {
        seq![QUOTE] + escaped(arg) + backslashes(trailing(arg)) + seq![QUOTE]
    } else {
        escaped(arg)
    }
}

/// A NUL in an argument: no command line can carry it.
#[derive(Debug, Clone, Copy, PartialEq, Eq, Structural)]
pub struct NulInArgument;

pub open spec fn has_nul(arg: Seq<u16>) -> bool {
    exists|i: int| 0 <= i < arg.len() && #[trigger] arg[i] == 0
}

fn push_backslashes(cmd: &mut Vec<u16>, n: usize)
    ensures
        final(cmd)@ == old(cmd)@ + backslashes(n as nat),
{
    let mut i: usize = 0;
    assert(cmd@ =~= old(cmd)@ + backslashes(0));
    while i < n
        invariant
            i <= n,
            cmd@ == old(cmd)@ + backslashes(i as nat),
        decreases n - i,
    {
        cmd.push(BACKSLASH);
        assert(cmd@ =~= old(cmd)@ + backslashes(i as nat + 1));
        i = i + 1;
    }
}

fn append_arg(cmd: &mut Vec<u16>, arg: &Vec<u16>, force_quotes: bool) -> (r: Result<
    (),
    NulInArgument,
>)
    ensures
        r is Err == has_nul(arg@),
        r is Ok ==> final(cmd)@ == old(cmd)@ + rendered(arg@, force_quotes),
{
    let mut quote: bool = force_quotes || arg.len() == 0;
    let mut k: usize = 0;
    while k < arg.len()
        invariant
            k <= arg@.len(),
            quote == (force_quotes || arg@.len() == 0 || exists|i: int|
                0 <= i < k && blank(#[trigger] arg@[i])),
        decreases arg@.len() - k,
    {
        if arg[k] == SPACE || arg[k] == TAB {
            assert(blank(arg@[k as int]));
            quote = true;
        }
        k = k + 1;
    }
    let ghost start = cmd@;
    if quote {
        cmd.push(QUOTE);
    }
    let ghost opened = cmd@;
    let mut run: usize = 0;
    let mut i: usize = 0;
    assert(arg@.take(0) =~= Seq::empty());
    assert(cmd@ =~= opened + escaped(arg@.take(0)));
    while i < arg.len()
        invariant
            i <= arg@.len(),
            run == trailing(arg@.take(i as int)),
            run <= i,
            cmd@ == opened + escaped(arg@.take(i as int)),
            forall|j: int| 0 <= j < i ==> #[trigger] arg@[j] != 0,
        decreases arg@.len() - i,
    {
        let c: u16 = arg[i];
        if c == 0 {
            assert(arg@[i as int] == 0);
            return Err(NulInArgument);
        }
        let ghost longer = arg@.take(i as int + 1);
        let ghost before = cmd@;
        proof {
            assert(longer.drop_last() =~= arg@.take(i as int));
            assert(longer.last() == c);
        }
        if c == BACKSLASH {
            run = run + 1;
        } else {
            if c == QUOTE {
                // A run of backslashes before a quote is halved by the parser,
                // so it is doubled, and the quote itself escaped.
                push_backslashes(cmd, run + 1);
            }
            run = 0;
        }
        cmd.push(c);
        assert(cmd@ =~= opened + escaped(longer));
        i = i + 1;
    }
    assert(arg@.take(arg@.len() as int) =~= arg@);
    if quote {
        // The same halving applies to the closing quote.
        push_backslashes(cmd, run);
        cmd.push(QUOTE);
    }
    assert(cmd@ =~= start + rendered(arg@, force_quotes));
    Ok(())
}

/// The arguments in UTF-16.
pub open spec fn wide_args(args: Seq<String>) -> Seq<Seq<u16>> {
    args.map_values(|s: String| utf16(s@))
}

/// The rendered arguments, each behind a space.
pub open spec fn rendered_args(args: Seq<Seq<u16>>) -> Seq<u16>
    decreases args.len(),
{
    if args.len() == 0 {
        Seq::empty()
    } else {
        rendered_args(args.drop_last()) + seq![SPACE] + rendered(args.last(), false)
    }
}

/// The command line: the program always in quotes, since its path is likely to
/// hold a space, the arguments, and a final NUL. An error where any of them
/// holds a NUL.
pub fn command_line(program: &str, args: &Vec<String>) -> (r: Result<Vec<u16>, NulInArgument>)
    ensures
        r is Err == (has_nul(utf16(program@)) || exists|i: int|
            0 <= i < args@.len() && has_nul(#[trigger] wide_args(args@)[i])),
        r is Ok ==> r->Ok_0@ == (rendered(utf16(program@), true) + rendered_args(
            wide_args(args@),
        )).push(0),
{
    let mut cmd: Vec<u16> = Vec::new();
    let prog: Vec<u16> = wide(program);
    let ghost av = wide_args(args@);
    match append_arg(&mut cmd, &prog, true) {
        Err(e) => {
            return Err(e);
        },
        Ok(()) => {},
    }
    let ghost head = rendered(utf16(program@), true);
    let mut i: usize = 0;
    assert(av.take(0) =~= Seq::empty());
    assert(cmd@ =~= head + rendered_args(av.take(0)));
    while i < args.len()
        invariant
            i <= args@.len(),
            av == wide_args(args@),
            cmd@ == head + rendered_args(av.take(i as int)),
            forall|j: int| 0 <= j < i ==> !has_nul(#[trigger] av[j]),
        decreases args@.len() - i,
    {
        let ghost longer = av.take(i as int + 1);
        let ghost before = cmd@;
        cmd.push(SPACE);
        let a: Vec<u16> = wide(args[i].as_str());
        assert(a@ == av[i as int]);
        match append_arg(&mut cmd, &a, false) {
            Err(e) => {
                assert(has_nul(wide_args(args@)[i as int]));
                return Err(e);
            },
            Ok(()) => {},
        }
        proof {
            assert(longer.drop_last() =~= av.take(i as int));
            assert(longer.last() == av[i as int]);
            assert(cmd@ =~= head + rendered_args(longer));
        }
        i = i + 1;
    }
    assert(av.take(args@.len() as int) =~= av);
    cmd.push(0);
    Ok(cmd)
}

// How the child takes the command line apart.

/// The C runtime's argument parser, mid-way: the arguments read so far, the
/// one being read (if any), whether it stands in quotes, and the backslashes
/// whose meaning the next character decides.
pub struct Parser {
    pub done: Seq<Seq<u16>>,
    pub cur: Option<Seq<u16>>,
    pub quoted: bool,
    pub pending: nat,
}

impl Parser {
    pub open spec fn so_far(self) -> Seq<u16> {
        match self.cur {
            Some(c) => c,
            None => Seq::empty(),
        }
    }

    /// 2n backslashes and a quote are n backslashes and a quotation mark that
    /// opens or closes; 2n+1 and a quote are n backslashes and a literal quote;
    /// any others stand for themselves. Blanks end an argument unless quoted.
    pub open spec fn step(self, c: u16) -> Parser {
        if c == BACKSLASH {
            Parser { cur: Some(self.so_far()), pending: self.pending + 1, ..self }
        } else if c == QUOTE {
            let text = self.so_far() + backslashes(self.pending / 2);
            if self.pending % 2 == 1 {
                Parser { cur: Some(text.push(QUOTE)), pending: 0, ..self }
            } else {
                Parser { cur: Some(text), pending: 0, quoted: !self.quoted, ..self }
            }
        } else if blank(c) && !self.quoted {
            match self.cur {
                Some(text) => Parser {
                    done: self.done.push(text + backslashes(self.pending)),
                    cur: None,
                    quoted: false,
                    pending: 0,
                },
                None => self,
            }
        } else {
            Parser {
                cur: Some((self.so_far() + backslashes(self.pending)).push(c)),
                pending: 0,
                ..self
            }
        }
    }

    pub open spec fn steps(self, s: Seq<u16>) -> Parser
        decreases s.len(),
    {
        if s.len() == 0 {
            self
        } else {
            self.steps(s.drop_last()).step(s.last())
        }
    }

    /// The arguments when the line has ended.
    pub open spec fn finish(self) -> Seq<Seq<u16>> {
        match self.cur {
            Some(text) => self.done.push(text + backslashes(self.pending)),
            None => self.done,
        }
    }
}

/// The arguments that a child reads from the part of the command line behind
/// the program's name.
pub open spec fn parsed_args(line: Seq<u16>) -> Seq<Seq<u16>> {
    (Parser { done: Seq::empty(), cur: None, quoted: false, pending: 0 }).steps(line).finish()
}

proof fn lemma_steps_concat(p: Parser, a: Seq<u16>, b: Seq<u16>)
    ensures
        p.steps(a + b) == p.steps(a).steps(b),
    decreases b.len(),
{
    if b.len() == 0 {
        assert(a + b =~= a);
    } else {
        assert((a + b).drop_last() =~= a + b.drop_last());
        lemma_steps_concat(p, a, b.drop_last());
    }
}

proof fn lemma_backslash_steps(p: Parser, n: nat)
    requires
        p.cur is Some,
    ensures
        p.steps(backslashes(n)) == (Parser { pending: p.pending + n, ..p }),
    decreases n,
{
    if n > 0 {
        assert(backslashes(n).drop_last() =~= backslashes((n - 1) as nat));
        lemma_backslash_steps(p, (n - 1) as nat);
    }
}

/// The argument without the backslashes it ends in.
pub open spec fn without_trailing(arg: Seq<u16>) -> Seq<u16> {
    arg.take(arg.len() - trailing(arg))
}

proof fn lemma_trailing_split(arg: Seq<u16>)
    ensures
        trailing(arg) <= arg.len(),
        without_trailing(arg) + backslashes(trailing(arg)) == arg,
    decreases arg.len(),
{
    if arg.len() > 0 && arg.last() == BACKSLASH {
        let init = arg.drop_last();
        lemma_trailing_split(init);
        assert(without_trailing(arg) =~= without_trailing(init));
        assert(without_trailing(arg) + backslashes(trailing(arg)) =~= (without_trailing(init)
            + backslashes(trailing(init))).push(BACKSLASH));
        assert(arg =~= init.push(BACKSLASH));
    } else {
        assert(without_trailing(arg) + backslashes(0) =~= arg);
    }
}

/// Reading an escaped argument, at its start or behind an opening quote.
proof fn lemma_escaped_steps(p: Parser, arg: Seq<u16>)
    requires
        p.pending == 0,
        p.so_far() == Seq::<u16>::empty(),
        p.quoted || !needs_quotes(arg),
        p.quoted ==> p.cur is Some,
    ensures
        p.steps(escaped(arg)) == (if arg.len() == 0 {
            p
        } else {
            Parser { cur: Some(without_trailing(arg)), pending: trailing(arg), ..p }
        }),
    decreases arg.len(),
{
    if arg.len() > 0 {
        let init = arg.drop_last();
        let c = arg.last();
        if !p.quoted {
            assert(!blank(arg[arg.len() - 1]));
        }
        if init.len() == 0 {
            assert(escaped(init) =~= Seq::empty());
            assert(without_trailing(init) =~= Seq::empty());
        } else {
            if !p.quoted {
                assert forall|i: int| 0 <= i < init.len() implies !blank(#[trigger] init[i]) by {
                    assert(!blank(arg[i]));
                }
            }
            lemma_escaped_steps(p, init);
        }
        lemma_trailing_split(init);
        lemma_trailing_split(arg);
        let q = p.steps(escaped(init));
        assert(q.so_far() == without_trailing(init));
        assert(q.pending == trailing(init));
        if c == QUOTE {
            let t = trailing(init);
            let e = escaped(arg);
            assert(e.drop_last() =~= escaped(init) + backslashes(t + 1));
            lemma_steps_concat(p, escaped(init), backslashes(t + 1));
            // The first of these backslashes starts the argument if nothing has.
            assert(backslashes(t + 1) =~= seq![BACKSLASH] + backslashes(t));
            lemma_steps_concat(q, seq![BACKSLASH], backslashes(t));
            assert(seq![BACKSLASH].drop_last() =~= Seq::empty());
            let q1 = q.steps(seq![BACKSLASH]);
            assert(q1 == q.steps(Seq::empty()).step(BACKSLASH));
            assert(q1 == (Parser { cur: Some(q.so_far()), pending: t + 1, ..q }));
            lemma_backslash_steps(q1, t);
            let q2 = q1.steps(backslashes(t));
            assert(q2.pending == 2 * t + 1);
            assert((2 * t + 1) / 2 == t && (2 * t + 1) % 2 == 1);
            assert(p.steps(e) == q2.step(QUOTE));
            assert((without_trailing(init) + backslashes(t)).push(QUOTE) =~= arg);
            assert(without_trailing(arg) =~= arg);
        } else if c == BACKSLASH {
            assert(escaped(arg).drop_last() =~= escaped(init));
            assert(without_trailing(arg) =~= without_trailing(init));
        } else {
            assert(escaped(arg).drop_last() =~= escaped(init));
            assert((without_trailing(init) + backslashes(trailing(init))).push(c) =~= arg);
            assert(without_trailing(arg) =~= arg);
        }
    }
}

/// Reading one rendered argument between arguments leaves it ready to end.
proof fn lemma_rendered_steps(done: Seq<Seq<u16>>, arg: Seq<u16>)
    ensures
        ({
            let p = Parser { done, cur: None, quoted: false, pending: 0 };
            let r = p.steps(rendered(arg, false));
            &&& r.done == done
            &&& r.cur is Some
            &&& !r.quoted
            &&& r.cur->0 + backslashes(r.pending) == arg
        }),
{
    let p = Parser { done, cur: None, quoted: false, pending: 0 };
    lemma_trailing_split(arg);
    if needs_quotes(arg) {
        let open = seq![QUOTE];
        let p1 = p.steps(open);
        assert(open.drop_last() =~= Seq::empty());
        assert(p1 == p.steps(Seq::empty()).step(QUOTE));
        assert(p.so_far() + backslashes(0) =~= Seq::empty());
        assert(p1 == (Parser { done, cur: Some(Seq::empty()), quoted: true, pending: 0 }));
        lemma_escaped_steps(p1, arg);
        let p2 = p1.steps(escaped(arg));
        let t = trailing(arg);
        if arg.len() == 0 {
            assert(without_trailing(arg) =~= Seq::empty());
        }
        lemma_backslash_steps(p2, t);
        let p3 = p2.steps(backslashes(t));
        assert(p3.pending == 2 * t);
        assert((2 * t) / 2 == t && (2 * t) % 2 == 0);
        lemma_steps_concat(p, open, escaped(arg));
        lemma_steps_concat(p, open + escaped(arg), backslashes(t));
        let whole = rendered(arg, false);
        assert(whole.drop_last() =~= open + escaped(arg) + backslashes(t));
        assert(p.steps(whole) == p3.step(QUOTE));
        assert(arg + backslashes(0) =~= arg);
    } else {
        lemma_escaped_steps(p, arg);
    }
}

proof fn lemma_all_args(args: Seq<Seq<u16>>)
    ensures
        ({
            let p = Parser { done: Seq::empty(), cur: None, quoted: false, pending: 0 };
            let r = p.steps(rendered_args(args));
            &&& !r.quoted
            &&& r.finish() == args
            &&& args.len() > 0 ==> r.cur is Some
            &&& args.len() == 0 ==> r == p
        }),
    decreases args.len(),
{
    let p = Parser { done: Seq::empty(), cur: None, quoted: false, pending: 0 };
    if args.len() == 0 {
        assert(p.finish() =~= args);
    } else {
        let init = args.drop_last();
        lemma_all_args(init);
        let r = p.steps(rendered_args(init));
        lemma_steps_concat(p, rendered_args(init), seq![SPACE]);
        assert(seq![SPACE].drop_last() =~= Seq::empty());
        let s = r.steps(seq![SPACE]);
        assert(s == r.steps(Seq::empty()).step(SPACE));
        assert(s == (Parser { done: init, cur: None, quoted: false, pending: 0 })) by {
            if init.len() == 0 {
                assert(init =~= Seq::empty());
            }
        }
        lemma_rendered_steps(init, args.last());
        lemma_steps_concat(p, rendered_args(init) + seq![SPACE], rendered(args.last(), false));
        assert(init.push(args.last()) =~= args);
    }
}

/// The child reads exactly the arguments that were given: taking the command
/// line apart, behind the program's name, undoes the quoting.
pub proof fn quoting_is_undone_by_the_child(args: Seq<Seq<u16>>)
    ensures
        parsed_args(rendered_args(args)) == args,
{
    lemma_all_args(args);
}

/// A character is one unit of UTF-16, or two that give it back.
pub proof fn a_character_reads_back(c: char)
    ensures
        (c as u32) < 0x1_0000 ==> utf16_char(c).len() == 1 && utf16_char(c)[0] == c as u32,
        (c as u32) >= 0x1_0000 ==> ({
            let u = utf16_char(c);
            &&& u.len() == 2
            &&& 0xd800 <= u[0] < 0xdc00
            &&& 0xdc00 <= u[1] < 0xe000
            &&& 0x1_0000 + (u[0] - 0xd800) * 0x400 + (u[1] - 0xdc00) == c as u32
        }),
{
}

} // verus!
