//! Ephemeral, isolated microVMs: a command is run in a throwaway guest, and
//! what it wrote is read off the guest's console.

use crate::initramfs::{EntryView, InitramfsBuilder};
use crate::lifecycle::parse_pid;
use crate::memory::text_between;
use crate::spec::{ShareSpec, ShareView, SpecView, VmSpec};
use crate::spike::{at_least_a_gib, make_bare};
use crate::text::{
    cat2, cat3, contains, join as join_text, lines, owned, push_line, replace_char, to_chars,
};
use vstd::prelude::*;
use vstd::utf8::encode_utf8;

verus! {

/// What is run, and on how much of a machine.
#[derive(Debug)]
pub struct SandboxOpts {
    pub cpus: u32,
    pub mem: u64,
    pub share_cwd: bool,
    pub cmd: Vec<String>,
}

/// A character that a shell takes as it stands.
pub open spec fn bare_char(c: char) -> bool {
    'a' <= c <= 'z' || 'A' <= c <= 'Z' || '0' <= c <= '9' || c == '-' || c == '_' || c == '.' || c
        == '/' || c == '=' || c == ':'
}

/// A word as the shell reads it back: bare where that is safe, else in single
/// quotes.
pub open spec fn shell_word(s: Seq<char>) -> Seq<char> {
    if forall|i: int| 0 <= i < s.len() ==> bare_char(#[trigger] s[i]) {
        s
    } else {
        "'"@ + crate::text::replaced(s, '\'', "'\\''"@) + "'"@
    }
}

fn word(s: &str) -> (r: String)
    ensures
        r@ == shell_word(s@),
{
    let v: Vec<char> = to_chars(s);
    let mut i: usize = 0;
    while i < v.len()
        invariant
            v@ == s@,
            i <= v@.len(),
            forall|j: int| 0 <= j < i ==> bare_char(#[trigger] s@[j]),
        decreases v@.len() - i,
    {
        let c: char = v[i];
        let bare: bool = ('a' <= c && c <= 'z') || ('A' <= c && c <= 'Z') || ('0' <= c && c <= '9')
            || c == '-' || c == '_' || c == '.' || c == '/' || c == '=' || c == ':';
        if !bare {
            assert(!bare_char(s@[i as int]));
            return cat3("'", replace_char(s, '\'', "'\\''").as_str(), "'");
        }
        i = i + 1;
    }
    owned(s)
}

/// A command line that the shell splits into the words again.
pub open spec fn shell_line(words: Seq<Seq<char>>) -> Seq<char> {
    crate::text::joined(words.map_values(|w: Seq<char>| shell_word(w)), " "@)
}

/// Join a command for the shell.
pub fn shell_join(cmd: &Vec<String>) -> (r: String)
    ensures
        r@ == shell_line(crate::text::views(cmd@)),
{
    let ghost all = crate::text::views(cmd@);
    let ghost want = all.map_values(|w: Seq<char>| shell_word(w));
    let mut out: Vec<String> = Vec::new();
    let mut i: usize = 0;
    assert(crate::text::views(out@) =~= want.take(0));
    while i < cmd.len()
        invariant
            i <= cmd@.len(),
            all == crate::text::views(cmd@),
            want == all.map_values(|w: Seq<char>| shell_word(w)),
            crate::text::views(out@) == want.take(i as int),
        decreases cmd@.len() - i,
    {
        push_line(&mut out, word(cmd[i].as_str()));
        proof {
            assert(want[i as int] == shell_word(cmd@[i as int]@));
            assert(want.take(i as int).push(want[i as int]) =~= want.take(i as int + 1));
        }
        i = i + 1;
    }
    assert(want.take(cmd@.len() as int) =~= want);
    join_text(&out, " ")
}

/// Where a shell is in a word of a command line.
pub enum Quoting {
    /// Outside of quotes.
    Open,
    /// In single quotes.
    Quoted,
    /// Behind a backslash.
    Escaped,
}

/// What a shell reads from text in single quotes, escaped quotes and bare
/// characters: the characters of one word, and none where a quote stays open
/// or a bare character would mean something to it.
pub open spec fn shell_reads(s: Seq<char>, at: Quoting) -> Option<Seq<char>>
    decreases s.len(),
{
    if s.len() == 0 {
        if at is Open {
            Some(Seq::empty())
        } else {
            None
        }
    } else {
        let c = s[0];
        let rest = s.skip(1);
        match at {
            Quoting::Open => if c == '\'' {
                shell_reads(rest, Quoting::Quoted)
            } else if c == '\\' {
                shell_reads(rest, Quoting::Escaped)
            } else if bare_char(c) {
                match shell_reads(rest, Quoting::Open) {
                    Some(t) => Some(seq![c] + t),
                    None => None,
                }
            } else {
                None
            },
            Quoting::Quoted => if c == '\'' {
                shell_reads(rest, Quoting::Open)
            } else {
                match shell_reads(rest, Quoting::Quoted) {
                    Some(t) => Some(seq![c] + t),
                    None => None,
                }
            },
            Quoting::Escaped => match shell_reads(rest, Quoting::Open) {
                Some(t) => Some(seq![c] + t),
                None => None,
            },
        }
    }
}

proof fn lemma_bare_reads(s: Seq<char>)
    requires
        forall|i: int| 0 <= i < s.len() ==> bare_char(#[trigger] s[i]),
    ensures
        shell_reads(s, Quoting::Open) == Some(s),
    decreases s.len(),
{
    if s.len() > 0 {
        let rest = s.skip(1);
        assert forall|i: int| 0 <= i < rest.len() implies bare_char(#[trigger] rest[i]) by {
            assert(rest[i] == s[i + 1]);
        }
        lemma_bare_reads(rest);
        assert(bare_char(s[0]));
        assert(seq![s[0]] + rest =~= s);
    } else {
        assert(s =~= Seq::empty());
    }
}

proof fn lemma_replaced_first(s: Seq<char>, c: char, t: Seq<char>)
    requires
        s.len() > 0,
    ensures
        crate::text::replaced(s, c, t) == (if s[0] == c {
            t
        } else {
            seq![s[0]]
        }) + crate::text::replaced(s.skip(1), c, t),
    decreases s.len(),
{
    if s.len() == 1 {
        assert(s.skip(1) =~= Seq::empty());
        assert(s.drop_last() =~= Seq::empty());
        assert(crate::text::replaced(s.drop_last(), c, t) =~= Seq::empty());
        assert(crate::text::replaced(s.skip(1), c, t) =~= Seq::empty());
    } else {
        lemma_replaced_first(s.drop_last(), c, t);
        assert(s.drop_last().skip(1) =~= s.skip(1).drop_last());
        assert(s.skip(1).last() == s.last());
    }
    assert(crate::text::replaced(s, c, t) =~= (if s[0] == c {
        t
    } else {
        seq![s[0]]
    }) + crate::text::replaced(s.skip(1), c, t));
}

proof fn lemma_quoted_reads(s: Seq<char>)
    ensures
        shell_reads(crate::text::replaced(s, '\'', "'\\''"@) + "'"@, Quoting::Quoted) == Some(s),
    decreases s.len(),
{
    reveal_strlit("'\\''");
    reveal_strlit("'");
    let esc = "'\\''"@;
    let end = "'"@;
    if s.len() == 0 {
        let whole = crate::text::replaced(s, '\'', esc) + end;
        assert(whole =~= seq!['\'']);
        assert(whole.skip(1) =~= Seq::empty());
        assert(shell_reads(whole.skip(1), Quoting::Open) == Some(Seq::<char>::empty()));
        assert(s =~= Seq::empty());
    } else {
        let rest = s.skip(1);
        lemma_quoted_reads(rest);
        lemma_replaced_first(s, '\'', esc);
        let tail = crate::text::replaced(rest, '\'', esc) + end;
        let whole = crate::text::replaced(s, '\'', esc) + end;
        if s[0] == '\'' {
            assert(whole =~= esc + tail);
            assert(whole[0] == '\'');
            let a = whole.skip(1);
            assert(a[0] == '\\');
            let b = a.skip(1);
            assert(b[0] == '\'');
            let c = b.skip(1);
            assert(c[0] == '\'');
            assert(c.skip(1) =~= tail);
            assert(shell_reads(c, Quoting::Open) == shell_reads(tail, Quoting::Quoted));
            assert(shell_reads(b, Quoting::Escaped) == Some(seq!['\''] + rest));
            assert(shell_reads(a, Quoting::Open) == shell_reads(b, Quoting::Escaped));
            assert(seq!['\''] + rest =~= s);
        } else {
            assert(whole =~= seq![s[0]] + tail);
            assert(whole.skip(1) =~= tail);
            assert(seq![s[0]] + rest =~= s);
        }
    }
}

/// A shell reads back the word that was quoted for it, whatever it holds.
pub proof fn the_shell_reads_the_word(s: Seq<char>)
    ensures
        shell_reads(shell_word(s), Quoting::Open) == Some(s),
{
    if forall|i: int| 0 <= i < s.len() ==> bare_char(#[trigger] s[i]) {
        lemma_bare_reads(s);
    } else {
        reveal_strlit("'");
        lemma_quoted_reads(s);
        let w = shell_word(s);
        assert(w[0] == '\'');
        assert(w.skip(1) =~= crate::text::replaced(s, '\'', "'\\''"@) + "'"@);
    }
}

/// The script that the guest runs.
pub open spec fn script_of(share_cwd: bool, cmd: Seq<Seq<char>>) -> Seq<char> {
    "#!/bin/sh\nexport PATH=/usr/local/sbin:/usr/local/bin:/usr/sbin:/usr/bin:/sbin:/bin\n"@ + (
    if share_cwd {
        "mkdir -p /workdir && mount -t virtiofs cwd /workdir 2>/dev/null && cd /workdir\n"@
    } else {
        Seq::empty()
    }) + shell_line(cmd) + "\n"@
}

pub fn script(opts: &SandboxOpts) -> (s: String)
    ensures
        s@ == script_of(opts.share_cwd, crate::text::views(opts.cmd@)),
{
    let mut s: String = owned(
        "#!/bin/sh\nexport PATH=/usr/local/sbin:/usr/local/bin:/usr/sbin:/usr/bin:/sbin:/bin\n",
    );
    if opts.share_cwd {
        s.append("mkdir -p /workdir && mount -t virtiofs cwd /workdir 2>/dev/null && cd /workdir\n");
    }
    s.append(shell_join(&opts.cmd).as_str());
    s.append("\n");
    assert(s@ =~= script_of(opts.share_cwd, crate::text::views(opts.cmd@)));
    s
}

/// The commands that busybox stands in for.
pub open spec fn applets() -> Seq<Seq<char>> {
    seq![
        "sh"@,
        "mount"@,
        "ls"@,
        "cat"@,
        "echo"@,
        "uname"@,
        "env"@,
        "mkdir"@,
        "wget"@,
        "ip"@,
    ]
}

pub open spec fn applet_entry(applet: Seq<char>) -> EntryView {
    EntryView {
        name: crate::initramfs::member_name("/bin/"@ + applet),
        mode: crate::initramfs::S_IFLNK | 0o777,
        rdev: (0, 0),
        data: encode_utf8("/bin/busybox"@),
    }
}

/// What is in the guest's root.
pub open spec fn sandbox_members(init: Seq<u8>, busybox: Seq<u8>, script: Seq<char>) -> Seq<
    EntryView,
> {
    seq![
        crate::spike::dir_entry("/dev"@, 0o755),
        crate::spike::console_entry(),
        crate::spike::dir_entry("/proc"@, 0o755),
        crate::spike::dir_entry("/sys"@, 0o755),
        crate::spike::dir_entry("/bin"@, 0o755),
        crate::spike::dir_entry("/usr"@, 0o755),
        crate::spike::dir_entry("/usr/bin"@, 0o755),
        crate::spike::dir_entry("/tmp"@, 0o1777),
        crate::spike::file_entry("/init"@, init, 0o755),
        crate::spike::file_entry("/bin/busybox"@, busybox, 0o755),
        crate::spike::file_entry("/sandbox-cmd"@, encode_utf8(script), 0o755),
    ] + applets().map_values(|a: Seq<char>| applet_entry(a))
}

fn add_applet(b: InitramfsBuilder, applet: &str) -> (r: InitramfsBuilder)
    ensures
        r@ == b@.push(applet_entry(applet@)),
{
    b.symlink(cat2("/bin/", applet).as_str(), "/bin/busybox")
}

/// Assemble the guest's root.
pub fn sandbox_initramfs(init: Vec<u8>, busybox: Vec<u8>, script: &str) -> (out: Vec<u8>)
    ensures
        out@ == crate::initramfs::archive(sandbox_members(init@, busybox@, script@)),
{
    let ghost want = sandbox_members(init@, busybox@, script@);
    let mut code: Vec<u8> = Vec::new();
    crate::bytes::push_bytes(&mut code, script.as_bytes());
    assert(code@ =~= encode_utf8(script@));
    let mut b: InitramfsBuilder = InitramfsBuilder::new();
    b = b.dir("/dev", 0o755);
    b = b.char_dev("/dev/console", 5, 1, 0o600);
    b = b.dir("/proc", 0o755);
    b = b.dir("/sys", 0o755);
    b = b.dir("/bin", 0o755);
    b = b.dir("/usr", 0o755);
    b = b.dir("/usr/bin", 0o755);
    b = b.dir("/tmp", 0o1777);
    b = b.file("/init", init, 0o755);
    b = b.file("/bin/busybox", busybox, 0o755);
    b = b.file("/sandbox-cmd", code, 0o755);
    b = add_applet(b, "sh");
    b = add_applet(b, "mount");
    b = add_applet(b, "ls");
    b = add_applet(b, "cat");
    b = add_applet(b, "echo");
    b = add_applet(b, "uname");
    b = add_applet(b, "env");
    b = add_applet(b, "mkdir");
    b = add_applet(b, "wget");
    b = add_applet(b, "ip");
    assert(b@ =~= want);
    b.build()
}

/// The guest's description.
pub fn sandbox_spec(
    opts: &SandboxOpts,
    id: &str,
    kernel: &str,
    initramfs: &str,
    console_log: &str,
    cwd: &str,
) -> (s: VmSpec)
    ensures
        s@ == (SpecView {
            shares: if opts.share_cwd {
                seq![ShareView { tag: "cwd"@, host_path: cwd@, read_only: false }]
            } else {
                Seq::empty()
            },
            ..crate::spike::bare_spec(
                id@,
                opts.cpus,
                crate::spike::krun_floor(opts.mem),
                kernel@,
                initramfs@,
                "console=hvc0 reboot=k NEBULA_SANDBOX=1"@,
                console_log@,
            )
        }),
{
    let mut s: VmSpec = make_bare(
        id,
        opts.cpus,
        at_least_a_gib(opts.mem),
        kernel,
        initramfs,
        "console=hvc0 reboot=k NEBULA_SANDBOX=1",
        console_log,
    );
    if opts.share_cwd {
        s.shares = vec![
            ShareSpec { tag: owned("cwd"), host_path: owned(cwd), read_only: false },
        ];
        assert(s@.shares =~= seq![
            ShareView { tag: "cwd"@, host_path: cwd@, read_only: false },
        ]);
    }
    s
}

/// What was read off the console so far: the workload's lines, whether they
/// have begun, and the exit code once it has ended.
pub struct ConsoleView {
    pub printed: Seq<Seq<char>>,
    pub printing: bool,
    pub ended: Option<int>,
}

/// The exit code behind the end mark; one where it is no number.
pub open spec fn exit_of(rest: Seq<char>) -> int {
    match crate::lifecycle::pid_text(rest) {
        Some(n) => n,
        None => 1,
    }
}

/// Read one more line.
pub open spec fn with_line(c: ConsoleView, line: Seq<char>) -> ConsoleView {
    if c.ended is Some {
        c
    } else if crate::text::has_part(line, "NEBULA_SANDBOX_BEGIN"@) {
        ConsoleView { printing: true, ..c }
    } else {
        match crate::memory::between(line, "NEBULA_SANDBOX_END="@) {
            Some(rest) => ConsoleView { ended: Some(exit_of(rest)), ..c },
            None => if c.printing {
                ConsoleView { printed: c.printed.push(line), ..c }
            } else {
                c
            },
        }
    }
}

/// Read a console.
pub open spec fn console_of(lines: Seq<Seq<char>>) -> ConsoleView
    decreases lines.len(),
{
    if lines.len() == 0 {
        ConsoleView { printed: Seq::empty(), printing: false, ended: None }
    } else {
        with_line(console_of(lines.drop_last()), lines.last())
    }
}

/// What a sandbox came to: the workload's output and its exit code.
#[derive(Debug)]
pub struct SandboxOutput {
    pub lines: Vec<String>,
    pub exit_code: i32,
}

/// Read the console of a sandbox that has powered off: the lines between the
/// marks, and the exit code, which is zero where there is none.
pub fn sandbox_output(console: &str) -> (o: SandboxOutput)
    ensures
        ({
            let c = console_of(crate::text::lines_of(console@));
            crate::text::views(o.lines@) == c.printed && o.exit_code == (match c.ended {
                Some(n) => n,
                None => 0,
            })
        }),
{
    let ls: Vec<String> = lines(console);
    let ghost all = crate::text::views(ls@);
    let mut out: Vec<String> = Vec::new();
    let mut printing: bool = false;
    let mut i: usize = 0;
    proof {
        assert(all.take(0) =~= Seq::empty());
        assert(crate::text::views(out@) =~= Seq::empty());
    }
    while i < ls.len()
        invariant
            i <= ls@.len(),
            all == crate::text::views(ls@),
            all == crate::text::lines_of(console@),
            console_of(all.take(i as int)) == (ConsoleView {
                printed: crate::text::views(out@),
                printing,
                ended: None,
            }),
        decreases ls@.len() - i,
    {
        let ghost longer = all.take(i as int + 1);
        proof {
            assert(longer.drop_last() =~= all.take(i as int));
            assert(longer.last() == ls@[i as int]@);
        }
        let line: &str = ls[i].as_str();
        if contains(line, "NEBULA_SANDBOX_BEGIN") {
            printing = true;
        } else {
            match text_between(line, "NEBULA_SANDBOX_END=") {
                Some(rest) => {
                    let code: i32 = match parse_pid(rest.as_str()) {
                        Some(n) => n,
                        None => 1,
                    };
                    proof {
                        nothing_follows_the_end(all, i as int + 1);
                    }
                    return SandboxOutput { lines: out, exit_code: code };
                },
                None => {
                    if printing {
                        push_line(&mut out, owned(line));
                    }
                },
            }
        }
        i = i + 1;
    }
    assert(all.take(ls@.len() as int) =~= all);
    SandboxOutput { lines: out, exit_code: 0 }
}

/// Nothing that follows the end mark counts.
pub proof fn nothing_follows_the_end(lines: Seq<Seq<char>>, n: int)
    requires
        0 <= n <= lines.len(),
        console_of(lines.take(n)).ended is Some,
    ensures
        console_of(lines) == console_of(lines.take(n)),
    decreases lines.len(),
{
    if n < lines.len() {
        assert(lines.drop_last().take(n) =~= lines.take(n));
        nothing_follows_the_end(lines.drop_last(), n);
    } else {
        assert(lines.take(n) =~= lines);
    }
}

/// Nothing that the guest writes before the begin mark is taken for the
/// workload's output.
pub proof fn only_the_workload_is_printed(lines: Seq<Seq<char>>, n: int)
    requires
        0 <= n <= lines.len(),
        forall|i: int|
            0 <= i < n ==> !crate::text::has_part(#[trigger] lines[i], "NEBULA_SANDBOX_BEGIN"@),
    ensures
        console_of(lines.take(n)).printed.len() == 0,
    decreases n,
{
    lemma_quiet(lines, n);
}

proof fn lemma_quiet(lines: Seq<Seq<char>>, n: int)
    requires
        0 <= n <= lines.len(),
        forall|i: int|
            0 <= i < n ==> !crate::text::has_part(#[trigger] lines[i], "NEBULA_SANDBOX_BEGIN"@),
    ensures
        console_of(lines.take(n)).printed.len() == 0,
        !console_of(lines.take(n)).printing,
    decreases n,
{
    let t = lines.take(n);
    if n > 0 {
        assert(t.drop_last() =~= lines.take(n - 1));
        lemma_quiet(lines, n - 1);
        assert(t.last() == lines[n - 1]);
    }
}

/// What means something to a shell is never left bare.
pub proof fn what_a_shell_would_act_on(c: char)
    requires
        c == ' ' || c == '\t' || c == '\n' || c == '$' || c == '`' || c == '"' || c == '\'' || c
            == '\\' || c == '|' || c == '&' || c == ';' || c == '<' || c == '>' || c == '(' || c
            == ')' || c == '*' || c == '?' || c == '[' || c == ']' || c == '#' || c == '~' || c
            == '!' || c == '{' || c == '}' || c == '%' || c == '^',
    ensures
        !bare_char(c),
{
}

/// The guest runs the command, word by word, in the shared directory where that
/// is asked for.
pub proof fn what_the_guest_runs(share_cwd: bool, cmd: Seq<Seq<char>>)
    ensures
        crate::text::has_prefix(script_of(share_cwd, cmd), "#!/bin/sh\n"@),
        crate::text::has_suffix(script_of(share_cwd, cmd), "\n"@ + shell_line(cmd) + "\n"@),
        share_cwd ==> crate::text::has_part(
            script_of(share_cwd, cmd),
            "mount -t virtiofs cwd /workdir 2>/dev/null && cd /workdir\n"@ + shell_line(cmd),
        ),
{
    reveal_strlit("#!/bin/sh\n");
    reveal_strlit("\n");
    reveal_strlit(
        "#!/bin/sh\nexport PATH=/usr/local/sbin:/usr/local/bin:/usr/sbin:/usr/bin:/sbin:/bin\n",
    );
    reveal_strlit(
        "mkdir -p /workdir && mount -t virtiofs cwd /workdir 2>/dev/null && cd /workdir\n",
    );
    reveal_strlit("mount -t virtiofs cwd /workdir 2>/dev/null && cd /workdir\n");
    let head =
        "#!/bin/sh\nexport PATH=/usr/local/sbin:/usr/local/bin:/usr/sbin:/usr/bin:/sbin:/bin\n"@;
    let mid =
        "mkdir -p /workdir && mount -t virtiofs cwd /workdir 2>/dev/null && cd /workdir\n"@;
    let tail = "mount -t virtiofs cwd /workdir 2>/dev/null && cd /workdir\n"@;
    let s = script_of(share_cwd, cmd);
    let line = shell_line(cmd);
    let first = "#!/bin/sh\n"@;
    assert(s.subrange(0, first.len() as int) =~= first);
    let end = "\n"@ + line + "\n"@;
    let n = s.len() - end.len();
    if share_cwd {
        assert(s =~= head + mid + line + "\n"@);
        assert(s.subrange(n, n + end.len()) =~= end);
        let at = head.len() + mid.len() - tail.len();
        assert(mid.subrange(mid.len() - tail.len(), mid.len() as int) =~= tail);
        assert(s.subrange(at, at + (tail + line).len()) =~= tail + line);
        assert(crate::text::occurs_at(s, tail + line, at));
    } else {
        assert(s =~= head + line + "\n"@);
        assert(s.subrange(n, n + end.len()) =~= end);
    }
}

/// The guest's root holds its init, the shell and the script, all of which can
/// be run, and every command leads to the shell.
pub proof fn what_is_in_the_guest(init: Seq<u8>, busybox: Seq<u8>, script: Seq<char>, k: int)
    requires
        0 <= k < applets().len(),
    ensures
        ({
            let m = sandbox_members(init, busybox, script);
            let file = |name: Seq<char>, data: Seq<u8>|
                EntryView {
                    name: crate::initramfs::member_name(name),
                    mode: 0o100755u32,
                    rdev: (0, 0),
                    data,
                };
            &&& m.contains(file("/init"@, init))
            &&& m.contains(file("/bin/busybox"@, busybox))
            &&& m.contains(file("/sandbox-cmd"@, encode_utf8(script)))
            &&& m.contains(
                EntryView {
                    name: crate::initramfs::member_name("/bin/"@ + applets()[k]),
                    mode: 0o120777u32,
                    rdev: (0, 0),
                    data: encode_utf8("/bin/busybox"@),
                },
            )
            &&& m.contains(
                EntryView {
                    name: crate::initramfs::member_name("/dev/console"@),
                    mode: 0o20600u32,
                    rdev: (5, 1),
                    data: Seq::empty(),
                },
            )
            &&& applets().contains("sh"@) && applets().contains("mount"@)
        }),
{
    let m = sandbox_members(init, busybox, script);
    assert(0o100000u32 | (0o755u32 & 0o7777u32) == 0o100755u32) by (bit_vector);
    assert(0o120000u32 | 0o777u32 == 0o120777u32) by (bit_vector);
    assert(0o20000u32 | (0o600u32 & 0o7777u32) == 0o20600u32) by (bit_vector);
    assert(m[8] == crate::spike::file_entry("/init"@, init, 0o755));
    assert(m[9] == crate::spike::file_entry("/bin/busybox"@, busybox, 0o755));
    assert(m[10] == crate::spike::file_entry("/sandbox-cmd"@, encode_utf8(script), 0o755));
    assert(m[11 + k] == applet_entry(applets()[k]));
    assert(m[1] == crate::spike::console_entry());
    assert(applets()[0] == "sh"@ && applets()[1] == "mount"@);
}

/// The output is what stands between the marks, and the code is the one behind
/// the second.
pub proof fn how_a_console_is_read(c: ConsoleView, line: Seq<char>, n: nat)
    requires
        c.ended is None,
        n <= 0x7fff_ffff,
    ensures
        crate::text::has_part(line, "NEBULA_SANDBOX_BEGIN"@) ==> with_line(c, line).printing
            && with_line(c, line).ended is None && with_line(c, line).printed == c.printed,
        !crate::text::has_part(line, "NEBULA_SANDBOX_BEGIN"@) && crate::memory::between(
            line,
            "NEBULA_SANDBOX_END="@,
        ) == Some(crate::text::decimal(n)) ==> with_line(c, line).ended == Some(n as int)
            && with_line(c, line).printed == c.printed,
        !crate::text::has_part(line, "NEBULA_SANDBOX_BEGIN"@) && crate::memory::between(
            line,
            "NEBULA_SANDBOX_END="@,
        ) is None && c.printing ==> with_line(c, line).printed == c.printed.push(line),
        !crate::text::has_part(line, "NEBULA_SANDBOX_BEGIN"@) && crate::memory::between(
            line,
            "NEBULA_SANDBOX_END="@,
        ) is None && !c.printing ==> with_line(c, line) == c,
{
    crate::lifecycle::lemma_pid_reads_back(n);
}

} // verus!
