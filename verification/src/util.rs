//! What a command came to.

use crate::text::{cat2, join, lines, opt_owned, owned, signed_str};
use vstd::prelude::*;
use vstd::string::StringExecFns;

verus! {

/// A command that has run.
#[derive(Debug)]
pub struct CmdOut {
    /// None where it was killed.
    pub code: Option<i32>,
    pub stdout: String,
    pub stderr: String,
    pub timed_out: bool,
    /// How long it ran, written out.
    pub elapsed: String,
}

/// The last lines of a text, at most so many, with a bar between them.
pub open spec fn last_lines(text: Seq<char>, n: int) -> Seq<char> {
    let ls = crate::text::lines_of(text);
    crate::text::joined(
        if ls.len() > n {
            ls.skip(ls.len() - n)
        } else {
            ls
        },
        " | "@,
    )
}

/// An exit code, or that there is none.
pub open spec fn code_text(code: Option<i32>) -> Seq<char> {
    match code {
        Some(n) => "Some("@ + crate::text::signed(n as int) + ")"@,
        None => "None"@,
    }
}

impl CmdOut {
    /// It ended by itself, with success.
    pub fn ok(&self) -> (r: bool)
        ensures
            r == (!self.timed_out && self.code == Some(0i32)),
    {
        !self.timed_out && (match self.code {
            Some(n) => n == 0,
            None => false,
        })
    }

    pub open spec fn brief_text(self) -> Seq<char> {
        if self.timed_out {
            "timed out after "@ + self.elapsed@
        } else {
            "exit "@ + code_text(self.code) + ": "@ + last_lines(self.stderr@, 3)
        }
    }

    /// What went wrong, in a line: the end of what it complained of.
    pub fn brief_err(&self) -> (s: String)
        ensures
            s@ == self.brief_text(),
    {
        if self.timed_out {
            return cat2("timed out after ", self.elapsed.as_str());
        }
        let code: String = match self.code {
            Some(n) => crate::text::cat3("Some(", signed_str(n).as_str(), ")"),
            None => owned("None"),
        };
        let tail: String = tail_lines(self.stderr.as_str());
        crate::text::cat4("exit ", code.as_str(), ": ", tail.as_str())
    }
}

fn tail_lines(text: &str) -> (s: String)
    ensures
        s@ == last_lines(text@, 3),
{
    let ls: Vec<String> = lines(text);
    let ghost lv = crate::text::views(ls@);
    let n: usize = ls.len();
    let from: usize = if n > 3 {
        n - 3
    } else {
        0
    };
    let ghost want = lv.skip(from as int);
    let mut v: Vec<String> = Vec::new();
    let mut i: usize = from;
    assert(crate::text::views(v@) =~= want.take(0));
    while i < n
        invariant
            n == ls@.len(),
            from <= i <= n,
            lv == crate::text::views(ls@),
            want == lv.skip(from as int),
            crate::text::views(v@) == want.take(i - from),
        decreases n - i,
    {
        let ghost now = crate::text::views(v@);
        v.push(owned(ls[i].as_str()));
        proof {
            assert(want[i - from] == ls@[i as int]@);
            assert(crate::text::views(v@) =~= now.push(want[i - from]));
            assert(now.push(want[i - from]) =~= want.take(i - from + 1));
        }
        i = i + 1;
    }
    assert(want.take(n - from) =~= want);
    assert(n <= 3 ==> want =~= lv);
    join(&v, " | ")
}

/// The names that a command lists, one on a line, empty lines left out.
pub open spec fn listed(ls: Seq<Seq<char>>) -> Seq<Seq<char>>
    decreases ls.len(),
{
    if ls.len() == 0 {
        Seq::empty()
    } else {
        let before = listed(ls.drop_last());
        let l = crate::text::trimmed(ls.last());
        if l.len() == 0 {
            before
        } else {
            before.push(l)
        }
    }
}

/// Read the names that a command lists.
pub fn listed_names(text: &str) -> (r: Vec<String>)
    ensures
        crate::text::views(r@) == listed(crate::text::lines_of(text@)),
{
    let ls: Vec<String> = lines(text);
    let ghost lv = crate::text::views(ls@);
    let mut r: Vec<String> = Vec::new();
    let mut i: usize = 0;
    assert(lv.take(0) =~= Seq::empty());
    assert(crate::text::views(r@) =~= Seq::empty());
    while i < ls.len()
        invariant
            i <= ls@.len(),
            lv == crate::text::views(ls@),
            crate::text::views(r@) == listed(lv.take(i as int)),
        decreases ls@.len() - i,
    {
        let ghost now = crate::text::views(r@);
        proof {
            let longer = lv.take(i as int + 1);
            assert(longer.drop_last() =~= lv.take(i as int));
            assert(longer.last() == ls@[i as int]@);
        }
        let l: String = crate::text::trim(ls[i].as_str());
        if !crate::text::same(l.as_str(), "") {
            proof {
                reveal_strlit("");
                if l@.len() == 0 {
                    assert(l@ =~= ""@);
                }
            }
            let ghost nv = l@;
            r.push(l);
            assert(crate::text::views(r@) =~= now.push(nv));
        } else {
            proof {
                reveal_strlit("");
            }
        }
        i = i + 1;
    }
    assert(lv.take(ls@.len() as int) =~= lv);
    r
}

/// The names that start with a prefix.
pub open spec fn prefixed(names: Seq<Seq<char>>, prefix: Seq<char>) -> Seq<Seq<char>> {
    names.filter(|n: Seq<char>| crate::text::has_prefix(n, prefix))
}

/// Keep the listed names that start with a prefix.
pub fn listed_with_prefix(text: &str, prefix: &str) -> (r: Vec<String>)
    ensures
        crate::text::views(r@) == prefixed(listed(crate::text::lines_of(text@)), prefix@),
{
    let all: Vec<String> = listed_names(text);
    let ghost av = crate::text::views(all@);
    let mut r: Vec<String> = Vec::new();
    let mut i: usize = 0;
    assert(crate::text::views(r@) =~= prefixed(av.take(0), prefix@)) by {
        reveal(Seq::filter);
    }
    while i < all.len()
        invariant
            i <= all@.len(),
            av == crate::text::views(all@),
            crate::text::views(r@) == prefixed(av.take(i as int), prefix@),
        decreases all@.len() - i,
    {
        let ghost now = crate::text::views(r@);
        proof {
            reveal(Seq::filter);
            let longer = av.take(i as int + 1);
            assert(longer.drop_last() =~= av.take(i as int));
            assert(longer.last() == all@[i as int]@);
        }
        if crate::text::starts_with(all[i].as_str(), prefix) {
            r.push(owned(all[i].as_str()));
            assert(crate::text::views(r@) =~= now.push(av[i as int]));
        }
        i = i + 1;
    }
    assert(av.take(all@.len() as int) =~= av);
    r
}

/// The first words of the lines after the header that start with a prefix.
pub open spec fn first_words(ls: Seq<Seq<char>>, prefix: Seq<char>) -> Seq<Seq<char>>
    decreases ls.len(),
{
    if ls.len() <= 1 {
        Seq::empty()
    } else {
        let before = first_words(ls.drop_last(), prefix);
        let ws = crate::text::words_of(ls.last());
        if ws.len() > 0 && crate::text::has_prefix(ws[0], prefix) {
            before.push(ws[0])
        } else {
            before
        }
    }
}

/// Read the names that start with a prefix from a table with a header.
pub fn table_names(text: &str, prefix: &str) -> (r: Vec<String>)
    ensures
        crate::text::views(r@) == first_words(crate::text::lines_of(text@), prefix@),
{
    let ls: Vec<String> = lines(text);
    let ghost lv = crate::text::views(ls@);
    let mut r: Vec<String> = Vec::new();
    assert(crate::text::views(r@) =~= Seq::empty());
    if ls.len() == 0 {
        return r;
    }
    let mut i: usize = 1;
    while i < ls.len()
        invariant
            1 <= i <= ls@.len(),
            lv == crate::text::views(ls@),
            crate::text::views(r@) == first_words(lv.take(i as int), prefix@),
        decreases ls@.len() - i,
    {
        let ghost now = crate::text::views(r@);
        proof {
            let longer = lv.take(i as int + 1);
            assert(longer.drop_last() =~= lv.take(i as int));
            assert(longer.last() == ls@[i as int]@);
        }
        let ws: Vec<String> = crate::text::words(ls[i].as_str());
        let ghost wv = crate::text::views(ws@);
        if ws.len() > 0 {
            assert(wv[0] == ws@[0]@);
            if crate::text::starts_with(ws[0].as_str(), prefix) {
                r.push(owned(ws[0].as_str()));
                assert(crate::text::views(r@) =~= now.push(wv[0]));
            }
        }
        i = i + 1;
    }
    assert(lv.take(ls@.len() as int) =~= lv);
    r
}

/// The lines that are shown are the last ones, no more than were asked for, in
/// order and with a bar between them.
pub proof fn which_lines_are_shown(text: Seq<char>, n: int)
    requires
        n >= 0,
    ensures
        crate::text::lines_of(text).len() <= n ==> last_lines(text, n) == crate::text::joined(
            crate::text::lines_of(text),
            " | "@,
        ),
        crate::text::lines_of(text).len() > n ==> last_lines(text, n) == crate::text::joined(
            Seq::new(
                n as nat,
                |i: int|
                    crate::text::lines_of(text)[crate::text::lines_of(text).len() - n + i],
            ),
            " | "@,
        ),
{
    let ls = crate::text::lines_of(text);
    if ls.len() > n {
        assert(ls.skip(ls.len() - n) =~= Seq::new(n as nat, |i: int| ls[ls.len() - n + i]));
    }
}

/// A line is a name, without the blanks around it, unless nothing else is on
/// it.
pub proof fn each_line_is_a_name(ls: Seq<Seq<char>>, l: Seq<char>)
    ensures
        crate::text::trimmed(l).len() > 0 ==> listed(ls.push(l)) == listed(ls).push(
            crate::text::trimmed(l),
        ),
        crate::text::trimmed(l).len() == 0 ==> listed(ls.push(l)) == listed(ls),
        listed(Seq::empty()) == Seq::<Seq<char>>::empty(),
{
    assert(ls.push(l).drop_last() =~= ls);
}

/// The names with a prefix are those that start with it, and no others.
pub proof fn which_names_are_kept(names: Seq<Seq<char>>, prefix: Seq<char>, name: Seq<char>)
    ensures
        prefixed(names, prefix).contains(name) <==> names.contains(name)
            && crate::text::has_prefix(name, prefix),
{
    let p = |n: Seq<char>| crate::text::has_prefix(n, prefix);
    let kept = prefixed(names, prefix);
    if names.contains(name) && crate::text::has_prefix(name, prefix) {
        let i = choose|i: int| 0 <= i < names.len() && names[i] == name;
        names.lemma_filter_contains(p, i);
    }
    if kept.contains(name) {
        let i = choose|i: int| 0 <= i < kept.len() && kept[i] == name;
        names.lemma_filter_pred(p, i);
        names.lemma_filter_contains_rev(p, name);
    }
}

/// Of a table the header does not count; of every other line the first word
/// does, where it has the prefix.
pub proof fn names_of_a_table(ls: Seq<Seq<char>>, l: Seq<char>, prefix: Seq<char>)
    requires
        ls.len() > 0,
    ensures
        ({
            let w = crate::text::words_of(l);
            if w.len() > 0 && crate::text::has_prefix(w[0], prefix) {
                first_words(ls.push(l), prefix) == first_words(ls, prefix).push(w[0])
            } else {
                first_words(ls.push(l), prefix) == first_words(ls, prefix)
            }
        }),
        first_words(seq![l], prefix) == Seq::<Seq<char>>::empty(),
{
    assert(ls.push(l).drop_last() =~= ls);
}

} // verus!
