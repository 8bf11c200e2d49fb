//! Making the bundled docker, kubectl and helm available to users who have
//! none of their own: links in Nebula's own directory, and one guarded line at
//! the end of the shell's profile, so that a user's own installs always come
//! first.

use crate::locate::{ancestors, parent};
use crate::paths::{join, joined_path};
use crate::text::{
    cat2, cat3, cat4, contains, join as join_text, owned, push_line, to_ascii_lowercase, trim,
};
use vstd::prelude::*;

verus! {

/// The tools that are bundled.
pub open spec fn tools() -> Seq<Seq<char>> {
    seq!["docker"@, "kubectl"@, "helm"@]
}

/// The line that marks the profile.
pub const PROFILE_MARKER: &'static str = "# nebula: bundled CLI tools (docker/kubectl/helm fill-ins)";

/// What is known of the tools on this machine.
#[derive(Debug)]
pub struct Status {
    pub missing_from_path: Vec<String>,
    pub bundle_dir: Option<String>,
    pub profile_configured: bool,
}

/// Where the bundle may be: beside the running program, as the desktop app lays
/// it out or flat, then in a checkout above it.
pub open spec fn candidates_of(exe: Seq<char>) -> Seq<Seq<char>> {
    match crate::locate::parent_of(exe) {
        Some(dir) => seq![
            joined_path(dir, "../Resources/resources/bin"@),
            joined_path(dir, "resources/bin"@),
        ] + crate::locate::ancestors_of(exe).map_values(
            |a: Seq<char>| joined_path(a, "ui/src-tauri/resources/bin"@),
        ),
        None => Seq::empty(),
    }
}

/// The directories to look for the bundle in, the first two of which are not in
/// their shortest form.
pub fn bundle_candidates(exe: &str) -> (r: Vec<String>)
    ensures
        crate::text::views(r@) == candidates_of(exe@),
{
    let mut r: Vec<String> = Vec::new();
    assert(crate::text::views(r@) =~= Seq::empty());
    let dir: String = match parent(exe) {
        Some(d) => d,
        None => {
            return r;
        },
    };
    r.push(join(dir.as_str(), "../Resources/resources/bin"));
    r.push(join(dir.as_str(), "resources/bin"));
    let above: Vec<String> = ancestors(exe);
    let ghost av = crate::text::views(above@);
    let mut i: usize = 0;
    while i < above.len()
        invariant
            i <= above@.len(),
            av == crate::text::views(above@),
            av == crate::locate::ancestors_of(exe@),
            crate::locate::parent_of(exe@) is Some,
            r@.len() == i + 2,
            candidates_of(exe@).len() == av.len() + 2,
            forall|j: int| 0 <= j < i + 2 ==> (#[trigger] r@[j])@ == candidates_of(exe@)[j],
        decreases above@.len() - i,
    {
        assert(av[i as int] == above@[i as int]@);
        r.push(join(above[i].as_str(), "ui/src-tauri/resources/bin"));
        i = i + 1;
    }
    assert(crate::text::views(r@) =~= candidates_of(exe@));
    r
}

/// Which of the candidates is the bundle: the first with a docker in it.
pub fn bundled_bin_dir(candidates: &Vec<String>, has_docker: &Vec<bool>) -> (r: Option<usize>)
    requires
        candidates@.len() == has_docker@.len(),
    ensures
        match r {
            Some(i) => i < candidates@.len() && has_docker@[i as int] && forall|j: int|
                0 <= j < i ==> !(#[trigger] has_docker@[j]),
            None => forall|j: int| 0 <= j < candidates@.len() ==> !(#[trigger] has_docker@[j]),
        },
{
    let mut i: usize = 0;
    while i < candidates.len()
        invariant
            i <= candidates@.len(),
            candidates@.len() == has_docker@.len(),
            forall|j: int| 0 <= j < i ==> !(#[trigger] has_docker@[j]),
        decreases candidates@.len() - i,
    {
        if has_docker[i] {
            return Some(i);
        }
        i = i + 1;
    }
    None
}

/// Which of the tools are not to be found, in their order.
pub fn missing(docker: bool, kubectl: bool, helm: bool) -> (r: Vec<String>)
    ensures
        crate::text::views(r@) == (if docker {
            Seq::empty()
        } else {
            seq!["docker"@]
        }) + (if kubectl {
            Seq::empty()
        } else {
            seq!["kubectl"@]
        }) + (if helm {
            Seq::empty()
        } else {
            seq!["helm"@]
        }),
{
    let mut out: Vec<String> = Vec::new();
    if !docker {
        push_line(&mut out, owned("docker"));
    }
    if !kubectl {
        push_line(&mut out, owned("kubectl"));
    }
    if !helm {
        push_line(&mut out, owned("helm"));
    }
    assert(crate::text::views(out@) =~= (if docker {
        Seq::empty()
    } else {
        seq!["docker"@]
    }) + (if kubectl {
        Seq::empty()
    } else {
        seq!["kubectl"@]
    }) + (if helm {
        Seq::empty()
    } else {
        seq!["helm"@]
    }));
    out
}

/// The shell's profile.
pub fn profile_path(home: &str, shell: &str) -> (p: String)
    ensures
        p@ == joined_path(
            home@,
            if crate::text::has_part(shell@, "bash"@) {
                ".bash_profile"@
            } else {
                ".zshrc"@
            },
        ),
{
    if contains(shell, "bash") {
        join(home, ".bash_profile")
    } else {
        join(home, ".zshrc")
    }
}

/// Whether a profile was set up before.
pub fn profile_has_marker(profile: &Option<String>) -> (r: bool)
    ensures
        r == match *profile {
            Some(text) => crate::text::has_part(text@, PROFILE_MARKER@),
            None => false,
        },
{
    match profile {
        Some(text) => contains(text.as_str(), PROFILE_MARKER),
        None => false,
    }
}

/// Whether an answer is a yes.
pub fn is_yes(answer: &str) -> (r: bool)
    ensures
        r == (crate::text::ascii_lower(crate::text::trimmed(answer@)) == "y"@),
{
    let t: String = trim(answer);
    let low: String = to_ascii_lowercase(t.as_str());
    crate::text::same(low.as_str(), "y")
}

/// What is done about the tools.
#[derive(Debug)]
pub enum Setup {
    /// Nothing is bundled; the error's text.
    NoBundle(String),
    /// Nothing has to be done; what is said.
    Nothing(String),
    /// What is announced, before anything is done.
    Announce(Vec<String>),
}

/// Decide what is done about the tools. Nothing changes where none is missing.
pub fn install(st: &Status, home: &str, profile: &str) -> (s: Setup)
    ensures
        match s {
            Setup::NoBundle(e) => st.bundle_dir is None && e@
                == "no bundled CLI tools found near this nebula binary — install the Nebula.app (or run scripts/fetch-host-clis.sh in a dev checkout)"@,
            Setup::Nothing(m) => st.bundle_dir is Some && st.missing_from_path@.len() == 0 && m@
                == (if st.profile_configured {
                "✓ docker, kubectl, and helm are all available; nothing to do"@
            } else {
                "✓ docker, kubectl, and helm are already on your PATH — not changing anything"@
            }),
            Setup::Announce(lines) => st.bundle_dir is Some && st.missing_from_path@.len() > 0
                && crate::text::views(lines@) == seq![
                "missing from PATH: "@ + crate::text::joined(
                    crate::text::views(st.missing_from_path@),
                    ", "@,
                ),
                "this will:"@,
                "  1. symlink "@ + joined_path(home@, "bin"@) + " -> "@ + st.bundle_dir->0@,
                "  2. append to "@ + profile@ + ": export PATH=\"$PATH:$HOME/.nebula/bin\""@,
                "     (appended LAST — your own installs always take precedence)"@,
            ],
        },
{
    match &st.bundle_dir {
        None => Setup::NoBundle(
            owned(
                "no bundled CLI tools found near this nebula binary — install the Nebula.app (or run scripts/fetch-host-clis.sh in a dev checkout)",
            ),
        ),
        Some(bundle) => {
            if st.missing_from_path.len() == 0 {
                if st.profile_configured {
                    Setup::Nothing(
                        owned("✓ docker, kubectl, and helm are all available; nothing to do"),
                    )
                } else {
                    Setup::Nothing(
                        owned(
                            "✓ docker, kubectl, and helm are already on your PATH — not changing anything",
                        ),
                    )
                }
            } else {
                let mut out: Vec<String> = Vec::new();
                let names: String = join_text(&st.missing_from_path, ", ");
                let bin: String = join(home, "bin");
                push_line(&mut out, cat2("missing from PATH: ", names.as_str()));
                push_line(&mut out, owned("this will:"));
                push_line(
                    &mut out,
                    cat4("  1. symlink ", bin.as_str(), " -> ", bundle.as_str()),
                );
                push_line(
                    &mut out,
                    cat3(
                        "  2. append to ",
                        profile,
                        ": export PATH=\"$PATH:$HOME/.nebula/bin\"",
                    ),
                );
                push_line(
                    &mut out,
                    owned("     (appended LAST — your own installs always take precedence)"),
                );
                assert(crate::text::views(out@) =~= seq![
                    "missing from PATH: "@ + names@,
                    "this will:"@,
                    "  1. symlink "@ + bin@ + " -> "@ + bundle@,
                    "  2. append to "@ + profile@ + ": export PATH=\"$PATH:$HOME/.nebula/bin\""@,
                    "     (appended LAST — your own installs always take precedence)"@,
                ]);
                Setup::Announce(out)
            }
        },
    }
}

/// The text that is put at the end of the profile.
pub open spec fn profile_lines() -> Seq<char> {
    "\n"@ + PROFILE_MARKER@ + "\nexport PATH=\"$PATH:$HOME/.nebula/bin\"\n"@
}

/// What is put at the end of the profile; nothing where it is there already.
pub fn profile_addition(profile: &Option<String>) -> (r: Option<String>)
    ensures
        crate::text::opt_view(r) == (match *profile {
            Some(text) => if crate::text::has_part(text@, PROFILE_MARKER@) {
                None
            } else {
                Some(profile_lines())
            },
            None => Some(profile_lines()),
        }),
{
    if profile_has_marker(profile) {
        None
    } else {
        Some(cat3("\n", PROFILE_MARKER, "\nexport PATH=\"$PATH:$HOME/.nebula/bin\"\n"))
    }
}

/// A profile that was added to is not added to again, whatever it held before.
pub proof fn the_profile_grows_once(before: Seq<char>)
    ensures
        crate::text::has_part(before + profile_lines(), PROFILE_MARKER@),
{
    let whole = before + profile_lines();
    let at: int = before.len() + "\n"@.len() as int;
    let m = PROFILE_MARKER@;
    let rest = "\nexport PATH=\"$PATH:$HOME/.nebula/bin\"\n"@;
    assert(whole =~= before + "\n"@ + m + rest);
    assert(whole.subrange(at, at + m.len()) =~= m);
    assert(crate::text::occurs_at(whole, m, at));
}

} // verus!
