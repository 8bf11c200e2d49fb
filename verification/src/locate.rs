//! Where the command line looks for what it needs around its own binary: the
//! directories above it, and what a checkout or a build tree keeps there.

use crate::paths::{file_name, file_name_of, join, joined_path};
use crate::text::{cat2, cat3, cat5, from_chars, owned, push_line, same, to_chars, trim};
use vstd::prelude::*;
use vstd::string::StrSliceExecFns;

verus! {

/// How many of the first characters are left without the slashes at the end.
pub open spec fn bare_len(s: Seq<char>) -> nat
    decreases s.len(),
{
    if s.len() > 0 && s.last() == '/' {
        bare_len(s.drop_last())
    } else {
        s.len()
    }
}

/// How many of the first characters stand before the last component.
pub open spec fn stem_len(s: Seq<char>) -> nat
    decreases s.len(),
{
    if s.len() > 0 && s.last() != '/' {
        stem_len(s.drop_last())
    } else {
        s.len()
    }
}

/// The directory that holds a path; none above the root.
pub open spec fn parent_of(path: Seq<char>) -> Option<Seq<char>> {
    let own = path.take(bare_len(path) as int);
    let stem = own.take(stem_len(own) as int);
    if own.len() == 0 {
        None
    } else if stem.len() == 0 {
        Some(Seq::empty())
    } else if bare_len(stem) == 0 {
        Some(seq!['/'])
    } else {
        Some(stem.take(bare_len(stem) as int))
    }
}

proof fn lemma_bare_len(s: Seq<char>)
    ensures
        bare_len(s) <= s.len(),
    decreases s.len(),
{
    if s.len() > 0 && s.last() == '/' {
        lemma_bare_len(s.drop_last());
    }
}

proof fn lemma_stem_len(s: Seq<char>)
    ensures
        stem_len(s) <= s.len(),
        s.len() > 0 && s.last() != '/' ==> stem_len(s) < s.len(),
    decreases s.len(),
{
    if s.len() > 0 && s.last() != '/' {
        lemma_stem_len(s.drop_last());
    }
}

proof fn lemma_bare_end(s: Seq<char>)
    ensures
        bare_len(s) <= s.len(),
        bare_len(s) > 0 ==> s[bare_len(s) - 1] != '/',
    decreases s.len(),
{
    if s.len() > 0 && s.last() == '/' {
        lemma_bare_end(s.drop_last());
    }
}

proof fn lemma_parent_is_shorter(path: Seq<char>)
    ensures
        parent_of(path) is Some ==> parent_of(path)->0.len() < path.len() || (path.len() == 1
            && parent_of(path)->0.len() == 0),
{
    let own = path.take(bare_len(path) as int);
    lemma_bare_end(path);
    if own.len() > 0 {
        assert(own.last() == path[bare_len(path) - 1]);
        lemma_stem_len(own);
        let stem = own.take(stem_len(own) as int);
        lemma_bare_len(stem);
    }
}

/// A path and the directories above it, from the inside out.
pub open spec fn ancestors_of(path: Seq<char>) -> Seq<Seq<char>>
    decreases path.len(),
{
    match parent_of(path) {
        Some(p) => if p.len() < path.len() {
            seq![path] + ancestors_of(p)
        } else {
            seq![path, p]
        },
        None => seq![path],
    }
}

fn bare_end(v: &Vec<char>, n: usize) -> (r: usize)
    requires
        n <= v@.len(),
    ensures
        r == bare_len(v@.take(n as int)),
        r <= n,
{
    let ghost all = v@.take(n as int);
    let mut i: usize = n;
    while i > 0 && v[i - 1] == '/'
        invariant
            i <= n <= v@.len(),
            all == v@.take(n as int),
            bare_len(v@.take(i as int)) == bare_len(all),
        decreases i,
    {
        assert(v@.take(i as int).last() == v@[i - 1]);
        assert(v@.take(i as int).drop_last() =~= v@.take(i - 1));
        i = i - 1;
    }
    proof {
        if i > 0 {
            assert(v@.take(i as int).last() == v@[i - 1]);
        }
    }
    i
}

fn stem_end(v: &Vec<char>, n: usize) -> (r: usize)
    requires
        n <= v@.len(),
    ensures
        r == stem_len(v@.take(n as int)),
        r <= n,
{
    let ghost all = v@.take(n as int);
    let mut i: usize = n;
    while i > 0 && v[i - 1] != '/'
        invariant
            i <= n <= v@.len(),
            all == v@.take(n as int),
            stem_len(v@.take(i as int)) == stem_len(all),
        decreases i,
    {
        assert(v@.take(i as int).last() == v@[i - 1]);
        assert(v@.take(i as int).drop_last() =~= v@.take(i - 1));
        i = i - 1;
    }
    proof {
        if i > 0 {
            assert(v@.take(i as int).last() == v@[i - 1]);
        }
    }
    i
}

/// The directory that holds a path.
pub fn parent(path: &str) -> (r: Option<String>)
    ensures
        crate::text::opt_view(r) == parent_of(path@),
{
    let v: Vec<char> = to_chars(path);
    let n: usize = v.len();
    assert(v@.take(n as int) =~= path@);
    let own: usize = bare_end(&v, n);
    if own == 0 {
        return None;
    }
    let stem: usize = stem_end(&v, own);
    assert(v@.take(own as int).take(stem as int) =~= v@.take(stem as int));
    if stem == 0 {
        let none: String = owned("");
        proof {
            reveal_strlit("");
            assert(none@ =~= Seq::empty());
        }
        return Some(none);
    }
    let end: usize = bare_end(&v, stem);
    assert(v@.take(stem as int).take(end as int) =~= v@.take(end as int));
    if end == 0 {
        let root: String = owned("/");
        proof {
            reveal_strlit("/");
            assert(root@ =~= seq!['/']);
        }
        return Some(root);
    }
    assert(v@.subrange(0, end as int) =~= v@.take(end as int));
    Some(from_chars(&v, 0, end))
}

/// A path and the directories above it.
pub fn ancestors(path: &str) -> (r: Vec<String>)
    ensures
        crate::text::views(r@) == ancestors_of(path@),
{
    let mut r: Vec<String> = Vec::new();
    let mut cur: String = owned(path);
    assert(crate::text::views(r@) + ancestors_of(cur@) =~= ancestors_of(path@));
    loop
        invariant
            crate::text::views(r@) + ancestors_of(cur@) == ancestors_of(path@),
        decreases cur@.len(),
    {
        let ghost before = crate::text::views(r@);
        let ghost cv = cur@;
        push_line(&mut r, owned(cur.as_str()));
        proof {
            lemma_parent_is_shorter(cv);
        }
        match parent(cur.as_str()) {
            Some(p) => {
                if p.as_str().unicode_len() >= cur.as_str().unicode_len() {
                    push_line(&mut r, p);
                    assert(crate::text::views(r@) =~= before + ancestors_of(cv));
                    return r;
                }
                proof {
                    assert(before + (seq![cv] + ancestors_of(p@)) =~= before.push(cv)
                        + ancestors_of(p@));
                }
                cur = p;
            },
            None => {
                assert(crate::text::views(r@) =~= before + ancestors_of(cv));
                return r;
            },
        }
    }
}

// The build tree

/// The binaries of a build directory for a target: the release build, then the
/// debug build.
pub open spec fn builds_in(dir: Seq<char>, target: Seq<char>, name: Seq<char>) -> Seq<Seq<char>> {
    seq![
        joined_path(joined_path(joined_path(dir, target), "release"@), name),
        joined_path(joined_path(joined_path(dir, target), "debug"@), name),
    ]
}

/// The binaries to try, in order: those of every directory called `target`
/// among some directories.
pub open spec fn builds_among(dirs: Seq<Seq<char>>, target: Seq<char>, name: Seq<char>) -> Seq<
    Seq<char>,
>
    decreases dirs.len(),
{
    if dirs.len() == 0 {
        Seq::empty()
    } else {
        let before = builds_among(dirs.drop_last(), target, name);
        if file_name_of(dirs.last()) == Some("target"@) {
            before + builds_in(dirs.last(), target, name)
        } else {
            before
        }
    }
}

/// Where a guest binary may have been built, seen from the running binary.
pub fn guest_binary(exe: &str, target: &str, name: &str) -> (r: Vec<String>)
    ensures
        crate::text::views(r@) == builds_among(ancestors_of(exe@), target@, name@),
{
    let dirs: Vec<String> = ancestors(exe);
    let ghost dv = crate::text::views(dirs@);
    let mut r: Vec<String> = Vec::new();
    let mut i: usize = 0;
    assert(dv.take(0) =~= Seq::empty());
    assert(crate::text::views(r@) =~= Seq::empty());
    while i < dirs.len()
        invariant
            i <= dirs@.len(),
            dv == crate::text::views(dirs@),
            crate::text::views(r@) == builds_among(dv.take(i as int), target@, name@),
        decreases dirs@.len() - i,
    {
        let ghost before = crate::text::views(r@);
        proof {
            let longer = dv.take(i as int + 1);
            assert(longer.drop_last() =~= dv.take(i as int));
            assert(longer.last() == dirs@[i as int]@);
        }
        let is_target: bool = match file_name(dirs[i].as_str()) {
            Some(n) => same(n.as_str(), "target"),
            None => false,
        };
        if is_target {
            let built: String = join(dirs[i].as_str(), target);
            push_line(&mut r, join(join(built.as_str(), "release").as_str(), name));
            push_line(&mut r, join(join(built.as_str(), "debug").as_str(), name));
            assert(crate::text::views(r@) =~= before + builds_in(dv[i as int], target@, name@));
        }
        i = i + 1;
    }
    assert(dv.take(dirs@.len() as int) =~= dv);
    r
}

/// What is said where a guest binary is not built.
pub fn not_built(target: &str, name: &str) -> (s: String)
    ensures
        s@ == name@ + " (musl) not built — cargo build -p "@ + name@ + " --release --target "@
            + target@,
{
    cat5(name, " (musl) not built — cargo build -p ", name, " --release --target ", target)
}

/// The target of guest binaries: the guest runs what the host runs.
pub fn musl_target(arm64: bool) -> (s: &'static str)
    ensures
        s@ == (if arm64 {
            "aarch64-unknown-linux-musl"@
        } else {
            "x86_64-unknown-linux-musl"@
        }),
{
    if arm64 {
        "aarch64-unknown-linux-musl"
    } else {
        "x86_64-unknown-linux-musl"
    }
}

/// Where the guest's init comes from.
#[derive(Debug)]
pub enum InitFrom {
    Found(String),
    Failed(String),
}

/// Find the guest's init: the file that the environment names, or else the
/// first of the builds that is there. `there` says which of them are.
pub fn find_vessel_init(
    named: &Option<String>,
    named_there: bool,
    builds: &Vec<String>,
    there: &Vec<bool>,
    target: &str,
) -> (r: InitFrom)
    requires
        builds@.len() == there@.len(),
    ensures
        match (*named, r) {
            (Some(p), InitFrom::Found(q)) => named_there && q@ == p@,
            (Some(p), InitFrom::Failed(e)) => !named_there && e@ == "NEBULA_VESSEL_INIT="@ + p@
                + " does not exist"@,
            (None, InitFrom::Found(q)) => exists|i: int|
                0 <= i < builds@.len() && #[trigger] there@[i] && q@ == builds@[i]@ && forall|j: int|
                    0 <= j < i ==> !#[trigger] there@[j],
            (None, InitFrom::Failed(e)) => (forall|j: int|
                0 <= j < there@.len() ==> !#[trigger] there@[j]) && e@
                == "vessel-init (linux musl build) not found — run:\n  cargo build -p vessel-init --release --target "@
                + target@,
        },
{
    match named {
        Some(p) => if named_there {
            InitFrom::Found(owned(p.as_str()))
        } else {
            InitFrom::Failed(cat3("NEBULA_VESSEL_INIT=", p.as_str(), " does not exist"))
        },
        None => {
            let mut i: usize = 0;
            while i < there.len()
                invariant
                    i <= there@.len(),
                    builds@.len() == there@.len(),
                    *named is None,
                    forall|j: int| 0 <= j < i ==> !#[trigger] there@[j],
                decreases there@.len() - i,
            {
                if there[i] {
                    return InitFrom::Found(owned(builds[i].as_str()));
                }
                i = i + 1;
            }
            InitFrom::Failed(
                cat2(
                    "vessel-init (linux musl build) not found — run:\n  cargo build -p vessel-init --release --target ",
                    target,
                ),
            )
        },
    }
}

// The checkout

/// What may stand below each of some directories.
pub open spec fn below(dirs: Seq<Seq<char>>, what: Seq<char>) -> Seq<Seq<char>> {
    dirs.map_values(|d: Seq<char>| joined_path(d, what))
}

fn all_below(dirs: &Vec<String>, what: &str) -> (r: Vec<String>)
    ensures
        crate::text::views(r@) == below(crate::text::views(dirs@), what@),
{
    let ghost dv = crate::text::views(dirs@);
    let ghost want = below(dv, what@);
    let mut r: Vec<String> = Vec::new();
    let mut i: usize = 0;
    assert(crate::text::views(r@) =~= want.take(0));
    while i < dirs.len()
        invariant
            i <= dirs@.len(),
            dv == crate::text::views(dirs@),
            want == below(dv, what@),
            crate::text::views(r@) == want.take(i as int),
        decreases dirs@.len() - i,
    {
        push_line(&mut r, join(dirs[i].as_str(), what));
        proof {
            assert(want[i as int] == joined_path(dirs@[i as int]@, what@));
            assert(want.take(i as int).push(want[i as int]) =~= want.take(i as int + 1));
        }
        i = i + 1;
    }
    assert(want.take(dirs@.len() as int) =~= want);
    r
}

/// Where a checkout keeps the guest images it builds, seen from the running
/// binary, the nearest first.
pub fn find_repo_vessel_out(exe: &str) -> (r: Vec<String>)
    ensures
        crate::text::views(r@) == below(ancestors_of(exe@), "vessel/out"@),
{
    all_below(&ancestors(exe), "vessel/out")
}

/// Where the daemon stands: beside the command line. None where the running
/// binary stands nowhere.
pub fn nebulad_path(exe: &str) -> (r: Option<String>)
    ensures
        crate::text::opt_view(r) == (match parent_of(exe@) {
            Some(d) => Some(joined_path(d, "nebulad"@)),
            None => None,
        }),
{
    match parent(exe) {
        Some(d) => Some(join(d.as_str(), "nebulad")),
        None => None,
    }
}

/// What is said where the daemon is not there.
pub fn nebulad_missing(path: &str) -> (s: String)
    ensures
        s@ == "nebulad not found next to nebula ("@ + path@ + ")"@,
{
    cat3("nebulad not found next to nebula (", path, ")")
}

// The desktop app

/// What a directory above the running binary holds of the desktop app.
#[derive(Debug, Clone, Copy, PartialEq, Eq, Structural)]
pub struct UiFound {
    /// It is a checkout with the app's sources.
    pub checkout: bool,
    pub bundle: bool,
    pub release: bool,
    pub debug: bool,
}

/// How the desktop app is opened.
#[derive(Debug)]
pub enum OpenUi {
    /// The installed one did open.
    Installed(String),
    /// Open this bundle, and say this where it opens.
    Bundle { path: String, line: String },
    /// Run this binary, and say this.
    Run { path: String, line: String },
    Failed(String),
}

#[verifier::ext_equal]
pub enum OpenView {
    Installed(Seq<char>),
    Bundle { path: Seq<char>, line: Seq<char> },
    Run { path: Seq<char>, line: Seq<char> },
    Failed(Seq<char>),
}

impl View for OpenUi {
    type V = OpenView;

    open spec fn view(&self) -> OpenView {
        match self {
            OpenUi::Installed(line) => OpenView::Installed(line@),
            OpenUi::Bundle { path, line } => OpenView::Bundle { path: path@, line: line@ },
            OpenUi::Run { path, line } => OpenView::Run { path: path@, line: line@ },
            OpenUi::Failed(e) => OpenView::Failed(e@),
        }
    }
}

pub open spec fn bundle_path(dir: Seq<char>) -> Seq<char> {
    joined_path(dir, "ui/src-tauri/target/release/bundle/macos/nebula-ui.app"@)
}

pub open spec fn ui_binary(dir: Seq<char>, profile: Seq<char>) -> Seq<char> {
    joined_path(dir, "ui/src-tauri/target/"@ + profile + "/nebula-ui"@)
}

pub open spec fn run_ui(dir: Seq<char>, profile: Seq<char>) -> OpenView {
    OpenView::Run {
        path: ui_binary(dir, profile),
        line: "opened Nebula app (dev build: "@ + ui_binary(dir, profile) + ")"@,
    }
}

/// What to open, from a directory on: of the checkouts in order the bundle, the
/// release build, the debug build. The first `refused` bundles did not open.
pub open spec fn ui_from(dirs: Seq<Seq<char>>, found: Seq<UiFound>, refused: int) -> OpenView
    decreases dirs.len(),
{
    if dirs.len() == 0 {
        OpenView::Failed(
            "Nebula app not found — install the .app, or build it: cd ui/src-tauri && cargo build"@,
        )
    } else {
        let f = found[0];
        let offered = f.checkout && f.bundle;
        let left = if offered {
            refused - 1
        } else {
            refused
        };
        if offered && refused <= 0 {
            OpenView::Bundle {
                path: bundle_path(dirs[0]),
                line: "opened Nebula app ("@ + bundle_path(dirs[0]) + ")"@,
            }
        } else if f.checkout && f.release {
            run_ui(dirs[0], "release"@)
        } else if f.checkout && f.debug {
            run_ui(dirs[0], "debug"@)
        } else {
            ui_from(dirs.skip(1), found.skip(1), left)
        }
    }
}

fn make_run(dir: &str, profile: &str) -> (o: OpenUi)
    ensures
        o@ == run_ui(dir@, profile@),
{
    let path: String = join(dir, cat3("ui/src-tauri/target/", profile, "/nebula-ui").as_str());
    let line: String = cat3("opened Nebula app (dev build: ", path.as_str(), ")");
    OpenUi::Run { path, line }
}

/// Decide how the desktop app is opened: the installed one where it opened,
/// otherwise what the directories above the running binary hold.
pub fn open_ui(installed: bool, dirs: &Vec<String>, found: &Vec<UiFound>, refused: usize) -> (o:
    OpenUi)
    requires
        dirs@.len() == found@.len(),
    ensures
        o@ == (if installed {
            OpenView::Installed("opened Nebula app"@)
        } else {
            ui_from(crate::text::views(dirs@), found@, refused as int)
        }),
{
    if installed {
        return OpenUi::Installed(owned("opened Nebula app"));
    }
    let ghost dv = crate::text::views(dirs@);
    let mut left: usize = refused;
    let mut i: usize = 0;
    assert(dv.skip(0) =~= dv);
    assert(found@.skip(0) =~= found@);
    while i < dirs.len()
        invariant
            i <= dirs@.len(),
            dirs@.len() == found@.len(),
            !installed,
            dv == crate::text::views(dirs@),
            ui_from(dv.skip(i as int), found@.skip(i as int), left as int) == ui_from(
                dv,
                found@,
                refused as int,
            ),
        decreases dirs@.len() - i,
    {
        proof {
            assert(dv.skip(i as int)[0] == dirs@[i as int]@);
            assert(found@.skip(i as int)[0] == found@[i as int]);
            assert(dv.skip(i as int).skip(1) =~= dv.skip(i as int + 1));
            assert(found@.skip(i as int).skip(1) =~= found@.skip(i as int + 1));
        }
        let f: UiFound = found[i];
        let dir: &str = dirs[i].as_str();
        let offered: bool = f.checkout && f.bundle;
        if offered && left == 0 {
            let path: String = join(
                dir,
                "ui/src-tauri/target/release/bundle/macos/nebula-ui.app",
            );
            let line: String = cat3("opened Nebula app (", path.as_str(), ")");
            return OpenUi::Bundle { path, line };
        }
        if f.checkout && f.release {
            return make_run(dir, "release");
        }
        if f.checkout && f.debug {
            return make_run(dir, "debug");
        }
        if offered {
            left = left - 1;
        }
        i = i + 1;
    }
    assert(dv.skip(dirs@.len() as int) =~= Seq::empty());
    OpenUi::Failed(
        owned("Nebula app not found — install the .app, or build it: cd ui/src-tauri && cargo build"),
    )
}

// Downloads

/// The package that holds busybox, as the mirror's list names it; the error's
/// text where it names none.
pub fn busybox_url(listed: &str) -> (r: Result<String, String>)
    ensures
        ({
            let apk = crate::text::trimmed(listed@);
            match r {
                Ok(url) => apk.len() > 0 && url@
                    == "https://dl-cdn.alpinelinux.org/alpine/v3.22/main/aarch64/"@ + apk,
                Err(e) => apk.len() == 0 && e@ == "could not resolve busybox-static apk name"@,
            }
        }),
{
    let apk: String = trim(listed);
    if apk.as_str().unicode_len() == 0 {
        return Err(owned("could not resolve busybox-static apk name"));
    }
    Ok(
        cat2(
            "https://dl-cdn.alpinelinux.org/alpine/v3.22/main/aarch64/",
            apk.as_str(),
        ),
    )
}

/// What a download of busybox came to: its bytes, or the error's text.
pub fn fetch_busybox(ok: bool, out: Vec<u8>) -> (r: Result<Vec<u8>, String>)
    ensures
        match r {
            Ok(b) => ok && out@.len() > 0 && b == out,
            Err(e) => !(ok && out@.len() > 0) && e@
                == "busybox download failed (offline?) — sandbox needs ~/.nebula/cache/busybox-arm64"@,
        },
{
    if ok && out.len() > 0 {
        Ok(out)
    } else {
        Err(
            owned(
                "busybox download failed (offline?) — sandbox needs ~/.nebula/cache/busybox-arm64",
            ),
        )
    }
}

/// What a look for the module in the mirror's archive came to: its bytes, or
/// the warning. The boot goes on without it.
pub fn fetch_virtio_mmio_ko(downloaded: bool, url: &str, unpacked: bool, out: Vec<u8>) -> (r: Result<
    Vec<u8>,
    String,
>)
    ensures
        match r {
            Ok(b) => downloaded && unpacked && out@.len() > 0 && b == out,
            Err(w) => if !downloaded {
                w@ == "[spike] warn: could not download "@ + url@
                    + "; krun console will stay dark"@
            } else {
                !(unpacked && out@.len() > 0) && w@
                    == "[spike] warn: virtio_mmio.ko not found in Alpine initramfs"@
            },
        },
{
    if !downloaded {
        return Err(
            cat3("[spike] warn: could not download ", url, "; krun console will stay dark"),
        );
    }
    if unpacked && out.len() > 0 {
        Ok(out)
    } else {
        Err(owned("[spike] warn: virtio_mmio.ko not found in Alpine initramfs"))
    }
}

proof fn lemma_no_trailing(s: Seq<char>)
    requires
        s.len() > 0,
        s.last() != '/',
    ensures
        bare_len(s) == s.len(),
{
}

proof fn lemma_stem(dir: Seq<char>, f: Seq<char>)
    requires
        !f.contains('/'),
    ensures
        stem_len(dir.push('/') + f) == dir.len() + 1,
    decreases f.len(),
{
    let p = dir.push('/') + f;
    if f.len() == 0 {
        assert(p =~= dir.push('/'));
    } else {
        assert(f.contains(f.last()));
        assert forall|i: int| 0 <= i < f.len() - 1 implies f.drop_last()[i] != '/' by {
            assert(f.contains(f[i]));
        }
        lemma_stem(dir, f.drop_last());
        assert(p.drop_last() =~= dir.push('/') + f.drop_last());
    }
}

/// The directory that holds a file is what stands before its name, and above
/// the file are it and what is above it.
pub proof fn a_file_is_below_its_directory(dir: Seq<char>, f: Seq<char>)
    requires
        f.len() > 0,
        !f.contains('/'),
        dir.len() > 0,
        dir.last() != '/',
    ensures
        parent_of(dir.push('/') + f) == Some(dir),
        ancestors_of(dir.push('/') + f) == seq![dir.push('/') + f] + ancestors_of(dir),
        parent_of(seq!['/'] + f) == Some(seq!['/']),
        parent_of(f) == Some(Seq::<char>::empty()),
        parent_of(seq!['/']) is None,
{
    let p = dir.push('/') + f;
    let q = seq!['/'] + f;
    let none = Seq::<char>::empty();
    assert(f.contains(f.last()));
    assert(p.last() == f.last() && q.last() == f.last());
    lemma_no_trailing(p);
    lemma_no_trailing(q);
    lemma_no_trailing(f);
    lemma_no_trailing(dir);
    assert(p.take(p.len() as int) =~= p);
    assert(q.take(q.len() as int) =~= q);
    assert(f.take(f.len() as int) =~= f);
    lemma_stem(dir, f);
    lemma_stem(none, f);
    assert(none.push('/') + f =~= q);
    assert(p.take(dir.len() as int + 1) =~= dir.push('/'));
    assert(dir.push('/').drop_last() =~= dir);
    assert(dir.push('/').take(dir.len() as int) =~= dir);
    assert(q.take(1) =~= seq!['/']);
    assert(seq!['/'].drop_last() =~= none);
    assert(bare_len(none) == 0);
    assert(bare_len(seq!['/']) == 0);
    assert(seq!['/'].take(0) =~= none);
    lemma_stem_none(f);
    assert(f.take(0) =~= none);
}

proof fn lemma_stem_none(f: Seq<char>)
    requires
        !f.contains('/'),
    ensures
        stem_len(f) == 0,
    decreases f.len(),
{
    if f.len() > 0 {
        assert(f.contains(f.last()));
        assert forall|i: int| 0 <= i < f.len() - 1 implies f.drop_last()[i] != '/' by {
            assert(f.contains(f[i]));
        }
        lemma_stem_none(f.drop_last());
    }
}

/// Of every build directory among some, the release build and then the debug
/// build of a binary are tried, and nothing of the others.
pub proof fn builds_are_tried_in_order(
    dirs: Seq<Seq<char>>,
    dir: Seq<char>,
    target: Seq<char>,
    name: Seq<char>,
)
    ensures
        file_name_of(dir) == Some("target"@) ==> builds_among(dirs.push(dir), target, name)
            == builds_among(dirs, target, name) + seq![
            joined_path(joined_path(joined_path(dir, target), "release"@), name),
            joined_path(joined_path(joined_path(dir, target), "debug"@), name),
        ],
        file_name_of(dir) != Some("target"@) ==> builds_among(dirs.push(dir), target, name)
            == builds_among(dirs, target, name),
        builds_among(Seq::empty(), target, name) == Seq::<Seq<char>>::empty(),
{
    assert(dirs.push(dir).drop_last() =~= dirs);
}

} // verus!
