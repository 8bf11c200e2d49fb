//! Filesystem layout: path arithmetic, and where Nebula keeps what.
//!
//! Paths are strings with `/` between their components, as Unix hosts write them.

use crate::text::{cat2, cat3, ends_with, owned, same, split_char, starts_with};
use vstd::prelude::*;
use vstd::string::StrSliceExecFns;

verus! {

/// `b` below `a`: an absolute `b` stands alone.
pub open spec fn joined_path(a: Seq<char>, b: Seq<char>) -> Seq<char> {
    if crate::text::has_prefix(b, "/"@) {
        b
    } else if a.len() == 0 || crate::text::has_suffix(a, "/"@) {
        a + b
    } else {
        a + "/"@ + b
    }
}

/// `Path::join`.
pub fn join(a: &str, b: &str) -> (r: String)
    ensures
        r@ == joined_path(a@, b@),
{
    if starts_with(b, "/") {
        owned(b)
    } else if a.unicode_len() == 0 || ends_with(a, "/") {
        cat2(a, b)
    } else {
        cat3(a, "/", b)
    }
}

/// The last component that is neither empty nor a dot, searched from the end.
pub open spec fn last_component(parts: Seq<Seq<char>>) -> Option<Seq<char>>
    decreases parts.len(),
{
    if parts.len() == 0 {
        None
    } else if parts.last().len() == 0 || parts.last() == "."@ {
        last_component(parts.drop_last())
    } else {
        Some(parts.last())
    }
}

/// The final component of a path, unless that is the parent directory.
pub open spec fn file_name_of(path: Seq<char>) -> Option<Seq<char>> {
    match last_component(crate::text::split_on(path, '/')) {
        Some(name) => if name == ".."@ {
            None
        } else {
            Some(name)
        },
        None => None,
    }
}

/// `Path::file_name`.
pub fn file_name(path: &str) -> (r: Option<String>)
    ensures
        crate::text::opt_view(r) == file_name_of(path@),
{
    let parts: Vec<String> = split_char(path, '/');
    let ghost pv = crate::text::views(parts@);
    let mut n: usize = parts.len();
    assert(pv.take(n as int) =~= pv);
    while n > 0
        invariant
            n <= parts@.len(),
            pv == crate::text::views(parts@),
            pv == crate::text::split_on(path@, '/'),
            last_component(pv.take(n as int)) == last_component(pv),
        decreases n,
    {
        let ghost cur = pv.take(n as int);
        assert(cur.last() == parts@[n - 1]@);
        assert(cur.drop_last() =~= pv.take(n - 1));
        let part: &str = parts[n - 1].as_str();
        if part.unicode_len() > 0 && !same(part, ".") {
            if same(part, "..") {
                return None;
            }
            return Some(owned(part));
        }
        n = n - 1;
    }
    None
}

/// The components of a path, from its parts: empty parts do not count, nor
/// does a dot but for one at the beginning.
pub open spec fn components_of(parts: Seq<Seq<char>>) -> Seq<Seq<char>>
    decreases parts.len(),
{
    if parts.len() == 0 {
        Seq::empty()
    } else {
        let before = components_of(parts.drop_last());
        let part = parts.last();
        if part.len() == 0 || (part == "."@ && parts.len() > 1) {
            before
        } else {
            before.push(part)
        }
    }
}

/// Whether two texts are the same path: both absolute or both relative, with
/// the same components.
pub open spec fn is_same_path(a: Seq<char>, b: Seq<char>) -> bool {
    &&& crate::text::has_prefix(a, "/"@) == crate::text::has_prefix(b, "/"@)
    &&& components_of(crate::text::split_on(a, '/')) == components_of(
        crate::text::split_on(b, '/'),
    )
}

fn components(path: &str) -> (r: Vec<String>)
    ensures
        crate::text::views(r@) == components_of(crate::text::split_on(path@, '/')),
{
    let parts: Vec<String> = split_char(path, '/');
    let ghost pv = crate::text::views(parts@);
    let mut r: Vec<String> = Vec::new();
    let mut i: usize = 0;
    assert(pv.take(0) =~= Seq::empty());
    assert(crate::text::views(r@) =~= Seq::empty());
    while i < parts.len()
        invariant
            i <= parts@.len(),
            pv == crate::text::views(parts@),
            crate::text::views(r@) == components_of(pv.take(i as int)),
        decreases parts@.len() - i,
    {
        let ghost now = crate::text::views(r@);
        proof {
            let longer = pv.take(i as int + 1);
            assert(longer.drop_last() =~= pv.take(i as int));
            assert(longer.last() == parts@[i as int]@);
        }
        let part: &str = parts[i].as_str();
        if part.unicode_len() > 0 && !(i > 0 && same(part, ".")) {
            r.push(owned(part));
            assert(crate::text::views(r@) =~= now.push(pv[i as int]));
        }
        i = i + 1;
    }
    assert(pv.take(parts@.len() as int) =~= pv);
    r
}

/// Compare two paths.
pub fn same_path(a: &str, b: &str) -> (r: bool)
    ensures
        r == is_same_path(a@, b@),
{
    if starts_with(a, "/") != starts_with(b, "/") {
        return false;
    }
    let x: Vec<String> = components(a);
    let y: Vec<String> = components(b);
    let ghost xv = crate::text::views(x@);
    let ghost yv = crate::text::views(y@);
    if x.len() != y.len() {
        assert(xv.len() != yv.len());
        return false;
    }
    let mut i: usize = 0;
    while i < x.len()
        invariant
            i <= x@.len(),
            x@.len() == y@.len(),
            xv == crate::text::views(x@),
            yv == crate::text::views(y@),
            xv == components_of(crate::text::split_on(a@, '/')),
            yv == components_of(crate::text::split_on(b@, '/')),
            forall|j: int| 0 <= j < i ==> xv[j] == yv[j],
        decreases x@.len() - i,
    {
        if !same(x[i].as_str(), y[i].as_str()) {
            assert(xv[i as int] != yv[i as int]);
            return false;
        }
        i = i + 1;
    }
    assert(xv =~= yv);
    true
}

/// Whether a path is in a list.
pub open spec fn lists_path(paths: Seq<Seq<char>>, p: Seq<char>) -> bool {
    exists|i: int| 0 <= i < paths.len() && is_same_path(#[trigger] paths[i], p)
}

/// Look for a path in a list.
pub fn has_path(paths: &Vec<String>, p: &str) -> (r: bool)
    ensures
        r == lists_path(crate::text::views(paths@), p@),
{
    let ghost pv = crate::text::views(paths@);
    let mut i: usize = 0;
    while i < paths.len()
        invariant
            i <= paths@.len(),
            pv == crate::text::views(paths@),
            forall|j: int| 0 <= j < i ==> !is_same_path(#[trigger] pv[j], p@),
        decreases paths@.len() - i,
    {
        assert(pv[i as int] == paths@[i as int]@);
        if same_path(paths[i].as_str(), p) {
            return true;
        }
        i = i + 1;
    }
    false
}

/// The environment variables that decide where Nebula's home is.
#[derive(Debug)]
pub struct Env {
    /// `NEBULA_HOME`: an isolated instance.
    pub nebula_home: Option<String>,
    pub home: Option<String>,
    /// The Windows spelling of `HOME`.
    pub userprofile: Option<String>,
}

impl Env {
    /// The custom home, or `.nebula` below the user's home; `None` where the
    /// environment names neither.
    pub open spec fn root(self) -> Option<Seq<char>> {
        if self.nebula_home is Some {
            Some(self.nebula_home->0@)
        } else if self.home is Some {
            Some(joined_path(self.home->0@, ".nebula"@))
        } else if self.userprofile is Some {
            Some(joined_path(self.userprofile->0@, ".nebula"@))
        } else {
            None
        }
    }
}

/// Neither `HOME` nor `USERPROFILE` is set.
#[derive(Debug, Clone, Copy, PartialEq, Eq, Structural)]
pub struct NoHome;

impl NoHome {
    pub fn message(&self) -> (s: &'static str)
        ensures
            s@ == "HOME/USERPROFILE not set"@,
    {
        "HOME/USERPROFILE not set"
    }
}

/// The directory that every component anchors to.
pub fn nebula_home(env: &Env) -> (r: Result<String, NoHome>)
    ensures
        match r {
            Ok(p) => env.root() == Some(p@),
            Err(_) => env.root() is None,
        },
{
    match &env.nebula_home {
        Some(custom) => {
            return Ok(owned(custom.as_str()));
        },
        None => {},
    }
    match &env.home {
        Some(h) => Ok(join(h.as_str(), ".nebula")),
        None => match &env.userprofile {
            Some(h) => Ok(join(h.as_str(), ".nebula")),
            None => Err(NoHome),
        },
    }
}

/// The daemon's control socket below Nebula's home.
pub fn control_sock(home: &str) -> (p: String)
    ensures
        p@ == joined_path(home@, "run/nebulad.sock"@),
{
    join(home, "run/nebulad.sock")
}

/// The layout below Nebula's home: the single source of truth.
#[derive(Debug)]
pub struct Paths {
    pub root: String,
}

impl Paths {
    /// The layout for the given environment.
    pub fn new(env: &Env) -> (r: Result<Paths, NoHome>)
        ensures
            match r {
                Ok(p) => env.root() == Some(p.root@),
                Err(_) => env.root() is None,
            },
    {
        match nebula_home(env) {
            Ok(root) => Ok(Paths { root }),
            Err(e) => Err(e),
        }
    }

    /// The user's configuration.
    pub fn config_toml(&self) -> (p: String)
        ensures
            p@ == joined_path(self.root@, "config.toml"@),
    {
        join(self.root.as_str(), "config.toml")
    }

    /// Sockets and process files.
    pub fn run_dir(&self) -> (p: String)
        ensures
            p@ == joined_path(self.root@, "run"@),
    {
        join(self.root.as_str(), "run")
    }

    /// Logs.
    pub fn logs_dir(&self) -> (p: String)
        ensures
            p@ == joined_path(self.root@, "logs"@),
    {
        join(self.root.as_str(), "logs")
    }

    /// The engine's disks.
    pub fn disks_dir(&self) -> (p: String)
        ensures
            p@ == joined_path(self.root@, "disks"@),
    {
        join(self.root.as_str(), "disks")
    }

    /// The guest kernel.
    pub fn kernel_dir(&self) -> (p: String)
        ensures
            p@ == joined_path(self.root@, "kernel"@),
    {
        join(self.root.as_str(), "kernel")
    }

    /// The engine's persistent MAC address.
    pub fn engine_mac_file(&self) -> (p: String)
        ensures
            p@ == joined_path(self.root@, "engine.mac"@),
    {
        join(self.root.as_str(), "engine.mac")
    }

    /// The daemon's control socket.
    pub fn control_sock(&self) -> (p: String)
        ensures
            p@ == joined_path(joined_path(self.root@, "run"@), "nebulad.sock"@),
    {
        join(self.run_dir().as_str(), "nebulad.sock")
    }

    /// The daemon's process id.
    pub fn pid_file(&self) -> (p: String)
        ensures
            p@ == joined_path(joined_path(self.root@, "run"@), "nebulad.pid"@),
    {
        join(self.run_dir().as_str(), "nebulad.pid")
    }

    /// Why the last start failed, in plain text.
    pub fn startup_error(&self) -> (p: String)
        ensures
            p@ == joined_path(joined_path(self.root@, "run"@), "startup-error.txt"@),
    {
        join(self.run_dir().as_str(), "startup-error.txt")
    }

    /// The container engine's socket.
    pub fn docker_sock(&self) -> (p: String)
        ensures
            p@ == joined_path(joined_path(self.root@, "run"@), "docker.sock"@),
    {
        join(self.run_dir().as_str(), "docker.sock")
    }

    /// The containerd socket.
    pub fn containerd_sock(&self) -> (p: String)
        ensures
            p@ == joined_path(joined_path(self.root@, "run"@), "containerd.sock"@),
    {
        join(self.run_dir().as_str(), "containerd.sock")
    }

    /// The engine's console output.
    pub fn console_log(&self) -> (p: String)
        ensures
            p@ == joined_path(joined_path(self.root@, "logs"@), "vessel-console.log"@),
    {
        join(self.logs_dir().as_str(), "vessel-console.log")
    }

    /// The daemon's log.
    pub fn daemon_log(&self) -> (p: String)
        ensures
            p@ == joined_path(joined_path(self.root@, "logs"@), "nebulad.log"@),
    {
        join(self.logs_dir().as_str(), "nebulad.log")
    }

    /// The engine's root disk.
    pub fn rootfs_img(&self) -> (p: String)
        ensures
            p@ == joined_path(joined_path(self.root@, "disks"@), "rootfs.img"@),
    {
        join(self.disks_dir().as_str(), "rootfs.img")
    }

    /// The engine's data disk.
    pub fn data_img(&self) -> (p: String)
        ensures
            p@ == joined_path(joined_path(self.root@, "disks"@), "data.img"@),
    {
        join(self.disks_dir().as_str(), "data.img")
    }

    /// The kernel image.
    pub fn kernel_image(&self) -> (p: String)
        ensures
            p@ == joined_path(joined_path(self.root@, "kernel"@), "Image"@),
    {
        join(self.kernel_dir().as_str(), "Image")
    }

    /// The directories that must exist before the daemon starts.
    pub fn ensure_dirs(&self) -> (dirs: Vec<String>)
        ensures
            crate::text::views(dirs@) == seq![
                joined_path(self.root@, "run"@),
                joined_path(self.root@, "logs"@),
                joined_path(self.root@, "disks"@),
                joined_path(self.root@, "kernel"@),
            ],
    {
        let dirs: Vec<String> = vec![
            self.run_dir(),
            self.logs_dir(),
            self.disks_dir(),
            self.kernel_dir(),
        ];
        assert(crate::text::views(dirs@) =~= seq![
            joined_path(self.root@, "run"@),
            joined_path(self.root@, "logs"@),
            joined_path(self.root@, "disks"@),
            joined_path(self.root@, "kernel"@),
        ]);
        dirs
    }
}

/// A name that one file in a directory can have.
pub open spec fn plain_file(f: Seq<char>) -> bool {
    f.len() > 0 && !f.contains('/') && f != "."@ && f != ".."@
}

proof fn lemma_split_tail(a: Seq<char>, f: Seq<char>)
    requires
        !f.contains('/'),
    ensures
        ({
            let parts = crate::text::split_on(a, '/');
            crate::text::split_on(a + f, '/') == parts.drop_last().push(parts.last() + f)
        }),
        crate::text::split_on(a, '/').len() > 0,
    decreases f.len(),
{
    let parts = crate::text::split_on(a, '/');
    crate::text::split_then_join(a, '/');
    if f.len() == 0 {
        assert(a + f =~= a);
        assert(parts.last() + f =~= parts.last());
        assert(parts =~= parts.drop_last().push(parts.last()));
    } else {
        let g = f.drop_last();
        assert(!g.contains('/')) by {
            assert forall|i: int| 0 <= i < g.len() implies g[i] != '/' by {
                assert(f[i] == g[i]);
                assert(f.contains(f[i]));
            }
        }
        assert(f.contains(f.last()));
        lemma_split_tail(a, g);
        assert((a + f).drop_last() =~= a + g);
        assert(parts.drop_last().push(parts.last() + g).drop_last() =~= parts.drop_last());
        assert((parts.last() + g).push(f.last()) =~= parts.last() + f);
    }
}

/// What is below a directory begins with the directory and ends with its own
/// name, which is the last component; an absolute path stands alone; and two
/// names below one directory are two paths.
pub proof fn joined_paths_take_apart(dir: Seq<char>, f: Seq<char>, g: Seq<char>)
    ensures
        plain_file(f) ==> ({
            let p = joined_path(dir, f);
            &&& p.take(dir.len() as int) == dir
            &&& p.skip(p.len() - f.len()) == f
            &&& file_name_of(p) == Some(f)
        }),
        f.len() > 0 && f[0] == '/' ==> joined_path(dir, f) == f,
        plain_file(f) && plain_file(g) && f != g ==> joined_path(dir, f) != joined_path(dir, g),
{
    reveal_strlit("/");
    if f.len() > 0 && f[0] == '/' {
        assert(crate::text::has_prefix(f, "/"@)) by {
            assert(f.subrange(0, 1) =~= "/"@);
        }
    }
    if plain_file(f) {
        lemma_file_below(dir, f);
    }
    if plain_file(f) && plain_file(g) && f != g {
        lemma_file_below(dir, f);
        lemma_file_below(dir, g);
    }
}

proof fn lemma_file_below(dir: Seq<char>, f: Seq<char>)
    requires
        plain_file(f),
    ensures
        ({
            let p = joined_path(dir, f);
            &&& p.take(dir.len() as int) == dir
            &&& p.skip(p.len() - f.len()) == f
            &&& file_name_of(p) == Some(f)
        }),
{
    reveal_strlit("/");
    reveal_strlit(".");
    reveal_strlit("..");
    let p = joined_path(dir, f);
    assert(f.contains(f[0]));
    if crate::text::has_prefix(f, "/"@) {
        assert(f.subrange(0, 1)[0] == f[0]);
        assert(f[0] == '/');
    }
    let base = if dir.len() == 0 || crate::text::has_suffix(dir, "/"@) {
        dir
    } else {
        dir + "/"@
    };
    assert(p == base + f);
    assert(p.take(dir.len() as int) =~= dir);
    assert(p.skip(p.len() - f.len()) =~= f);
    lemma_split_tail(base, f);
    let parts = crate::text::split_on(base, '/');
    assert(parts.last() =~= Seq::empty()) by {
        if base.len() > 0 {
            assert(base.last() == '/') by {
                if crate::text::has_suffix(dir, "/"@) && base == dir {
                    assert(dir.subrange(dir.len() - 1, dir.len() as int)[0] == dir.last());
                }
            }
        }
    }
    assert(parts.last() + f =~= f);
    assert(crate::text::split_on(p, '/').last() == f);
}

} // verus!
