//! Saving the configuration around a run, and putting it back.
//!
//! The original is copied aside before the first change and restored at the
//! end; a copy that an interrupted run left behind is restored first. That
//! there was no original is remembered by a marker, so that restoring removes
//! rather than creates.

use crate::doc::{assign, find_key, Doc, DocView, Step};
use crate::kube::key;
use crate::paths::{join, joined_path};
use crate::text::{cat2, cat3, decimal_str, owned, same};
use vstd::prelude::*;

verus! {

/// The marker that there was no original.
pub open spec fn marker() -> Seq<char> {
    "#NEBULA-BATTLETEST-NO-ORIGINAL\n"@
}

/// What is set aside for a configuration.
pub fn backup(config: &Option<String>) -> (s: String)
    ensures
        s@ == backup_of(crate::text::opt_view(*config)),
{
    match config {
        Some(t) => owned(t.as_str()),
        None => owned("#NEBULA-BATTLETEST-NO-ORIGINAL\n"),
    }
}

/// What is put back from it: a text to write, or none where the file goes.
pub fn restored(backup: &str) -> (r: Option<String>)
    ensures
        crate::text::opt_view(r) == restored_from(backup@),
{
    if same(backup, "#NEBULA-BATTLETEST-NO-ORIGINAL\n") {
        None
    } else {
        Some(owned(backup))
    }
}

pub open spec fn backup_of(config: Option<Seq<char>>) -> Seq<char> {
    match config {
        Some(t) => t,
        None => marker(),
    }
}

pub open spec fn restored_from(backup: Seq<char>) -> Option<Seq<char>> {
    if backup == marker() {
        None
    } else {
        Some(backup)
    }
}

/// What is set aside is put back exactly, that there was nothing too. A
/// configuration that is itself the marker is the one exception.
pub proof fn restores_exactly(config: Option<Seq<char>>)
    requires
        config != Some(marker()),
    ensures
        restored_from(backup_of(config)) == config,
{
}

/// Whether a destructive run was confirmed: by a flag, or by the environment.
pub fn armed(yes: bool, env: &Option<String>) -> (r: bool)
    ensures
        r == (yes || crate::text::opt_view(*env) == Some("1"@)),
{
    yes || (match env {
        Some(v) => same(v.as_str(), "1"),
        None => false,
    })
}

/// The configuration of a run, and what it was before.
#[derive(Debug)]
pub struct ConfigGuard {
    pub path: String,
    pub bak: String,
    pub restored: bool,
}

/// What is done to the files before a run.
#[derive(Debug)]
pub struct Taken {
    pub guard: ConfigGuard,
    /// What is said of a copy that an interrupted run left behind.
    pub said: Option<String>,
    /// What the configuration is before the copy is made.
    pub config: Option<String>,
    /// What is written to the copy.
    pub backup: String,
}

/// What is done to the files before a run.
pub open spec fn set_aside(
    home: Seq<char>,
    config: Option<Seq<char>>,
    stale: Option<Seq<char>>,
    t: Taken,
) -> bool {
    &&& t.guard.path@ == joined_path(home, "config.toml"@)
    &&& t.guard.bak@ == joined_path(home, "config.toml.battletest-orig"@)
    &&& !t.guard.restored
    &&& crate::text::opt_view(t.config) == (match stale {
        Some(b) => restored_from(b),
        None => config,
    })
    &&& t.backup@ == backup_of(crate::text::opt_view(t.config))
    &&& crate::text::opt_view(t.said) == (match stale {
        Some(_) => Some(
            "battletest: found stale "@ + joined_path(
                home,
                "config.toml.battletest-orig"@,
            ) + " from an interrupted run — restoring it first"@,
        ),
        None => None,
    })
}

impl ConfigGuard {
    /// Set a configuration aside. A copy that is there already comes from an
    /// interrupted run: it is put back first.
    pub fn take(home: &str, config: &Option<String>, stale: &Option<String>) -> (t: Taken)
        ensures
            set_aside(home@, crate::text::opt_view(*config), crate::text::opt_view(*stale), t),
    {
        let path: String = join(home, "config.toml");
        let bak: String = join(home, "config.toml.battletest-orig");
        let (said, now): (Option<String>, Option<String>) = match stale {
            Some(b) => (
                Some(
                    cat3(
                        "battletest: found stale ",
                        bak.as_str(),
                        " from an interrupted run — restoring it first",
                    ),
                ),
                restored(b.as_str()),
            ),
            None => (None, crate::text::opt_owned(config)),
        };
        let backup: String = backup(&now);
        Taken { guard: ConfigGuard { path, bak, restored: false }, said, config: now, backup }
    }

    /// A configuration with another ceiling; none where it is no table.
    pub fn set_max_ram(config: Doc, mib: u64) -> (r: Option<Doc>)
        ensures
            match r {
                Some(d) => with_max_ram(config@, mib) == Some(d@),
                None => with_max_ram(config@, mib) is None,
            },
    {
        let n: String = if mib <= 0x7fff_ffff_ffff_ffff {
            decimal_str(mib)
        } else {
            cat2("-", decimal_str(0xffff_ffff_ffff_ffff - mib + 1).as_str())
        };
        assign(config, &key_path("max_ram_mib"), Doc::Num(n))
    }

    /// A configuration with another root filesystem, or with none of its own;
    /// nothing where it is no table.
    pub fn set_rootfs(config: Doc, rootfs: &Option<String>) -> (r: Option<Doc>)
        ensures
            match r {
                Some(d) => with_rootfs(config@, crate::text::opt_view(*rootfs)) == Some(d@),
                None => with_rootfs(config@, crate::text::opt_view(*rootfs)) is None,
            },
    {
        match rootfs {
            Some(p) => assign(config, &key_path("rootfs"), Doc::Str(owned(p.as_str()))),
            None => {
                proof {
                    crate::doc::lemma_tree(config);
                }
                match config {
                    Doc::Table(m) => {
                        let ghost all = crate::doc::member_views(m@);
                        match find_key(&m, "rootfs") {
                            Some(i) => {
                                let mut m: Vec<(Doc, Doc)> = m;
                                m.remove(i);
                                let d: Doc = Doc::Table(m);
                                assert(d@->Table_0 =~= all.remove(i as int));
                                Some(d)
                            },
                            None => Some(Doc::Table(m)),
                        }
                    },
                    other => Some(other),
                }
            },
        }
    }

    /// Put the configuration back, once: what the file becomes, or that there
    /// is nothing left to do.
    pub fn restore(&mut self, backup: &str) -> (r: Option<Option<String>>)
        ensures
            final(self).restored,
            final(self).path == old(self).path,
            final(self).bak == old(self).bak,
            match r {
                Some(text) => !old(self).restored && crate::text::opt_view(text) == restored_from(
                    backup@,
                ),
                None => old(self).restored,
            },
    {
        if self.restored {
            return None;
        }
        self.restored = true;
        Some(restored(backup))
    }
}

fn key_path(k: &str) -> (p: Vec<Step>)
    ensures
        crate::doc::step_views(p@) == seq![key(k@)],
{
    let p: Vec<Step> = vec![Step::Key(owned(k))];
    assert(crate::doc::step_views(p@) =~= seq![key(k@)]);
    p
}

/// A configuration with this ceiling. The number is one of 64 bits with a
/// sign.
pub open spec fn with_max_ram(d: DocView, mib: u64) -> Option<DocView> {
    crate::doc::set_at(
        d,
        seq![key("max_ram_mib"@)],
        DocView::Num(
            if mib <= i64::MAX {
                crate::text::decimal(mib as nat)
            } else {
                "-"@ + crate::text::decimal((0x1_0000_0000_0000_0000 - mib) as nat)
            },
        ),
    )
}

/// A configuration with this root filesystem.
pub open spec fn with_rootfs(d: DocView, rootfs: Option<Seq<char>>) -> Option<DocView> {
    match rootfs {
        Some(p) => crate::doc::set_at(d, seq![key("rootfs"@)], DocView::Str(p)),
        None => Some(crate::contexts::without_key(d, "rootfs"@)),
    }
}

/// A ceiling that is set is read, and nothing else of the configuration
/// changes.
pub proof fn a_ceiling_is_set(d: DocView, mib: u64, new: DocView, other: Seq<char>)
    requires
        with_max_ram(d, mib) == Some(new),
        mib <= i64::MAX,
        other != "max_ram_mib"@,
    ensures
        crate::doc::field(new, "max_ram_mib"@) == DocView::Num(crate::text::decimal(mib as nat)),
        crate::doc::field(new, other) == crate::doc::field(d, other),
{
    crate::doc::one_member_is_set(
        d,
        "max_ram_mib"@,
        DocView::Num(crate::text::decimal(mib as nat)),
        other,
    );
}

/// A root filesystem that is set is read; and where it is taken out, none is.
/// Nothing else of the configuration changes. No key of it occurs twice.
pub proof fn a_root_is_set(d: DocView, rootfs: Option<Seq<char>>, new: DocView, other: Seq<char>)
    requires
        with_rootfs(d, rootfs) == Some(new),
        other != "rootfs"@,
        d is Table,
        forall|i: int, j: int|
            0 <= i < j < d->Table_0.len() ==> #[trigger] d->Table_0[i].0
                != #[trigger] d->Table_0[j].0,
    ensures
        crate::doc::field(new, "rootfs"@) == (match rootfs {
            Some(p) => DocView::Str(p),
            None => DocView::Null,
        }),
        crate::doc::field(new, other) == crate::doc::field(d, other),
{
    match rootfs {
        Some(p) => {
            crate::doc::one_member_is_set(d, "rootfs"@, DocView::Str(p), other);
        },
        None => {
            crate::contexts::a_member_is_taken_out(d, "rootfs"@, other);
        },
    }
}

/// What was there before the run is put back behind it, also where the run
/// before it was interrupted.
pub proof fn what_was_there_is_put_back(
    home: Seq<char>,
    config: Option<Seq<char>>,
    stale: Option<Seq<char>>,
    t: Taken,
)
    requires
        set_aside(home, config, stale, t),
        config != Some("#NEBULA-BATTLETEST-NO-ORIGINAL\n"@),
    ensures
        stale is None ==> restored_from(t.backup@) == config && crate::text::opt_view(t.config)
            == config,
        stale matches Some(b) ==> t.backup@ == b && restored_from(t.backup@) == crate::text::opt_view(
            t.config,
        ),
        stale == Some("#NEBULA-BATTLETEST-NO-ORIGINAL\n"@) ==> t.config is None,
        stale is Some <==> t.said is Some,
        !t.guard.restored,
{
}

} // verus!
