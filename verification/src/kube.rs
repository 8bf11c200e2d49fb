//! A local k3s cluster, with the same lossless revert as the other tools: the
//! nebula entries are merged into the user's kubeconfig without touching any
//! other, and the previous context is recorded.

use crate::doc::{
    as_list, assign, copy_at, get, parse_yaml, text_field, Doc, DocView, Step, StepView,
};
use crate::text::{
    cat2, cat3, cat4, contains, decimal_str, from_chars, owned, same, split_char, to_chars,
};
use vstd::prelude::*;

verus! {

/// The cluster, user and context that belong to Nebula.
pub const CONTEXT_NAME: &'static str = "nebula";

/// How an unset context is called.
pub const UNSET: &'static str = "default (unset)";

pub open spec fn key(k: Seq<char>) -> StepView {
    StepView::Key(k)
}

pub open spec fn item(i: nat) -> StepView {
    StepView::Item(i)
}

pub open spec fn server_url(host: Seq<char>, port: u16) -> Seq<char> {
    "https://"@ + host + ":"@ + crate::text::decimal(port as nat)
}

fn make_url(host: &str, port: u16) -> (s: String)
    ensures
        s@ == server_url(host@, port),
{
    cat4("https://", host, ":", decimal_str(port as u64).as_str())
}

pub open spec fn nebula() -> DocView {
    DocView::Str("nebula"@)
}

/// A document after a row of assignments, each at the end of a path.
pub open spec fn assigned(d: DocView, edits: Seq<(Seq<StepView>, DocView)>) -> Option<DocView>
    decreases edits.len(),
{
    if edits.len() == 0 {
        Some(d)
    } else {
        match assigned(d, edits.drop_last()) {
            Some(x) => crate::doc::set_at(x, edits.last().0, edits.last().1),
            None => None,
        }
    }
}

/// What is changed in the guest's kubeconfig: the server is the host's stable
/// forward, and cluster, user and context are called nebula.
pub open spec fn standalone_edits(port: u16) -> Seq<(Seq<StepView>, DocView)> {
    seq![
        (
            seq![key("clusters"@), item(0), key("cluster"@), key("server"@)],
            DocView::Str(server_url("127.0.0.1"@, port)),
        ),
        (seq![key("clusters"@), item(0), key("name"@)], nebula()),
        (seq![key("contexts"@), item(0), key("context"@), key("cluster"@)], nebula()),
        (seq![key("contexts"@), item(0), key("context"@), key("user"@)], nebula()),
        (seq![key("contexts"@), item(0), key("name"@)], nebula()),
        (seq![key("users"@), item(0), key("name"@)], nebula()),
        (seq![key("current-context"@)], nebula()),
    ]
}

fn path1(a: &str) -> (p: Vec<Step>)
    ensures
        crate::doc::step_views(p@) == seq![key(a@)],
{
    let p: Vec<Step> = vec![Step::Key(owned(a))];
    assert(crate::doc::step_views(p@) =~= seq![key(a@)]);
    p
}

fn path3(a: &str, c: &str) -> (p: Vec<Step>)
    ensures
        crate::doc::step_views(p@) == seq![key(a@), item(0), key(c@)],
{
    let p: Vec<Step> = vec![Step::Key(owned(a)), Step::Item(0), Step::Key(owned(c))];
    assert(crate::doc::step_views(p@) =~= seq![key(a@), item(0), key(c@)]);
    p
}

fn path4(a: &str, c: &str, d: &str) -> (p: Vec<Step>)
    ensures
        crate::doc::step_views(p@) == seq![key(a@), item(0), key(c@), key(d@)],
{
    let p: Vec<Step> = vec![
        Step::Key(owned(a)),
        Step::Item(0),
        Step::Key(owned(c)),
        Step::Key(owned(d)),
    ];
    assert(crate::doc::step_views(p@) =~= seq![key(a@), item(0), key(c@), key(d@)]);
    p
}

fn assign_next(d: Option<Doc>, path: &Vec<Step>, v: Doc, Ghost(start): Ghost<DocView>, Ghost(done): Ghost<
    Seq<(Seq<StepView>, DocView)>,
>) -> (r: Option<Doc>)
    requires
        match d {
            Some(x) => assigned(start, done) == Some(x@),
            None => assigned(start, done) is None,
        },
    ensures
        match r {
            Some(x) => assigned(start, done.push((crate::doc::step_views(path@), v@))) == Some(x@),
            None => assigned(start, done.push((crate::doc::step_views(path@), v@))) is None,
        },
{
    proof {
        let all = done.push((crate::doc::step_views(path@), v@));
        assert(all.drop_last() =~= done);
    }
    match d {
        Some(x) => assign(x, path, v),
        None => None,
    }
}

fn name_doc() -> (d: Doc)
    ensures
        d@ == nebula(),
{
    Doc::Str(owned("nebula"))
}

/// The standalone kubeconfig that the one-off tools use; none where the
/// guest's has no such entries.
pub fn standalone(guest: Doc, port: u16) -> (r: Option<Doc>)
    ensures
        match r {
            Some(d) => assigned(guest@, standalone_edits(port)) == Some(d@),
            None => assigned(guest@, standalone_edits(port)) is None,
        },
{
    let ghost g = guest@;
    let ghost all = standalone_edits(port);
    let url: String = make_url("127.0.0.1", port);
    let d: Option<Doc> = assign_next(
        Some(guest),
        &path4("clusters", "cluster", "server"),
        Doc::Str(url),
        Ghost(g),
        Ghost(Seq::empty()),
    );
    assert(Seq::<(Seq<StepView>, DocView)>::empty().push(all[0]) =~= all.take(1));
    let d: Option<Doc> = assign_next(
        d,
        &path3("clusters", "name"),
        name_doc(),
        Ghost(g),
        Ghost(all.take(1)),
    );
    assert(all.take(1).push(all[1]) =~= all.take(2));
    let d: Option<Doc> = assign_next(
        d,
        &path4("contexts", "context", "cluster"),
        name_doc(),
        Ghost(g),
        Ghost(all.take(2)),
    );
    assert(all.take(2).push(all[2]) =~= all.take(3));
    let d: Option<Doc> = assign_next(
        d,
        &path4("contexts", "context", "user"),
        name_doc(),
        Ghost(g),
        Ghost(all.take(3)),
    );
    assert(all.take(3).push(all[3]) =~= all.take(4));
    let d: Option<Doc> = assign_next(
        d,
        &path3("contexts", "name"),
        name_doc(),
        Ghost(g),
        Ghost(all.take(4)),
    );
    assert(all.take(4).push(all[4]) =~= all.take(5));
    let d: Option<Doc> = assign_next(
        d,
        &path3("users", "name"),
        name_doc(),
        Ghost(g),
        Ghost(all.take(5)),
    );
    assert(all.take(5).push(all[5]) =~= all.take(6));
    let d: Option<Doc> = assign_next(
        d,
        &path1("current-context"),
        name_doc(),
        Ghost(g),
        Ghost(all.take(6)),
    );
    assert(all.take(6).push(all[6]) =~= all);
    d
}

/// Read the guest's kubeconfig and make the standalone one: the text's error
/// where it is not YAML, none where it has no such entries.
pub fn standalone_of(text: &str, port: u16) -> (r: Result<Option<Doc>, String>)
    ensures
        match (r, crate::doc::yaml_text(text@)) {
            (Ok(Some(d)), Ok(g)) => assigned(g, standalone_edits(port)) == Some(d@),
            (Ok(None), Ok(g)) => assigned(g, standalone_edits(port)) is None,
            (Err(e), Err(t)) => e@ == t,
            _ => false,
        },
{
    match parse_yaml(text) {
        Ok(g) => Ok(standalone(g, port)),
        Err(e) => Err(e),
    }
}

/// Whether an entry of a section is Nebula's.
pub open spec fn is_ours(e: DocView) -> bool {
    crate::doc::text_of(crate::doc::field(e, "name"@)) == Some("nebula"@)
}

/// Where Nebula's entry stands in a section.
pub open spec fn ours_at(items: Seq<DocView>) -> Option<int>
    decreases items.len(),
{
    if items.len() == 0 {
        None
    } else {
        match ours_at(items.drop_last()) {
            Some(i) => Some(i),
            None => if is_ours(items.last()) {
                Some(items.len() - 1)
            } else {
                None
            },
        }
    }
}

/// Nebula's entry of a section.
pub open spec fn entry_of(inner: Seq<char>, data: DocView) -> DocView {
    DocView::Table(seq![(DocView::Str("name"@), nebula()), (DocView::Str(inner), data)])
}

/// A section with Nebula's entry: in place of the one it had, or at the end.
pub open spec fn with_entry(items: Seq<DocView>, e: DocView) -> Seq<DocView> {
    match ours_at(items) {
        Some(i) => items.update(i, e),
        None => items.push(e),
    }
}

/// A list with other items, below the same tags.
pub open spec fn with_items(d: DocView, items: Seq<DocView>) -> DocView
    decreases d,
{
    match d {
        DocView::Tagged(t, x) => DocView::Tagged(t, Box::new(with_items(*x, items))),
        _ => DocView::List(items),
    }
}

/// A kubeconfig with Nebula's entry in a section; a section that is missing,
/// or no list, is a new one.
pub open spec fn upserted(root: DocView, section: Seq<char>, inner: Seq<char>, data: DocView) -> Option<
    DocView,
> {
    let old_list = crate::doc::field(root, section);
    let e = entry_of(inner, data);
    if crate::doc::untagged(old_list) is List {
        crate::doc::set_at(
            root,
            seq![key(section)],
            with_items(old_list, with_entry(crate::doc::items_of(old_list), e)),
        )
    } else {
        crate::doc::set_at(root, seq![key(section)], DocView::List(seq![e]))
    }
}

fn find_ours(items: &Vec<Doc>) -> (r: Option<usize>)
    ensures
        match r {
            Some(i) => ours_at(crate::doc::doc_views(items@)) == Some(i as int) && i < items@.len(),
            None => ours_at(crate::doc::doc_views(items@)) is None,
        },
{
    let ghost all = crate::doc::doc_views(items@);
    let mut i: usize = 0;
    assert(all.take(0) =~= Seq::empty());
    while i < items.len()
        invariant
            i <= items@.len(),
            all == crate::doc::doc_views(items@),
            ours_at(all.take(i as int)) is None,
        decreases items@.len() - i,
    {
        let ghost longer = all.take(i as int + 1);
        proof {
            assert(longer.drop_last() =~= all.take(i as int));
            assert(longer.last() == items@[i as int]@);
        }
        let ours: bool = match text_field(&items[i], "name") {
            Some(n) => same(n.as_str(), "nebula"),
            None => false,
        };
        if ours {
            proof {
                assert(ours_at(longer) == Some(i as int));
                lemma_ours_grows(all, i as int + 1);
            }
            return Some(i);
        }
        i = i + 1;
    }
    assert(all.take(items@.len() as int) =~= all);
    None
}

proof fn lemma_ours_grows(items: Seq<DocView>, n: int)
    requires
        0 <= n <= items.len(),
        ours_at(items.take(n)) is Some,
    ensures
        ours_at(items) == ours_at(items.take(n)),
    decreases items.len(),
{
    if n < items.len() {
        assert(items.drop_last().take(n) =~= items.take(n));
        lemma_ours_grows(items.drop_last(), n);
    } else {
        assert(items.take(n) =~= items);
    }
}

fn make_entry(inner: &str, data: Doc) -> (e: Doc)
    ensures
        e@ == entry_of(inner@, data@),
{
    let ghost dv = data@;
    let mut m: Vec<(Doc, Doc)> = Vec::new();
    m.push((Doc::Str(owned("name")), name_doc()));
    m.push((Doc::Str(owned(inner)), data));
    let e: Doc = Doc::Table(m);
    proof {
        reveal_with_fuel(Doc::tree, 3);
    }
    assert(e@->Table_0 =~= entry_of(inner@, dv)->Table_0);
    e
}

fn put_items(d: &Doc, items: Vec<Doc>) -> (r: Doc)
    ensures
        r@ == with_items(d@, crate::doc::doc_views(items@)),
    decreases d,
{
    match d {
        Doc::Tagged(t, x) => {
            let y: Doc = put_items(x, items);
            Doc::Tagged(owned(t.as_str()), Box::new(y))
        },
        _ => {
            let r: Doc = Doc::List(items);
            proof {
                crate::doc::lemma_tree(r);
            }
            r
        },
    }
}

fn copy_items(items: &Vec<Doc>) -> (r: Vec<Doc>)
    ensures
        crate::doc::doc_views(r@) == crate::doc::doc_views(items@),
{
    let mut r: Vec<Doc> = Vec::new();
    let mut i: usize = 0;
    while i < items.len()
        invariant
            i <= items@.len(),
            r@.len() == i,
            forall|j: int| 0 <= j < i ==> (#[trigger] r@[j])@ == items@[j]@,
        decreases items@.len() - i,
    {
        r.push(crate::doc::copy(&items[i]));
        i = i + 1;
    }
    assert(crate::doc::doc_views(r@) =~= crate::doc::doc_views(items@));
    r
}

/// Insert or replace Nebula's entry in a section of a kubeconfig; none where
/// the document has no sections.
pub fn upsert_named(root: Doc, section: &str, inner_key: &str, data: Doc) -> (r: Option<Doc>)
    ensures
        match r {
            Some(d) => upserted(root@, section@, inner_key@, data@) == Some(d@),
            None => upserted(root@, section@, inner_key@, data@) is None,
        },
{
    let e: Doc = make_entry(inner_key, data);
    let ghost ev = e@;
    let list: Doc = match get(&root, section) {
        Some(l) => match as_list(l) {
            Some(items) => {
                let ghost iv = crate::doc::doc_views(items@);
                let mut items2: Vec<Doc> = copy_items(items);
                match find_ours(items) {
                    Some(i) => {
                        items2.set(i, e);
                        assert(crate::doc::doc_views(items2@) =~= iv.update(i as int, ev));
                    },
                    None => {
                        items2.push(e);
                        assert(crate::doc::doc_views(items2@) =~= iv.push(ev));
                    },
                }
                put_items(l, items2)
            },
            None => {
                let one: Vec<Doc> = vec![e];
                let r: Doc = Doc::List(one);
                assert(r@->List_0 =~= seq![ev]);
                r
            },
        },
        None => {
            let one: Vec<Doc> = vec![e];
            let r: Doc = Doc::List(one);
            assert(r@->List_0 =~= seq![ev]);
            r
        },
    };
    assign(root, &path1(section), list)
}

/// Nebula's context: its cluster and its user.
pub open spec fn context_data() -> DocView {
    DocView::Table(
        seq![(DocView::Str("cluster"@), nebula()), (DocView::Str("user"@), nebula())],
    )
}

fn make_context() -> (d: Doc)
    ensures
        d@ == context_data(),
{
    let mut m: Vec<(Doc, Doc)> = Vec::new();
    m.push((Doc::Str(owned("cluster")), name_doc()));
    m.push((Doc::Str(owned("user")), name_doc()));
    let d: Doc = Doc::Table(m);
    proof {
        reveal_with_fuel(Doc::tree, 3);
    }
    assert(d@->Table_0 =~= context_data()->Table_0);
    d
}

/// Why a merge is not possible.
#[derive(Debug, Clone, Copy, PartialEq, Eq, Structural)]
pub enum MergeError {
    /// The guest's kubeconfig has no cluster.
    MissingCluster,
    /// A document has something else where a table or a list belongs.
    BadShape,
}

/// A merged kubeconfig.
#[derive(Debug)]
pub struct Merged {
    pub root: Doc,
    /// Whether the context changed, and what it was before.
    pub switched: bool,
    pub previous: Option<String>,
}

/// The guest's cluster, and its user.
pub open spec fn guest_cluster(guest: DocView) -> DocView {
    crate::doc::at_path(guest, seq![key("clusters"@), item(0), key("cluster"@)])
}

pub open spec fn guest_user(guest: DocView) -> DocView {
    crate::doc::at_path(guest, seq![key("users"@), item(0), key("user"@)])
}

/// The user's kubeconfig with Nebula's three entries.
pub open spec fn with_entries(guest: DocView, root: DocView, host: Seq<char>, port: u16) -> Option<
    DocView,
> {
    match crate::doc::set_at(
        guest_cluster(guest),
        seq![key("server"@)],
        DocView::Str(server_url(host, port)),
    ) {
        None => None,
        Some(c) => match upserted(root, "clusters"@, "cluster"@, c) {
            None => None,
            Some(r1) => match upserted(r1, "users"@, "user"@, guest_user(guest)) {
                None => None,
                Some(r2) => upserted(r2, "contexts"@, "context"@, context_data()),
            },
        },
    }
}

/// The context that a kubeconfig selects.
pub open spec fn current(root: DocView) -> Option<Seq<char>> {
    crate::doc::text_of(crate::doc::field(root, "current-context"@))
}

/// The kubeconfig that selects a context.
pub open spec fn selecting(root: DocView, name: Seq<char>) -> Option<DocView> {
    crate::doc::set_at(root, seq![key("current-context"@)], DocView::Str(name))
}

/// Merge the guest's kubeconfig into the user's, as nebula entries, and select
/// them. A context that is selected already stays selected.
pub fn merge_kubeconfig(guest: &Doc, root: Doc, host: &str, port: u16) -> (r: Result<
    Merged,
    MergeError,
>)
    ensures
        ({
            let cluster = guest_cluster(guest@);
            let merged = with_entries(guest@, root@, host@, port);
            match r {
                Err(MergeError::MissingCluster) => crate::doc::untagged(cluster) == DocView::Null,
                Err(MergeError::BadShape) => crate::doc::untagged(cluster) != DocView::Null && (
                merged is None || (current(merged->0) != Some("nebula"@) && selecting(
                    merged->0,
                    "nebula"@,
                ) is None)),
                Ok(m) => crate::doc::untagged(cluster) != DocView::Null && merged is Some
                    && crate::text::opt_view(m.previous) == current(merged->0) && m.switched == (
                current(merged->0) != Some("nebula"@)) && (if m.switched {
                    selecting(merged->0, "nebula"@) == Some(m.root@)
                } else {
                    m.root@ == merged->0
                }),
            }
        }),
        r matches Ok(m) ==> says_merged(guest@, root@, host@, port, m.root@)
            && crate::text::opt_view(m.previous) == crate::doc::text_of(
            crate::doc::field(root@, "current-context"@),
        ),
{
    let ghost before = root@;
    proof {
        a_merge_knows_what_was_selected(guest@, before, host@, port);
    }
    let cluster: Doc = copy_at(guest, &path3("clusters", "cluster"));
    if crate::doc::is_null(&cluster) {
        return Err(MergeError::MissingCluster);
    }
    let user: Doc = copy_at(guest, &path3("users", "user"));
    let url: String = make_url(host, port);
    let cluster: Doc = match assign(cluster, &path1("server"), Doc::Str(url)) {
        Some(c) => c,
        None => {
            return Err(MergeError::BadShape);
        },
    };
    let r1: Doc = match upsert_named(root, "clusters", "cluster", cluster) {
        Some(d) => d,
        None => {
            return Err(MergeError::BadShape);
        },
    };
    let r2: Doc = match upsert_named(r1, "users", "user", user) {
        Some(d) => d,
        None => {
            return Err(MergeError::BadShape);
        },
    };
    let r3: Doc = match upsert_named(r2, "contexts", "context", make_context()) {
        Some(d) => d,
        None => {
            return Err(MergeError::BadShape);
        },
    };
    let previous: Option<String> = text_field(&r3, "current-context");
    let same_context: bool = match &previous {
        Some(p) => same(p.as_str(), "nebula"),
        None => false,
    };
    if same_context {
        proof {
            a_merge_is_read(guest@, before, host@, port, r3@);
        }
        return Ok(Merged { root: r3, switched: false, previous });
    }
    match assign(r3, &path1("current-context"), name_doc()) {
        Some(root) => {
            proof {
                a_merge_is_read(guest@, before, host@, port, root@);
            }
            Ok(Merged { root, switched: true, previous })
        },
        None => Err(MergeError::BadShape),
    }
}

/// A table without a member: the last one takes its place.
pub open spec fn swap_removed(m: Seq<(DocView, DocView)>, i: int) -> Seq<(DocView, DocView)> {
    if i == m.len() - 1 {
        m.drop_last()
    } else {
        m.update(i, m.last()).drop_last()
    }
}

/// The kubeconfig that selects what it selected before; without a context
/// where it had none.
pub open spec fn reverted(root: DocView, previous: Option<Seq<char>>) -> Option<DocView> {
    match previous {
        Some(name) => selecting(root, name),
        None => match root {
            DocView::Table(m) => match crate::doc::position(m, DocView::Str("current-context"@)) {
                Some(i) => Some(DocView::Table(swap_removed(m, i))),
                None => Some(root),
            },
            _ => Some(root),
        },
    }
}

/// Put the previous context back; none where the document cannot hold one.
pub fn revert_kubectl(root: Doc, previous: &Option<String>) -> (r: Option<Doc>)
    ensures
        match r {
            Some(d) => reverted(root@, crate::text::opt_view(*previous)) == Some(d@),
            None => reverted(root@, crate::text::opt_view(*previous)) is None,
        },
{
    match previous {
        Some(name) => assign(root, &path1("current-context"), Doc::Str(owned(name.as_str()))),
        None => {
            proof {
                crate::doc::lemma_tree(root);
            }
            match root {
                Doc::Table(m) => {
                    let ghost all = crate::doc::member_views(m@);
                    match crate::doc::find_key(&m, "current-context") {
                        Some(i) => {
                            let mut m: Vec<(Doc, Doc)> = m;
                            m.swap_remove(i);
                            let d: Doc = Doc::Table(m);
                            assert(d@->Table_0 =~= swap_removed(all, i as int));
                            Some(d)
                        },
                        None => Some(Doc::Table(m)),
                    }
                },
                other => Some(other),
            }
        },
    }
}

/// Setting a member of a table reads back, and leaves every other member as it
/// was.
pub proof fn set_touches_one_member(d: DocView, k: Seq<char>, v: DocView, other: Seq<char>)
    requires
        d is Table || d is Null,
        other != k,
    ensures
        crate::doc::set_at(d, seq![key(k)], v) is Some,
        crate::doc::field(crate::doc::set_at(d, seq![key(k)], v)->0, k) == v,
        crate::doc::field(crate::doc::set_at(d, seq![key(k)], v)->0, other) == crate::doc::field(
            d,
            other,
        ),
{
    reveal_with_fuel(crate::doc::set_at, 2);
    let path = seq![key(k)];
    assert(path.skip(1) =~= Seq::empty());
    let kd = DocView::Str(k);
    let od = DocView::Str(other);
    let r = crate::doc::set_at(d, path, v)->0;
    match d {
        DocView::Table(m) => {
            crate::doc::lemma_position(m, kd);
            crate::doc::lemma_position(m, od);
            let n = r->Table_0;
            crate::doc::lemma_position(n, kd);
            crate::doc::lemma_position(n, od);
            match crate::doc::position(m, kd) {
                Some(i) => {
                    assert(n == m.update(i, (m[i].0, v)));
                    assert forall|j: int| 0 <= j < m.len() implies (#[trigger] n[j]).0 == m[j].0 by {};
                    lemma_same_keys(m, n, kd);
                    lemma_same_keys(m, n, od);
                },
                None => {
                    assert(n == m.push((kd, v)));
                    assert(n.drop_last() =~= m);
                },
            }
        },
        _ => {
            let n = r->Table_0;
            assert(n.drop_last() =~= Seq::empty());
            assert(crate::doc::position(n.drop_last(), kd) is None);
            assert(crate::doc::position(n.drop_last(), od) is None);
        },
    }
}

proof fn lemma_same_keys(
    a: Seq<(DocView, DocView)>,
    b: Seq<(DocView, DocView)>,
    k: DocView,
)
    requires
        a.len() == b.len(),
        forall|j: int| 0 <= j < a.len() ==> (#[trigger] b[j]).0 == a[j].0,
    ensures
        crate::doc::position(a, k) == crate::doc::position(b, k),
    decreases a.len(),
{
    if a.len() > 0 {
        let x = a.drop_last();
        let y = b.drop_last();
        assert forall|j: int| 0 <= j < x.len() implies (#[trigger] y[j]).0 == x[j].0 by {
            assert(b[j].0 == a[j].0);
        }
        lemma_same_keys(x, y, k);
        assert(b[b.len() - 1].0 == a[a.len() - 1].0);
    }
}

/// What was selected is selected again after a revert, and nothing else of the
/// kubeconfig changes; a kubeconfig that selected nothing is as it was.
pub proof fn revert_restores_the_context(root: DocView, previous: Option<Seq<char>>)
    requires
        root is Table,
        previous == current(root),
        previous is None ==> crate::doc::position(
            root->Table_0,
            DocView::Str("current-context"@),
        ) is None,
    ensures
        selecting(root, "nebula"@) is Some,
        reverted(selecting(root, "nebula"@)->0, previous) is Some,
        current(reverted(selecting(root, "nebula"@)->0, previous)->0) == previous,
        previous is None ==> reverted(selecting(root, "nebula"@)->0, previous)->0 == root,
        forall|k: Seq<char>|
            k != "current-context"@ ==> #[trigger] crate::doc::field(
                reverted(selecting(root, "nebula"@)->0, previous)->0,
                k,
            ) == crate::doc::field(root, k),
{
    reveal_with_fuel(crate::doc::set_at, 2);
    let cc = "current-context"@;
    let chosen = selecting(root, "nebula"@)->0;
    let path = seq![key(cc)];
    assert(path.skip(1) =~= Seq::empty());
    assert(cc.push('x').len() != cc.len());
    set_touches_one_member(root, cc, nebula(), cc.push('x'));
    match previous {
        Some(name) => {
            set_touches_one_member(chosen, cc, DocView::Str(name), cc.push('x'));
            assert forall|k: Seq<char>| k != cc implies #[trigger] crate::doc::field(
                reverted(chosen, previous)->0,
                k,
            ) == crate::doc::field(root, k) by {
                set_touches_one_member(root, cc, nebula(), k);
                set_touches_one_member(chosen, cc, DocView::Str(name), k);
            }
        },
        None => {
            let m = root->Table_0;
            let kd = DocView::Str(cc);
            let n = chosen->Table_0;
            assert(n == m.push((kd, nebula())));
            assert(n.drop_last() =~= m);
            assert(crate::doc::position(n, kd) == Some(n.len() - 1));
            assert(swap_removed(n, n.len() - 1) =~= m);
        },
    }
}

/// An upsert keeps every other section, and every entry that is not Nebula's
/// stays in its place; Nebula's entry is there afterwards.
pub proof fn upsert_keeps_other_entries(
    root: DocView,
    section: Seq<char>,
    inner: Seq<char>,
    data: DocView,
)
    requires
        root is Table || root is Null,
    ensures
        ({
            let before = crate::doc::items_of(crate::doc::field(root, section));
            match upserted(root, section, inner, data) {
                None => false,
                Some(r) => {
                    let after = crate::doc::items_of(crate::doc::field(r, section));
                    &&& forall|k: Seq<char>|
                        k != section ==> #[trigger] crate::doc::field(r, k) == crate::doc::field(
                            root,
                            k,
                        )
                    &&& forall|i: int|
                        0 <= i < before.len() && !is_ours(before[i]) ==> i < after.len()
                            && #[trigger] after[i] == before[i]
                    &&& after.contains(entry_of(inner, data))
                },
            }
        }),
{
    let list = crate::doc::field(root, section);
    let before = crate::doc::items_of(list);
    let e = entry_of(inner, data);
    let new_list = if crate::doc::untagged(list) is List {
        with_items(list, with_entry(before, e))
    } else {
        DocView::List(seq![e])
    };
    assert(section.push('x').len() != section.len());
    set_touches_one_member(root, section, new_list, section.push('x'));
    let r = upserted(root, section, inner, data)->0;
    let after = crate::doc::items_of(new_list);
    if crate::doc::untagged(list) is List {
        lemma_with_items(list, with_entry(before, e));
        lemma_ours(before);
        match ours_at(before) {
            Some(i) => {
                assert(after[i] == e);
            },
            None => {
                assert(after[before.len() as int] == e);
            },
        }
    } else {
        assert(after[0] == e);
    }
    assert forall|k: Seq<char>| k != section implies #[trigger] crate::doc::field(r, k)
        == crate::doc::field(root, k) by {
        set_touches_one_member(root, section, new_list, k);
    }
}

proof fn lemma_with_items(d: DocView, items: Seq<DocView>)
    ensures
        crate::doc::untagged(with_items(d, items)) == DocView::List(items),
    decreases d,
{
    if let DocView::Tagged(_, x) = d {
        lemma_with_items(*x, items);
    }
}

proof fn lemma_ours(items: Seq<DocView>)
    ensures
        ours_at(items) matches Some(i) ==> 0 <= i < items.len() && is_ours(items[i]),
    decreases items.len(),
{
    if items.len() > 0 {
        lemma_ours(items.drop_last());
    }
}

/// Whether a context looks like a real cluster: anything but the well-known
/// local names.
pub fn looks_remote(context: &str) -> (r: bool)
    ensures
        r == !(context@ == "docker-desktop"@ || context@ == "minikube"@ || context@ == "kind-kind"@
            || context@ == "rancher-desktop"@ || context@ == "default (unset)"@),
{
    !(same(context, "docker-desktop") || same(context, "minikube") || same(context, "kind-kind")
        || same(context, "rancher-desktop") || same(context, "default (unset)"))
}

/// The first entry of a list of paths as Windows writes it: up to the first
/// semicolon outside quotes, without the quotes.
pub open spec fn first_windows_path(list: Seq<char>, quoted: bool) -> Seq<char>
    decreases list.len(),
{
    if list.len() == 0 || (list[0] == ';' && !quoted) {
        Seq::empty()
    } else if list[0] == '"' {
        first_windows_path(list.skip(1), !quoted)
    } else {
        seq![list[0]] + first_windows_path(list.skip(1), quoted)
    }
}

/// The first entry of a list of paths, as the system writes such a list.
pub open spec fn first_path(windows: bool, list: Seq<char>) -> Seq<char> {
    if windows {
        first_windows_path(list, false)
    } else {
        crate::text::split_on(list, ':')[0]
    }
}

fn first_of_windows(list: &str) -> (r: String)
    ensures
        r@ == first_windows_path(list@, false),
{
    let v: Vec<char> = to_chars(list);
    let n: usize = v.len();
    let mut out: Vec<char> = Vec::new();
    let mut quoted: bool = false;
    let mut i: usize = 0;
    assert(list@.skip(0) =~= list@);
    assert(out@ + first_windows_path(list@, false) =~= first_windows_path(list@, false));
    while i < n && !(v[i] == ';' && !quoted)
        invariant
            v@ == list@,
            n == v@.len(),
            i <= n,
            out@ + first_windows_path(list@.skip(i as int), quoted) == first_windows_path(
                list@,
                false,
            ),
        decreases n - i,
    {
        let ghost rest = list@.skip(i as int);
        proof {
            assert(rest[0] == v@[i as int]);
            assert(rest.skip(1) =~= list@.skip(i as int + 1));
        }
        let c: char = v[i];
        if c == '"' {
            quoted = !quoted;
        } else {
            let ghost before = out@;
            out.push(c);
            proof {
                let tail = first_windows_path(rest.skip(1), quoted);
                assert(before.push(c) + tail =~= before + (seq![c] + tail));
            }
        }
        i = i + 1;
    }
    let m: usize = out.len();
    assert(first_windows_path(list@.skip(i as int), quoted) =~= Seq::empty());
    assert(out@.subrange(0, m as int) =~= first_windows_path(list@, false));
    from_chars(&out, 0, m)
}

/// The kubeconfig that is used.
#[derive(Debug)]
pub enum KubeconfigAt {
    /// This file.
    Listed(String),
    /// `.kube/config` in this directory.
    InHome(String),
}

/// The kubeconfig that is used: the first of the environment's list, or the
/// one in the home directory; none without a home.
pub fn kubeconfig_path(windows: bool, env: &Option<String>, home: &Option<String>) -> (r: Option<
    KubeconfigAt,
>)
    ensures
        match *env {
            Some(list) => r matches Some(KubeconfigAt::Listed(p)) && p@ == first_path(
                windows,
                list@,
            ),
            None => match *home {
                Some(h) => r matches Some(KubeconfigAt::InHome(d)) && d@ == h@,
                None => r is None,
            },
        },
{
    match env {
        Some(list) => if windows {
            Some(KubeconfigAt::Listed(first_of_windows(list.as_str())))
        } else {
            let parts: Vec<String> = split_char(list.as_str(), ':');
            let ghost pv = crate::text::views(parts@);
            assert(pv[0] == parts@[0]@);
            Some(KubeconfigAt::Listed(owned(parts[0].as_str())))
        },
        None => match home {
            Some(h) => Some(KubeconfigAt::InHome(owned(h.as_str()))),
            None => None,
        },
    }
}

/// A fresh kubeconfig, where the user has none.
pub open spec fn fresh() -> DocView {
    DocView::Table(
        seq![
            (DocView::Str("apiVersion"@), DocView::Str("v1"@)),
            (DocView::Str("kind"@), DocView::Str("Config"@)),
        ],
    )
}

pub fn fresh_kubeconfig() -> (d: Doc)
    ensures
        d@ == fresh(),
{
    let mut m: Vec<(Doc, Doc)> = Vec::new();
    m.push((Doc::Str(owned("apiVersion")), Doc::Str(owned("v1"))));
    m.push((Doc::Str(owned("kind")), Doc::Str(owned("Config"))));
    let d: Doc = Doc::Table(m);
    proof {
        reveal_with_fuel(Doc::tree, 3);
    }
    assert(d@->Table_0 =~= fresh()->Table_0);
    d
}

/// What a wait comes to.
#[derive(Debug, Clone, Copy, PartialEq, Eq, Structural)]
pub enum Wait {
    Ready,
    Again,
    GiveUp,
}

/// Whether the guest has written its kubeconfig.
pub fn kubeconfig_written(exit_code: i32, stdout: &str) -> (r: bool)
    ensures
        r == (exit_code == 0 && crate::text::has_part(stdout@, "clusters:"@)),
{
    exit_code == 0 && contains(stdout, "clusters:")
}

/// Whether the node is ready.
pub fn node_ready(exit_code: i32, stdout: &str) -> (r: bool)
    ensures
        r == (exit_code == 0 && crate::text::has_part(stdout@, " Ready"@)),
{
    exit_code == 0 && contains(stdout, " Ready")
}

/// What a look of a wait comes to.
pub open spec fn waited(ready: bool, waited_ms: u64, timeout_ms: u64) -> Wait {
    if ready {
        Wait::Ready
    } else if waited_ms > timeout_ms {
        Wait::GiveUp
    } else {
        Wait::Again
    }
}

/// The next step of a wait.
pub fn wait_step(ready: bool, waited_ms: u64, timeout_ms: u64) -> (w: Wait)
    ensures
        w == waited(ready, waited_ms, timeout_ms),
{
    if ready {
        Wait::Ready
    } else if waited_ms > timeout_ms {
        Wait::GiveUp
    } else {
        Wait::Again
    }
}

/// Why k3s could not be started.
pub fn starting_failed(message: &str) -> (s: String)
    ensures
        s@ == "starting k3s: "@ + message@,
{
    cat2("starting k3s: ", message)
}

/// The host forward did not come up in time.
pub fn forward_missing(port: u16) -> (s: String)
    ensures
        s@ == "host forward 127.0.0.1:"@ + crate::text::decimal(port as nat) + " did not come up within 30s"@,
{
    cat3("host forward 127.0.0.1:", decimal_str(port as u64).as_str(), " did not come up within 30s")
}

/// The guest wrote no kubeconfig in time.
pub fn no_kubeconfig(secs: u64) -> (s: String)
    ensures
        s@ == "k3s did not produce a kubeconfig within "@ + crate::text::decimal(secs as nat) + "s (see nebula exec cat /var/log/k3s.log)"@,
{
    cat3("k3s did not produce a kubeconfig within ", decimal_str(secs).as_str(), "s (see nebula exec cat /var/log/k3s.log)")
}

/// The node did not become ready in time.
pub fn node_not_ready(secs: u64) -> (s: String)
    ensures
        s@ == "node did not become Ready within "@ + crate::text::decimal(secs as nat) + "s"@,
{
    cat3("node did not become Ready within ", decimal_str(secs).as_str(), "s")
}

/// What is said of a switch.
pub fn switched_line(previous: &str) -> (s: String)
    ensures
        s@ == "kubectl → nebula (was: "@ + previous@ + ")"@,
{
    cat3("kubectl → nebula (was: ", previous, ")")
}

/// What is said of a previous context that looks like a real cluster.
pub fn remote_warning(previous: &str) -> (s: String)
    ensures
        s@ == "\n  ⚠ previous kubectl context `"@ + previous@ + "` looks like a real cluster.\n    `nebula revert kubectl` restores it exactly.\n"@,
{
    cat3("\n  ⚠ previous kubectl context `", previous, "` looks like a real cluster.\n    `nebula revert kubectl` restores it exactly.\n")
}

// What a merged kubeconfig says.

/// Where the first entry of a name stands in a section.
pub open spec fn first_named(items: Seq<DocView>, name: Seq<char>, i: int) -> bool {
    &&& 0 <= i < items.len()
    &&& crate::doc::text_of(crate::doc::field(items[i], "name"@)) == Some(name)
    &&& forall|j: int|
        0 <= j < i ==> crate::doc::text_of(crate::doc::field(#[trigger] items[j], "name"@)) != Some(
            name,
        )
}

/// What the entry of a name in a section of a kubeconfig has under a key.
pub open spec fn entry_says(
    d: DocView,
    section: Seq<char>,
    name: Seq<char>,
    inner: Seq<char>,
    what: DocView,
) -> bool {
    exists|i: int| #[trigger]
        first_named(crate::doc::items_of(crate::doc::field(d, section)), name, i)
            && crate::doc::field(
            crate::doc::items_of(crate::doc::field(d, section))[i],
            inner,
        ) == what
}

/// Whether a section keeps every entry but those called nebula, each in its
/// place.
pub open spec fn keeps_entries(before: DocView, after: DocView, section: Seq<char>) -> bool {
    let a = crate::doc::items_of(crate::doc::field(before, section));
    let b = crate::doc::items_of(crate::doc::field(after, section));
    &&& a.len() <= b.len() <= a.len() + 1
    &&& forall|i: int|
        0 <= i < a.len() && crate::doc::text_of(crate::doc::field(a[i], "name"@)) != Some(
            "nebula"@,
        ) ==> #[trigger] b[i] == a[i]
}

/// Whether a kubeconfig says of Nebula what a merge of the guest's into the
/// user's is for.
pub open spec fn says_merged(
    guest: DocView,
    root: DocView,
    host: Seq<char>,
    port: u16,
    d: DocView,
) -> bool {
    let cluster = crate::doc::at_path(
        guest,
        seq![StepView::Key("clusters"@), StepView::Item(0), StepView::Key("cluster"@)],
    );
    let user = crate::doc::at_path(
        guest,
        seq![StepView::Key("users"@), StepView::Item(0), StepView::Key("user"@)],
    );
    &&& exists|c: DocView|
        #![trigger entry_says(d, "clusters"@, "nebula"@, "cluster"@, c)]
        entry_says(d, "clusters"@, "nebula"@, "cluster"@, c) && crate::doc::field(c, "server"@)
            == DocView::Str("https://"@ + host + ":"@ + crate::text::decimal(port as nat)) && forall|
            k: Seq<char>,
        |
            k != "server"@ ==> #[trigger] crate::doc::field(c, k) == crate::doc::field(cluster, k)
    &&& entry_says(d, "users"@, "nebula"@, "user"@, user)
    &&& exists|x: DocView|
        #![trigger entry_says(d, "contexts"@, "nebula"@, "context"@, x)]
        entry_says(d, "contexts"@, "nebula"@, "context"@, x) && crate::doc::field(x, "cluster"@)
            == DocView::Str("nebula"@) && crate::doc::field(x, "user"@) == DocView::Str("nebula"@)
    &&& crate::doc::text_of(crate::doc::field(d, "current-context"@)) == Some("nebula"@)
    &&& keeps_entries(root, d, "clusters"@)
    &&& keeps_entries(root, d, "users"@)
    &&& keeps_entries(root, d, "contexts"@)
    &&& forall|k: Seq<char>|
        k != "clusters"@ && k != "users"@ && k != "contexts"@ && k != "current-context"@
            ==> #[trigger] crate::doc::field(d, k) == crate::doc::field(root, k)
}

proof fn lemma_first_ours(items: Seq<DocView>)
    ensures
        match ours_at(items) {
            Some(i) => first_named(items, "nebula"@, i),
            None => forall|j: int| 0 <= j < items.len() ==> !is_ours(#[trigger] items[j]),
        },
    decreases items.len(),
{
    if items.len() > 0 {
        let short = items.drop_last();
        lemma_first_ours(short);
        match ours_at(short) {
            Some(i) => {
                assert(short[i] == items[i]);
                assert forall|j: int| 0 <= j < i implies crate::doc::text_of(
                    crate::doc::field(#[trigger] items[j], "name"@),
                ) != Some("nebula"@) by {
                    assert(short[j] == items[j]);
                }
            },
            None => {
                assert forall|j: int| 0 <= j < items.len() - 1 implies !is_ours(
                    #[trigger] items[j],
                ) by {
                    assert(short[j] == items[j]);
                }
            },
        }
    }
}

proof fn lemma_pair_reads(a: Seq<char>, x: DocView, b: Seq<char>, y: DocView)
    requires
        a != b,
    ensures
        ({
            let t = DocView::Table(seq![(DocView::Str(a), x), (DocView::Str(b), y)]);
            crate::doc::field(t, a) == x && crate::doc::field(t, b) == y
        }),
{
    let m = seq![(DocView::Str(a), x), (DocView::Str(b), y)];
    crate::doc::lemma_position(m, DocView::Str(a));
    crate::doc::lemma_position(m, DocView::Str(b));
    assert(m[0].0 == DocView::Str(a));
    assert(m[1].0 == DocView::Str(b));
}

/// An upsert puts its entry under the name nebula, with what was given under
/// its key; every other entry and every other section is as it was.
pub proof fn an_upsert_is_read(
    root: DocView,
    section: Seq<char>,
    inner: Seq<char>,
    data: DocView,
    r: DocView,
)
    requires
        upserted(root, section, inner, data) == Some(r),
        inner != "name"@,
    ensures
        entry_says(r, section, "nebula"@, inner, data),
        keeps_entries(root, r, section),
        forall|k: Seq<char>|
            k != section ==> #[trigger] crate::doc::field(r, k) == crate::doc::field(root, k),
{
    let list = crate::doc::field(root, section);
    let before = crate::doc::items_of(list);
    let e = entry_of(inner, data);
    let new_list = if crate::doc::untagged(list) is List {
        with_items(list, with_entry(before, e))
    } else {
        DocView::List(seq![e])
    };
    crate::doc::one_member_is_set(root, section, new_list, section);
    let after = crate::doc::items_of(crate::doc::field(r, section));
    lemma_pair_reads("name"@, nebula(), inner, data);
    lemma_first_ours(before);
    if crate::doc::untagged(list) is List {
        lemma_with_items(list, with_entry(before, e));
        match ours_at(before) {
            Some(i) => {
                assert(after =~= before.update(i, e));
                assert(first_named(after, "nebula"@, i));
            },
            None => {
                assert(after =~= before.push(e));
                assert forall|j: int| 0 <= j < before.len() implies crate::doc::text_of(
                    crate::doc::field(#[trigger] after[j], "name"@),
                ) != Some("nebula"@) by {
                    assert(!is_ours(before[j]));
                }
                assert(first_named(after, "nebula"@, before.len() as int));
            },
        }
    } else {
        assert(after =~= seq![e]);
        assert(first_named(after, "nebula"@, 0));
    }
    assert forall|k: Seq<char>| k != section implies #[trigger] crate::doc::field(r, k)
        == crate::doc::field(root, k) by {
        crate::doc::one_member_is_set(root, section, new_list, k);
    }
}

/// A merged kubeconfig says what the merge is for: the guest's first user and,
/// but for its server, the guest's first cluster, under the name nebula; a
/// context of that cluster and user, selected; and all else as it was.
pub proof fn a_merge_is_read(
    guest: DocView,
    root: DocView,
    host: Seq<char>,
    port: u16,
    d: DocView,
)
    requires
        ({
            let merged = with_entries(guest, root, host, port);
            &&& merged is Some
            &&& if current(merged->0) == Some("nebula"@) {
                d == merged->0
            } else {
                selecting(merged->0, "nebula"@) == Some(d)
            }
        }),
    ensures
        says_merged(guest, root, host, port, d),
{
    reveal_strlit("name");
    reveal_strlit("server");
    reveal_strlit("cluster");
    reveal_strlit("user");
    reveal_strlit("context");
    reveal_strlit("clusters");
    reveal_strlit("users");
    reveal_strlit("contexts");
    reveal_strlit("current-context");
    let (cs, us, xs, cc) = ("clusters"@, "users"@, "contexts"@, "current-context"@);
    assert(cs.len() == 8 && us.len() == 5 && xs.len() == 8 && cc.len() == 15);
    assert(cs[1] == 'l' && xs[1] == 'o');
    let gc = guest_cluster(guest);
    let url = DocView::Str(server_url(host, port));
    let c = crate::doc::set_at(gc, seq![key("server"@)], url)->0;
    crate::doc::one_member_is_set(gc, "server"@, url, "server"@);
    assert forall|k: Seq<char>| k != "server"@ implies #[trigger] crate::doc::field(c, k)
        == crate::doc::field(gc, k) by {
        crate::doc::one_member_is_set(gc, "server"@, url, k);
    }
    let r1 = upserted(root, cs, "cluster"@, c)->0;
    let r2 = upserted(r1, us, "user"@, guest_user(guest))->0;
    let r3 = upserted(r2, xs, "context"@, context_data())->0;
    assert("cluster"@.len() == 7 && "user"@.len() == 4 && "context"@.len() == 7 && "name"@.len()
        == 4);
    assert("user"@[0] == 'u' && "name"@[0] == 'n');
    an_upsert_is_read(root, cs, "cluster"@, c, r1);
    an_upsert_is_read(r1, us, "user"@, guest_user(guest), r2);
    an_upsert_is_read(r2, xs, "context"@, context_data(), r3);
    lemma_pair_reads("cluster"@, nebula(), "user"@, nebula());
    assert(crate::doc::field(r3, cs) == crate::doc::field(r1, cs));
    assert(crate::doc::field(r3, us) == crate::doc::field(r2, us));
    assert(crate::doc::field(r1, us) == crate::doc::field(root, us));
    assert(crate::doc::field(r2, xs) == crate::doc::field(root, xs));
    if current(r3) != Some("nebula"@) {
        assert forall|k: Seq<char>| k != cc implies #[trigger] crate::doc::field(d, k)
            == crate::doc::field(r3, k) by {
            crate::doc::one_member_is_set(r3, cc, nebula(), k);
        }
        crate::doc::one_member_is_set(r3, cc, nebula(), cc);
    }
    assert(crate::doc::field(d, cs) == crate::doc::field(r1, cs));
    assert(crate::doc::field(d, us) == crate::doc::field(r2, us));
    assert(crate::doc::field(d, xs) == crate::doc::field(r3, xs));
    assert(keeps_entries(root, d, cs));
    assert(keeps_entries(root, d, us));
    assert(keeps_entries(root, d, xs));
    assert(crate::doc::text_of(crate::doc::field(d, cc)) == Some("nebula"@));
    assert(entry_says(d, cs, "nebula"@, "cluster"@, c));
    assert(entry_says(d, us, "nebula"@, "user"@, guest_user(guest)));
    assert(entry_says(d, xs, "nebula"@, "context"@, context_data()));
    assert forall|k: Seq<char>| k != cs && k != us && k != xs && k != cc implies #[trigger] crate::doc::field(
        d,
        k,
    ) == crate::doc::field(root, k) by {
        assert(crate::doc::field(d, k) == crate::doc::field(r3, k));
        assert(crate::doc::field(r2, k) == crate::doc::field(r1, k));
    }
}

/// A merge is possible just where the guest has a cluster that is a table and
/// the user's kubeconfig is a table, or empty.
pub proof fn when_a_merge_is_possible(guest: DocView, root: DocView, host: Seq<char>, port: u16)
    ensures
        ({
            let cluster = crate::doc::at_path(
                guest,
                seq![StepView::Key("clusters"@), StepView::Item(0), StepView::Key("cluster"@)],
            );
            crate::doc::untagged(cluster) != DocView::Null ==> (with_entries(
                guest,
                root,
                host,
                port,
            ) is Some <==> crate::doc::untagged(cluster) is Table && (crate::doc::untagged(
                root,
            ) is Table || root is Null))
        }),
        with_entries(guest, root, host, port) matches Some(r) ==> selecting(r, "nebula"@) is Some,
{
    let gc = guest_cluster(guest);
    let url = DocView::Str(server_url(host, port));
    crate::doc::where_a_member_can_be_set(gc, "server"@, url);
    if let Some(c) = crate::doc::set_at(gc, seq![key("server"@)], url) {
        lemma_upsert_shape(root, "clusters"@, "cluster"@, c);
        if let Some(r1) = upserted(root, "clusters"@, "cluster"@, c) {
            lemma_upsert_shape(r1, "users"@, "user"@, guest_user(guest));
            if let Some(r2) = upserted(r1, "users"@, "user"@, guest_user(guest)) {
                lemma_upsert_shape(r2, "contexts"@, "context"@, context_data());
                if let Some(r3) = upserted(r2, "contexts"@, "context"@, context_data()) {
                    crate::doc::where_a_member_can_be_set(r3, "current-context"@, nebula());
                }
            }
        }
    }
}

proof fn lemma_upsert_shape(root: DocView, section: Seq<char>, inner: Seq<char>, data: DocView)
    ensures
        upserted(root, section, inner, data) is Some <==> (crate::doc::untagged(root) is Table
            || root is Null),
        upserted(root, section, inner, data) matches Some(r) ==> crate::doc::untagged(r) is Table,
{
    let old_list = crate::doc::field(root, section);
    let e = entry_of(inner, data);
    crate::doc::where_a_member_can_be_set(
        root,
        section,
        with_items(old_list, with_entry(crate::doc::items_of(old_list), e)),
    );
    crate::doc::where_a_member_can_be_set(root, section, DocView::List(seq![e]));
}

/// A merge leaves what was selected to be read from what the user had.
pub proof fn a_merge_knows_what_was_selected(
    guest: DocView,
    root: DocView,
    host: Seq<char>,
    port: u16,
)
    ensures
        with_entries(guest, root, host, port) matches Some(r) ==> current(r)
            == crate::doc::text_of(crate::doc::field(root, "current-context"@)),
{
    reveal_strlit("name");
    reveal_strlit("cluster");
    reveal_strlit("user");
    reveal_strlit("context");
    reveal_strlit("clusters");
    reveal_strlit("users");
    reveal_strlit("contexts");
    reveal_strlit("current-context");
    let cc = "current-context"@;
    assert(cc.len() == 15 && "clusters"@.len() == 8 && "users"@.len() == 5 && "contexts"@.len()
        == 8);
    assert("cluster"@.len() == 7 && "user"@.len() == 4 && "context"@.len() == 7 && "name"@.len()
        == 4);
    assert("user"@[0] == 'u' && "name"@[0] == 'n');
    let gc = guest_cluster(guest);
    let url = DocView::Str(server_url(host, port));
    if with_entries(guest, root, host, port) is Some {
        let c = crate::doc::set_at(gc, seq![key("server"@)], url)->0;
        let r1 = upserted(root, "clusters"@, "cluster"@, c)->0;
        let r2 = upserted(r1, "users"@, "user"@, guest_user(guest))->0;
        let r3 = upserted(r2, "contexts"@, "context"@, context_data())->0;
        an_upsert_is_read(root, "clusters"@, "cluster"@, c, r1);
        an_upsert_is_read(r1, "users"@, "user"@, guest_user(guest), r2);
        an_upsert_is_read(r2, "contexts"@, "context"@, context_data(), r3);
    }
}

/// The one-off tools' kubeconfig leads to the forward on this host, and its
/// cluster, user and context, which is selected, are called nebula; whatever
/// else the guest's says, it says too.
pub proof fn a_standalone_is_read(guest: DocView, port: u16, d: DocView, other: Seq<StepView>)
    requires
        assigned(guest, standalone_edits(port)) == Some(d),
    ensures
        crate::doc::at_path(
            d,
            seq![
                StepView::Key("clusters"@),
                StepView::Item(0),
                StepView::Key("cluster"@),
                StepView::Key("server"@),
            ],
        ) == DocView::Str("https://127.0.0.1:"@ + crate::text::decimal(port as nat)),
        ({
            let name = DocView::Str("nebula"@);
            let at = |a: Seq<char>, b: Seq<char>|
                crate::doc::at_path(d, seq![StepView::Key(a), StepView::Item(0), StepView::Key(b)]);
            &&& at("clusters"@, "name"@) == name
            &&& at("contexts"@, "name"@) == name
            &&& at("users"@, "name"@) == name
            &&& crate::doc::field(at("contexts"@, "context"@), "cluster"@) == name
            &&& crate::doc::field(at("contexts"@, "context"@), "user"@) == name
            &&& crate::doc::field(d, "current-context"@) == name
        }),
        (forall|i: int|
            0 <= i < 7 ==> crate::doc::part_ways(
                #[trigger] standalone_edits(port)[i].0,
                other,
            )) ==> crate::doc::at_path(d, other) == crate::doc::at_path(guest, other),
{
    let e = standalone_edits(port);
    lemma_standalone_paths(port);
    assert forall|i: int| 0 <= i < 7 implies crate::doc::at_path(d, (#[trigger] e[i]).0)
        == e[i].1 by {
        lemma_assigned_reads(guest, e, i);
    }
    if forall|i: int| 0 <= i < 7 ==> crate::doc::part_ways((#[trigger] e[i]).0, other) {
        lemma_assigned_leaves(guest, e, other);
    }
    reveal_strlit("https://");
    reveal_strlit("127.0.0.1");
    reveal_strlit(":");
    reveal_strlit("https://127.0.0.1:");
    assert("https://"@ + "127.0.0.1"@ + ":"@ =~= "https://127.0.0.1:"@);
    assert(e[0].1 == DocView::Str("https://127.0.0.1:"@ + crate::text::decimal(port as nat)));
    assert(crate::doc::at_path(d, e[1].0) == e[1].1);
    assert(crate::doc::at_path(d, e[2].0) == e[2].1);
    assert(crate::doc::at_path(d, e[3].0) == e[3].1);
    assert(crate::doc::at_path(d, e[4].0) == e[4].1);
    assert(crate::doc::at_path(d, e[5].0) == e[5].1);
    assert(crate::doc::at_path(d, e[6].0) == e[6].1);
    let ctx = seq![StepView::Key("contexts"@), StepView::Item(0), StepView::Key("context"@)];
    assert(e[2].0.drop_last() =~= ctx);
    assert(e[3].0.drop_last() =~= ctx);
    assert(e[6].0.drop_last() =~= Seq::empty());
    assert(crate::doc::at_path(d, Seq::<StepView>::empty()) == d);
}

proof fn lemma_assigned_reads(d: DocView, edits: Seq<(Seq<StepView>, DocView)>, i: int)
    requires
        assigned(d, edits) is Some,
        0 <= i < edits.len(),
        forall|j: int|
            i < j < edits.len() ==> crate::doc::part_ways((#[trigger] edits[j]).0, edits[i].0),
    ensures
        crate::doc::at_path(assigned(d, edits)->0, edits[i].0) == edits[i].1,
    decreases edits.len(),
{
    let n = edits.len() - 1;
    let before = assigned(d, edits.drop_last())->0;
    if i == n {
        crate::doc::what_is_set_is_read(before, edits[i].0, edits[i].1);
    } else {
        assert forall|j: int| i < j < edits.len() - 1 implies crate::doc::part_ways(
            (#[trigger] edits.drop_last()[j]).0,
            edits[i].0,
        ) by {
            assert(edits[j] == edits.drop_last()[j]);
        }
        lemma_assigned_reads(d, edits.drop_last(), i);
        assert(crate::doc::part_ways(edits[n].0, edits[i].0));
        crate::doc::the_rest_is_left_alone(before, edits[n].0, edits[n].1, edits[i].0);
    }
}

proof fn lemma_assigned_leaves(
    d: DocView,
    edits: Seq<(Seq<StepView>, DocView)>,
    other: Seq<StepView>,
)
    requires
        assigned(d, edits) is Some,
        forall|j: int|
            0 <= j < edits.len() ==> crate::doc::part_ways((#[trigger] edits[j]).0, other),
    ensures
        crate::doc::at_path(assigned(d, edits)->0, other) == crate::doc::at_path(d, other),
    decreases edits.len(),
{
    if edits.len() > 0 {
        let n = edits.len() - 1;
        let before = assigned(d, edits.drop_last())->0;
        assert forall|j: int| 0 <= j < edits.len() - 1 implies crate::doc::part_ways(
            (#[trigger] edits.drop_last()[j]).0,
            other,
        ) by {
            assert(edits[j] == edits.drop_last()[j]);
        }
        lemma_assigned_leaves(d, edits.drop_last(), other);
        assert(crate::doc::part_ways(edits[n].0, other));
        crate::doc::the_rest_is_left_alone(before, edits[n].0, edits[n].1, other);
    }
}

proof fn lemma_part_at(a: Seq<StepView>, b: Seq<StepView>, n: int)
    requires
        0 <= n < a.len(),
        n < b.len(),
        forall|j: int| 0 <= j < n ==> #[trigger] a[j] == b[j],
        crate::doc::apart(a[n], b[n]),
    ensures
        crate::doc::part_ways(a, b),
{
    assert(a.take(n) =~= b.take(n));
}

proof fn lemma_standalone_paths(port: u16)
    ensures
        forall|i: int, j: int|
            0 <= i < j < 7 ==> crate::doc::part_ways(
                (#[trigger] standalone_edits(port)[j]).0,
                (#[trigger] standalone_edits(port)[i]).0,
            ),
{
    reveal_strlit("clusters");
    reveal_strlit("contexts");
    reveal_strlit("users");
    reveal_strlit("current-context");
    reveal_strlit("cluster");
    reveal_strlit("context");
    reveal_strlit("user");
    reveal_strlit("name");
    let e = standalone_edits(port);
    assert("clusters"@[1] == 'l' && "contexts"@[1] == 'o');
    assert("users"@.len() == 5 && "clusters"@.len() == 8 && "contexts"@.len() == 8
        && "current-context"@.len() == 15);
    assert("cluster"@.len() == 7 && "context"@.len() == 7 && "user"@.len() == 4 && "name"@.len()
        == 4);
    assert forall|i: int, j: int| 0 <= i < j < 7 implies crate::doc::part_ways(
        (#[trigger] e[j]).0,
        (#[trigger] e[i]).0,
    ) by {
        let (a, b) = (e[j].0, e[i].0);
        if crate::doc::apart(a[0], b[0]) {
            lemma_part_at(a, b, 0);
        } else if crate::doc::apart(a[2], b[2]) {
            lemma_part_at(a, b, 2);
        } else {
            lemma_part_at(a, b, 3);
        }
    }
}

/// A kubeconfig that is put back selects what it selected, or nothing, and
/// says all else as it did. No key of it occurs twice.
pub proof fn a_revert_is_read(root: DocView, previous: Option<Seq<char>>, d: DocView)
    requires
        reverted(root, previous) == Some(d),
        root is Table,
        forall|i: int, j: int|
            0 <= i < j < root->Table_0.len() ==> #[trigger] root->Table_0[i].0
                != #[trigger] root->Table_0[j].0,
    ensures
        crate::doc::field(d, "current-context"@) == (match previous {
            Some(name) => DocView::Str(name),
            None => DocView::Null,
        }),
        forall|k: Seq<char>|
            k != "current-context"@ ==> #[trigger] crate::doc::field(d, k) == crate::doc::field(
                root,
                k,
            ),
{
    let cc = "current-context"@;
    match previous {
        Some(name) => {
            crate::doc::one_member_is_set(root, cc, DocView::Str(name), cc);
            assert forall|k: Seq<char>| k != cc implies #[trigger] crate::doc::field(d, k)
                == crate::doc::field(root, k) by {
                crate::doc::one_member_is_set(root, cc, DocView::Str(name), k);
            }
        },
        None => {
            let m = root->Table_0;
            let kd = DocView::Str(cc);
            crate::doc::lemma_position(m, kd);
            if let Some(i) = crate::doc::position(m, kd) {
                let n = swap_removed(m, i);
                crate::doc::lemma_position(n, kd);
                assert forall|k: Seq<char>| k != cc implies #[trigger] crate::doc::field(d, k)
                    == crate::doc::field(root, k) by {
                    let od = DocView::Str(k);
                    crate::doc::lemma_position(m, od);
                    crate::doc::lemma_position(n, od);
                    match crate::doc::position(m, od) {
                        Some(j) => {
                            if j == m.len() - 1 {
                                assert(n[i] == m[j]);
                            } else {
                                assert(n[j] == m[j]);
                            }
                            let at = crate::doc::position(n, od)->0;
                            if at == i && i != m.len() - 1 {
                                assert(n[at] == m[m.len() - 1]);
                            } else {
                                assert(n[at] == m[at]);
                            }
                        },
                        None => {
                            if let Some(at) = crate::doc::position(n, od) {
                                if at == i && i != m.len() - 1 {
                                    assert(n[at] == m[m.len() - 1]);
                                } else {
                                    assert(n[at] == m[at]);
                                }
                            }
                        },
                    }
                }
                if let Some(at) = crate::doc::position(n, kd) {
                    if at == i && i != m.len() - 1 {
                        assert(n[at] == m[m.len() - 1]);
                    } else {
                        assert(n[at] == m[at]);
                    }
                }
            }
        },
    }
}

/// A wait that is over is over, however late; and none is given up in time.
pub proof fn when_a_wait_is_over(ready: bool, waited_ms: u64, timeout_ms: u64)
    ensures
        waited(ready, waited_ms, timeout_ms) is Ready <==> ready,
        waited(ready, waited_ms, timeout_ms) is GiveUp <==> !ready && waited_ms > timeout_ms,
{
}

} // verus!
