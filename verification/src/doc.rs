//! Documents: what a JSON or YAML text holds, as a tree of plain values.

use crate::text::{owned, parse_u64, same};
use vstd::prelude::*;

verus! {

/// A value of a document.
#[derive(Debug)]
pub enum Doc {
    Null,
    Bool(bool),
    /// A number, as it is written in decimal.
    Num(String),
    Str(String),
    List(Vec<Doc>),
    /// Members in the order in which the reader hands them out: those of YAML as
    /// they stand in the text, those of JSON and TOML by their keys.
    Table(Vec<(Doc, Doc)>),
    /// A value under a YAML tag.
    Tagged(String, Box<Doc>),
}

pub enum DocView {
    Null,
    Bool(bool),
    Num(Seq<char>),
    Str(Seq<char>),
    List(Seq<DocView>),
    Table(Seq<(DocView, DocView)>),
    Tagged(Seq<char>, Box<DocView>),
}

impl Doc {
    pub open spec fn tree(self) -> DocView
        decreases self,
    {
        match self {
            Doc::Null => DocView::Null,
            Doc::Bool(b) => DocView::Bool(b),
            Doc::Num(s) => DocView::Num(s@),
            Doc::Str(s) => DocView::Str(s@),
            Doc::List(v) => DocView::List(
                Seq::new(
                    v@.len(),
                    |i: int|
                        if 0 <= i < v@.len() {
                            v@[i].tree()
                        } else {
                            DocView::Null
                        },
                ),
            ),
            Doc::Table(v) => DocView::Table(
                Seq::new(
                    v@.len(),
                    |i: int|
                        if 0 <= i < v@.len() {
                            (v@[i].0.tree(), v@[i].1.tree())
                        } else {
                            (DocView::Null, DocView::Null)
                        },
                ),
            ),
            Doc::Tagged(t, d) => DocView::Tagged(t@, Box::new(d.tree())),
        }
    }
}

impl View for Doc {
    type V = DocView;

    open spec fn view(&self) -> DocView {
        self.tree()
    }
}

pub open spec fn doc_views(v: Seq<Doc>) -> Seq<DocView> {
    v.map_values(|d: Doc| d@)
}

pub open spec fn member_views(v: Seq<(Doc, Doc)>) -> Seq<(DocView, DocView)> {
    v.map_values(|m: (Doc, Doc)| (m.0@, m.1@))
}

/// A value of `serde_json`.
#[verifier::external_type_specification]
#[verifier::external_body]
pub struct ExJsonValue(serde_json::Value);

/// What a value of `serde_json` holds.
pub uninterp spec fn json_tree(v: serde_json::Value) -> DocView;

/// What a JSON text holds; where it is not JSON, what `serde_json` says of it.
pub uninterp spec fn json_text(text: Seq<u8>) -> Result<DocView, Seq<char>>;

/// One level of a document: the values below it as they were.
pub enum JsonNode {
    Null,
    Bool(bool),
    Num(String),
    Str(String),
    List(Vec<serde_json::Value>),
    Table(Vec<(String, serde_json::Value)>),
}

/// `serde_json::from_slice`, to a value: what the value holds, or what the
/// error says, is a function of the text alone.
#[verifier::external_body]
fn json_from_slice(text: &[u8]) -> (r: Result<serde_json::Value, String>)
    ensures
        match r {
            Ok(v) => json_text(text@) == Ok::<DocView, Seq<char>>(json_tree(v)),
            Err(e) => json_text(text@) == Err::<DocView, Seq<char>>(e@),
        },
{
    serde_json::from_slice(text).map_err(|e| e.to_string())
}

/// The variants of `serde_json::Value`, told apart: a number as its text, an
/// object as its members.
#[verifier::external_body]
fn json_node(v: serde_json::Value) -> (n: JsonNode)
    ensures
        match n {
            JsonNode::Null => json_tree(v) == DocView::Null,
            JsonNode::Bool(b) => json_tree(v) == DocView::Bool(b),
            JsonNode::Num(s) => json_tree(v) == DocView::Num(s@),
            JsonNode::Str(s) => json_tree(v) == DocView::Str(s@),
            JsonNode::List(l) => json_tree(v) == DocView::List(
                l@.map_values(|x: serde_json::Value| json_tree(x)),
            ),
            JsonNode::Table(t) => json_tree(v) == DocView::Table(
                t@.map_values(
                    |m: (String, serde_json::Value)| (DocView::Str(m.0@), json_tree(m.1)),
                ),
            ),
        },
{
    match v {
        serde_json::Value::Null => JsonNode::Null,
        serde_json::Value::Bool(b) => JsonNode::Bool(b),
        serde_json::Value::Number(n) => JsonNode::Num(n.to_string()),
        serde_json::Value::String(s) => JsonNode::Str(s),
        serde_json::Value::Array(l) => JsonNode::List(l),
        serde_json::Value::Object(t) => JsonNode::Table(t.into_iter().collect()),
    }
}

fn json_doc(v: serde_json::Value) -> (d: Doc)
    ensures
        d@ == json_tree(v),
    decreases json_tree(v),
{
    match json_node(v) {
        JsonNode::Null => Doc::Null,
        JsonNode::Bool(b) => Doc::Bool(b),
        JsonNode::Num(s) => Doc::Num(s),
        JsonNode::Str(s) => Doc::Str(s),
        JsonNode::List(l) => {
            let ghost all = l@.map_values(|x: serde_json::Value| json_tree(x));
            let mut l: Vec<serde_json::Value> = l;
            let mut out: Vec<Doc> = Vec::new();
            let ghost n = l@.len();
            while l.len() > 0
                invariant
                    json_tree(v) == DocView::List(all),
                    n == all.len(),
                    l@.len() + out@.len() == n,
                    forall|i: int| 0 <= i < l@.len() ==> json_tree(#[trigger] l@[i]) == all[i + out@.len()],
                    forall|i: int| 0 <= i < out@.len() ==> (#[trigger] out@[i])@ == all[i],
                decreases l@.len(),
            {
                let x: serde_json::Value = l.remove(0);
                proof {
                    let t = json_tree(v);
                    let k = out@.len() as int;
                    assert(json_tree(x) == all[k]);
                    assert(decreases_to!(t => t->List_0));
                    assert(decreases_to!(t->List_0 => t->List_0[k]));
                }
                let d: Doc = json_doc(x);
                out.push(d);
            }
            let r: Doc = Doc::List(out);
            assert(r@->List_0 =~= all);
            r
        },
        JsonNode::Table(t) => {
            let ghost all = t@.map_values(
                |m: (String, serde_json::Value)| (DocView::Str(m.0@), json_tree(m.1)),
            );
            let mut t: Vec<(String, serde_json::Value)> = t;
            let mut out: Vec<(Doc, Doc)> = Vec::new();
            let ghost n = t@.len();
            while t.len() > 0
                invariant
                    json_tree(v) == DocView::Table(all),
                    n == all.len(),
                    t@.len() + out@.len() == n,
                    forall|i: int|
                        0 <= i < t@.len() ==> all[i + out@.len()] == (
                            DocView::Str((#[trigger] t@[i]).0@),
                            json_tree(t@[i].1),
                        ),
                    forall|i: int|
                        0 <= i < out@.len() ==> all[i] == ((#[trigger] out@[i]).0@, out@[i].1@),
                decreases t@.len(),
            {
                let (k, x) = t.remove(0);
                proof {
                    let t = json_tree(v);
                    let k = out@.len() as int;
                    assert(json_tree(x) == all[k].1);
                    assert(decreases_to!(t => t->Table_0));
                    assert(decreases_to!(t->Table_0 => t->Table_0[k]));
                    assert(decreases_to!(t->Table_0[k] => t->Table_0[k].1));
                }
                let d: Doc = json_doc(x);
                out.push((Doc::Str(k), d));
            }
            let r: Doc = Doc::Table(out);
            assert(r@->Table_0 =~= all);
            r
        },
    }
}

/// Read a JSON text.
pub fn parse_json(text: &[u8]) -> (r: Result<Doc, String>)
    ensures
        match r {
            Ok(d) => json_text(text@) == Ok::<DocView, Seq<char>>(d@),
            Err(e) => json_text(text@) == Err::<DocView, Seq<char>>(e@),
        },
{
    match json_from_slice(text) {
        Ok(v) => Ok(json_doc(v)),
        Err(e) => Err(e),
    }
}

/// A value of `serde_yaml`.
#[verifier::external_type_specification]
#[verifier::external_body]
pub struct ExYamlValue(serde_yaml::Value);

/// What a value of `serde_yaml` holds.
pub uninterp spec fn yaml_tree(v: serde_yaml::Value) -> DocView;

/// What a YAML text holds; where it is not YAML, what `serde_yaml` says of it.
pub uninterp spec fn yaml_text(text: Seq<char>) -> Result<DocView, Seq<char>>;

/// One level of a YAML document.
pub enum YamlNode {
    Null,
    Bool(bool),
    Num(String),
    Str(String),
    List(Vec<serde_yaml::Value>),
    Table(Vec<(serde_yaml::Value, serde_yaml::Value)>),
    Tagged(String, serde_yaml::Value),
}

/// `serde_yaml::from_str`, to a value: what the value holds, or what the
/// error says, is a function of the text alone.
#[verifier::external_body]
fn yaml_from_str(text: &str) -> (r: Result<serde_yaml::Value, String>)
    ensures
        match r {
            Ok(v) => yaml_text(text@) == Ok::<DocView, Seq<char>>(yaml_tree(v)),
            Err(e) => yaml_text(text@) == Err::<DocView, Seq<char>>(e@),
        },
{
    serde_yaml::from_str(text).map_err(|e| e.to_string())
}

/// The variants of `serde_yaml::Value`, told apart: a number as its text, a
/// mapping as its members, a tag as its text.
#[verifier::external_body]
fn yaml_node(v: serde_yaml::Value) -> (n: YamlNode)
    ensures
        match n {
            YamlNode::Null => yaml_tree(v) == DocView::Null,
            YamlNode::Bool(b) => yaml_tree(v) == DocView::Bool(b),
            YamlNode::Num(s) => yaml_tree(v) == DocView::Num(s@),
            YamlNode::Str(s) => yaml_tree(v) == DocView::Str(s@),
            YamlNode::List(l) => yaml_tree(v) == DocView::List(
                l@.map_values(|x: serde_yaml::Value| yaml_tree(x)),
            ),
            YamlNode::Table(t) => yaml_tree(v) == DocView::Table(
                t@.map_values(
                    |m: (serde_yaml::Value, serde_yaml::Value)| (yaml_tree(m.0), yaml_tree(m.1)),
                ),
            ),
            YamlNode::Tagged(t, x) => yaml_tree(v) == DocView::Tagged(t@, Box::new(yaml_tree(x))),
        },
{
    match v {
        serde_yaml::Value::Null => YamlNode::Null,
        serde_yaml::Value::Bool(b) => YamlNode::Bool(b),
        serde_yaml::Value::Number(n) => YamlNode::Num(n.to_string()),
        serde_yaml::Value::String(s) => YamlNode::Str(s),
        serde_yaml::Value::Sequence(l) => YamlNode::List(l),
        serde_yaml::Value::Mapping(t) => YamlNode::Table(t.into_iter().collect()),
        serde_yaml::Value::Tagged(t) => YamlNode::Tagged(t.tag.to_string(), t.value),
    }
}

fn yaml_doc(v: serde_yaml::Value) -> (d: Doc)
    ensures
        d@ == yaml_tree(v),
    decreases yaml_tree(v),
{
    match yaml_node(v) {
        YamlNode::Null => Doc::Null,
        YamlNode::Bool(b) => Doc::Bool(b),
        YamlNode::Num(s) => Doc::Num(s),
        YamlNode::Str(s) => Doc::Str(s),
        YamlNode::Tagged(t, x) => {
            proof {
                let y = yaml_tree(v);
                assert(yaml_tree(x) == *y->Tagged_1);
                assert(decreases_to!(y => *y->Tagged_1));
            }
            let d: Doc = yaml_doc(x);
            Doc::Tagged(t, Box::new(d))
        },
        YamlNode::List(l) => {
            let ghost all = l@.map_values(|x: serde_yaml::Value| yaml_tree(x));
            let mut l: Vec<serde_yaml::Value> = l;
            let mut out: Vec<Doc> = Vec::new();
            let ghost n = l@.len();
            while l.len() > 0
                invariant
                    yaml_tree(v) == DocView::List(all),
                    n == all.len(),
                    l@.len() + out@.len() == n,
                    forall|i: int| 0 <= i < l@.len() ==> yaml_tree(#[trigger] l@[i]) == all[i + out@.len()],
                    forall|i: int| 0 <= i < out@.len() ==> (#[trigger] out@[i])@ == all[i],
                decreases l@.len(),
            {
                let x: serde_yaml::Value = l.remove(0);
                proof {
                    let t = yaml_tree(v);
                    let k = out@.len() as int;
                    assert(yaml_tree(x) == all[k]);
                    assert(decreases_to!(t => t->List_0));
                    assert(decreases_to!(t->List_0 => t->List_0[k]));
                }
                let d: Doc = yaml_doc(x);
                out.push(d);
            }
            let r: Doc = Doc::List(out);
            assert(r@->List_0 =~= all);
            r
        },
        YamlNode::Table(t) => {
            let ghost all = t@.map_values(
                |m: (serde_yaml::Value, serde_yaml::Value)| (yaml_tree(m.0), yaml_tree(m.1)),
            );
            let mut t: Vec<(serde_yaml::Value, serde_yaml::Value)> = t;
            let mut out: Vec<(Doc, Doc)> = Vec::new();
            let ghost n = t@.len();
            while t.len() > 0
                invariant
                    yaml_tree(v) == DocView::Table(all),
                    n == all.len(),
                    t@.len() + out@.len() == n,
                    forall|i: int|
                        0 <= i < t@.len() ==> all[i + out@.len()] == (
                            yaml_tree((#[trigger] t@[i]).0),
                            yaml_tree(t@[i].1),
                        ),
                    forall|i: int|
                        0 <= i < out@.len() ==> all[i] == ((#[trigger] out@[i]).0@, out@[i].1@),
                decreases t@.len(),
            {
                let (k, x) = t.remove(0);
                proof {
                    let y = yaml_tree(v);
                    let j = out@.len() as int;
                    assert(yaml_tree(k) == all[j].0);
                    assert(yaml_tree(x) == all[j].1);
                    assert(decreases_to!(y => y->Table_0));
                    assert(decreases_to!(y->Table_0 => y->Table_0[j]));
                    assert(decreases_to!(y->Table_0[j] => y->Table_0[j].0));
                    assert(decreases_to!(y->Table_0[j] => y->Table_0[j].1));
                }
                let key: Doc = yaml_doc(k);
                let d: Doc = yaml_doc(x);
                out.push((key, d));
            }
            let r: Doc = Doc::Table(out);
            assert(r@->Table_0 =~= all);
            r
        },
    }
}

/// Read a YAML text.
pub fn parse_yaml(text: &str) -> (r: Result<Doc, String>)
    ensures
        match r {
            Ok(d) => yaml_text(text@) == Ok::<DocView, Seq<char>>(d@),
            Err(e) => yaml_text(text@) == Err::<DocView, Seq<char>>(e@),
        },
{
    match yaml_from_str(text) {
        Ok(v) => Ok(yaml_doc(v)),
        Err(e) => Err(e),
    }
}

// --- reading ------------------------------------------------------------------

/// The value below any tags.
pub open spec fn untagged(d: DocView) -> DocView
    decreases d,
{
    match d {
        DocView::Tagged(_, x) => untagged(*x),
        _ => d,
    }
}

/// Where a table has a key.
pub open spec fn position(m: Seq<(DocView, DocView)>, key: DocView) -> Option<int>
    decreases m.len(),
{
    if m.len() == 0 {
        None
    } else {
        match position(m.drop_last(), key) {
            Some(i) => Some(i),
            None => if m.last().0 == key {
                Some(m.len() - 1)
            } else {
                None
            },
        }
    }
}

/// A position lies within the table and holds the key; without one, no member
/// has it.
pub proof fn lemma_position(m: Seq<(DocView, DocView)>, key: DocView)
    ensures
        match position(m, key) {
            Some(i) => 0 <= i < m.len() && m[i].0 == key && forall|j: int|
                0 <= j < i ==> (#[trigger] m[j]).0 != key,
            None => forall|j: int| 0 <= j < m.len() ==> (#[trigger] m[j]).0 != key,
        },
    decreases m.len(),
{
    if m.len() > 0 {
        let short = m.drop_last();
        lemma_position(short, key);
        match position(short, key) {
            Some(i) => {
                assert(short[i] == m[i]);
                assert forall|j: int| 0 <= j < i implies (#[trigger] m[j]).0 != key by {
                    assert(short[j] == m[j]);
                }
            },
            None => {
                assert forall|j: int| 0 <= j < m.len() - 1 implies (#[trigger] m[j]).0 != key by {
                    assert(short[j] == m[j]);
                }
            },
        }
    }
}

/// The member of a table under a key; null where there is none, or no table.
pub open spec fn field(d: DocView, key: Seq<char>) -> DocView {
    match untagged(d) {
        DocView::Table(m) => match position(m, DocView::Str(key)) {
            Some(i) => m[i].1,
            None => DocView::Null,
        },
        _ => DocView::Null,
    }
}

/// The text that a value is.
pub open spec fn text_of(d: DocView) -> Option<Seq<char>> {
    match untagged(d) {
        DocView::Str(s) => Some(s),
        _ => None,
    }
}

/// The items of a list; none where it is no list.
pub open spec fn items_of(d: DocView) -> Seq<DocView> {
    match untagged(d) {
        DocView::List(l) => l,
        _ => Seq::empty(),
    }
}

/// The unsigned number that a value is.
pub open spec fn number_of(d: DocView) -> Option<nat> {
    match untagged(d) {
        DocView::Num(s) => crate::text::parse_dec(s, u64::MAX as nat),
        _ => None,
    }
}

fn untag(d: &Doc) -> (r: &Doc)
    ensures
        r@ == untagged(d@),
        !(r is Tagged),
    decreases d,
{
    match d {
        Doc::Tagged(_, x) => untag(x),
        _ => d,
    }
}

fn is_text(d: &Doc, key: &str) -> (r: bool)
    ensures
        r == (d@ == DocView::Str(key@)),
{
    match d {
        Doc::Str(s) => same(s.as_str(), key),
        _ => false,
    }
}

pub(crate) fn find_key(m: &Vec<(Doc, Doc)>, key: &str) -> (r: Option<usize>)
    ensures
        match r {
            Some(i) => position(member_views(m@), DocView::Str(key@)) == Some(i as int) && i < m@.len(),
            None => position(member_views(m@), DocView::Str(key@)) is None,
        },
{
    let ghost mv = member_views(m@);
    let ghost k = DocView::Str(key@);
    let mut i: usize = 0;
    assert(mv.take(0) =~= Seq::empty());
    while i < m.len()
        invariant
            i <= m@.len(),
            mv == member_views(m@),
            k == DocView::Str(key@),
            position(mv.take(i as int), k) is None,
        decreases m@.len() - i,
    {
        let ghost longer = mv.take(i as int + 1);
        proof {
            assert(longer.drop_last() =~= mv.take(i as int));
            assert(longer.last() == mv[i as int]);
        }
        if is_text(&m[i].0, key) {
            proof {
                assert(position(longer, k) == Some(i as int));
                lemma_position_grows(mv, k, i as int + 1);
            }
            return Some(i);
        }
        i = i + 1;
    }
    assert(mv.take(m@.len() as int) =~= mv);
    None
}

proof fn lemma_position_grows(m: Seq<(DocView, DocView)>, key: DocView, n: int)
    requires
        0 <= n <= m.len(),
        position(m.take(n), key) is Some,
    ensures
        position(m, key) == position(m.take(n), key),
    decreases m.len(),
{
    if n < m.len() {
        assert(m.drop_last().take(n) =~= m.take(n));
        lemma_position_grows(m.drop_last(), key, n);
    } else {
        assert(m.take(n) =~= m);
    }
}

/// The views of a list and of a table, member by member.
pub proof fn lemma_tree(d: Doc)
    ensures
        d matches Doc::List(v) ==> d@ == DocView::List(doc_views(v@)),
        d matches Doc::Table(v) ==> d@ == DocView::Table(member_views(v@)),
{
    match d {
        Doc::List(v) => {
            assert(d@->List_0 =~= doc_views(v@));
        },
        Doc::Table(v) => {
            assert(d@->Table_0 =~= member_views(v@));
        },
        _ => {},
    }
}

/// The member under a key, where there is one.
pub fn get<'a>(d: &'a Doc, key: &str) -> (r: Option<&'a Doc>)
    ensures
        match r {
            Some(x) => untagged(d@) is Table && position(
                untagged(d@)->Table_0,
                DocView::Str(key@),
            ) is Some && x@ == field(d@, key@),
            None => field(d@, key@) == DocView::Null && (untagged(d@) is Table ==> position(
                untagged(d@)->Table_0,
                DocView::Str(key@),
            ) is None),
        },
{
    let u: &Doc = untag(d);
    proof {
        lemma_tree(*u);
    }
    match u {
        Doc::Table(m) => match find_key(m, key) {
            Some(i) => {
                assert(member_views(m@)[i as int].1 == m@[i as int].1@);
                Some(&m[i].1)
            },
            None => None,
        },
        _ => None,
    }
}

/// Whether a value is null.
pub fn is_null(d: &Doc) -> (r: bool)
    ensures
        r == (untagged(d@) == DocView::Null),
{
    matches!(untag(d), Doc::Null)
}

/// The text that a value is.
pub fn as_text(d: &Doc) -> (r: Option<String>)
    ensures
        crate::text::opt_view(r) == text_of(d@),
{
    match untag(d) {
        Doc::Str(s) => Some(owned(s.as_str())),
        _ => None,
    }
}

/// The text under a key of a table.
pub fn text_field(d: &Doc, key: &str) -> (r: Option<String>)
    ensures
        crate::text::opt_view(r) == text_of(field(d@, key@)),
{
    match get(d, key) {
        Some(x) => as_text(x),
        None => None,
    }
}

/// The unsigned number under a key of a table.
pub fn number_field(d: &Doc, key: &str) -> (r: Option<u64>)
    ensures
        match r {
            Some(n) => number_of(field(d@, key@)) == Some(n as nat),
            None => number_of(field(d@, key@)) is None,
        },
{
    match get(d, key) {
        Some(x) => match untag(x) {
            Doc::Num(s) => parse_u64(s.as_str()),
            _ => None,
        },
        None => None,
    }
}

/// The items of a list, where it is one.
pub fn as_list(d: &Doc) -> (r: Option<&Vec<Doc>>)
    ensures
        match r {
            Some(l) => untagged(d@) == DocView::List(doc_views(l@)),
            None => !(untagged(d@) is List),
        },
{
    let u: &Doc = untag(d);
    proof {
        lemma_tree(*u);
    }
    match u {
        Doc::List(l) => Some(l),
        _ => None,
    }
}

// --- paths ----------------------------------------------------------------------

/// A step into a document.
#[derive(Debug)]
pub enum Step {
    /// The member of a table under a key.
    Key(String),
    /// The item of a list, or the member of a table under a number.
    Item(usize),
}

pub enum StepView {
    Key(Seq<char>),
    Item(nat),
}

impl View for Step {
    type V = StepView;

    open spec fn view(&self) -> StepView {
        match self {
            Step::Key(k) => StepView::Key(k@),
            Step::Item(i) => StepView::Item(*i as nat),
        }
    }
}

pub open spec fn step_views(v: Seq<Step>) -> Seq<StepView> {
    v.map_values(|s: Step| s@)
}

/// The key of a table that a step means.
pub open spec fn key_of(s: StepView) -> DocView {
    match s {
        StepView::Key(k) => DocView::Str(k),
        StepView::Item(i) => DocView::Num(crate::text::decimal(i)),
    }
}

/// Where a step leads; to null where it leads nowhere.
pub open spec fn stepped(d: DocView, s: StepView) -> DocView {
    match (untagged(d), s) {
        (DocView::List(l), StepView::Item(i)) => if i < l.len() {
            l[i as int]
        } else {
            DocView::Null
        },
        (DocView::Table(m), _) => match position(m, key_of(s)) {
            Some(i) => m[i].1,
            None => DocView::Null,
        },
        _ => DocView::Null,
    }
}

/// Where a path leads.
pub open spec fn at_path(d: DocView, path: Seq<StepView>) -> DocView
    decreases path.len(),
{
    if path.len() == 0 {
        d
    } else {
        stepped(at_path(d, path.drop_last()), path.last())
    }
}

/// A document with a value at the end of a path. A key that is missing is
/// added, and null counts as an empty table; none where the path leads into
/// something that has no such places.
pub open spec fn set_at(d: DocView, path: Seq<StepView>, v: DocView) -> Option<DocView>
    decreases path.len(), d,
{
    if path.len() == 0 {
        Some(v)
    } else {
        let rest = path.skip(1);
        match (path[0], d) {
            (StepView::Key(_), DocView::Tagged(t, x)) => if untagged(*x) == DocView::Null {
                None
            } else {
                match set_at(*x, path, v) {
                    Some(y) => Some(DocView::Tagged(t, Box::new(y))),
                    None => None,
                }
            },
            (StepView::Item(_), DocView::Tagged(t, x)) => match set_at(*x, path, v) {
                Some(y) => Some(DocView::Tagged(t, Box::new(y))),
                None => None,
            },
            (StepView::Key(k), DocView::Null) => match set_at(DocView::Null, rest, v) {
                Some(y) => Some(DocView::Table(seq![(DocView::Str(k), y)])),
                None => None,
            },
            (StepView::Item(i), DocView::List(l)) => if i < l.len() {
                match set_at(l[i as int], rest, v) {
                    Some(y) => Some(DocView::List(l.update(i as int, y))),
                    None => None,
                }
            } else {
                None
            },
            (s, DocView::Table(m)) => match position(m, key_of(s)) {
                Some(i) => match set_at(m[i].1, rest, v) {
                    Some(y) => Some(DocView::Table(m.update(i, (m[i].0, y)))),
                    None => None,
                },
                None => match set_at(DocView::Null, rest, v) {
                    Some(y) => Some(DocView::Table(m.push((key_of(s), y)))),
                    None => None,
                },
            },
            _ => None,
        }
    }
}

fn is_num(d: &Doc, digits: &str) -> (r: bool)
    ensures
        r == (d@ == DocView::Num(digits@)),
{
    match d {
        Doc::Num(s) => same(s.as_str(), digits),
        _ => false,
    }
}

fn find_step(m: &Vec<(Doc, Doc)>, step: &Step) -> (r: Option<usize>)
    ensures
        match r {
            Some(i) => position(member_views(m@), key_of(step@)) == Some(i as int) && i < m@.len(),
            None => position(member_views(m@), key_of(step@)) is None,
        },
{
    match step {
        Step::Key(k) => find_key(m, k.as_str()),
        Step::Item(n) => {
            let digits: String = crate::text::decimal_str(*n as u64);
            let ghost mv = member_views(m@);
            let ghost k = DocView::Num(digits@);
            let mut i: usize = 0;
            assert(mv.take(0) =~= Seq::empty());
            while i < m.len()
                invariant
                    i <= m@.len(),
                    mv == member_views(m@),
                    k == DocView::Num(digits@),
                    k == key_of(step@),
                    position(mv.take(i as int), k) is None,
                decreases m@.len() - i,
            {
                let ghost longer = mv.take(i as int + 1);
                proof {
                    assert(longer.drop_last() =~= mv.take(i as int));
                    assert(longer.last() == mv[i as int]);
                }
                if is_num(&m[i].0, digits.as_str()) {
                    proof {
                        assert(position(longer, k) == Some(i as int));
                        lemma_position_grows(mv, k, i as int + 1);
                    }
                    return Some(i);
                }
                i = i + 1;
            }
            assert(mv.take(m@.len() as int) =~= mv);
            None
        },
    }
}

fn key_doc(step: &Step) -> (d: Doc)
    ensures
        d@ == key_of(step@),
{
    match step {
        Step::Key(k) => Doc::Str(owned(k.as_str())),
        Step::Item(n) => Doc::Num(crate::text::decimal_str(*n as u64)),
    }
}

/// The value where a step leads, if it leads anywhere.
pub fn step_into<'a>(d: &'a Doc, step: &Step) -> (r: Option<&'a Doc>)
    ensures
        match r {
            Some(x) => x@ == stepped(d@, step@),
            None => stepped(d@, step@) == DocView::Null,
        },
{
    let u: &Doc = untag(d);
    proof {
        lemma_tree(*u);
    }
    match u {
        Doc::List(l) => match step {
            Step::Item(i) => if *i < l.len() {
                assert(doc_views(l@)[*i as int] == l@[*i as int]@);
                Some(&l[*i])
            } else {
                None
            },
            Step::Key(_) => None,
        },
        Doc::Table(m) => match find_step(m, step) {
            Some(i) => {
                assert(member_views(m@)[i as int].1 == m@[i as int].1@);
                Some(&m[i].1)
            },
            None => None,
        },
        _ => None,
    }
}

/// A copy of the value at the end of a path.
pub fn copy_at(d: &Doc, path: &Vec<Step>) -> (r: Doc)
    ensures
        r@ == at_path(d@, step_views(path@)),
{
    let ghost pv = step_views(path@);
    let mut cur: &Doc = d;
    let mut i: usize = 0;
    assert(pv.take(0) =~= Seq::empty());
    while i < path.len()
        invariant
            i <= path@.len(),
            pv == step_views(path@),
            cur@ == at_path(d@, pv.take(i as int)),
        decreases path@.len() - i,
    {
        proof {
            let longer = pv.take(i as int + 1);
            assert(longer.drop_last() =~= pv.take(i as int));
            assert(longer.last() == path@[i as int]@);
        }
        match step_into(cur, &path[i]) {
            Some(x) => {
                cur = x;
            },
            None => {
                proof {
                    lemma_null_path(d@, pv, i as int + 1);
                    assert(pv.take(path@.len() as int) =~= pv);
                }
                return Doc::Null;
            },
        }
        i = i + 1;
    }
    assert(pv.take(path@.len() as int) =~= pv);
    copy(cur)
}

proof fn lemma_null_path(d: DocView, path: Seq<StepView>, n: int)
    requires
        0 <= n <= path.len(),
        at_path(d, path.take(n)) == DocView::Null,
    ensures
        at_path(d, path) == DocView::Null,
    decreases path.len(),
{
    if n == path.len() {
        assert(path.take(n) =~= path);
    } else {
        assert(path.drop_last().take(n) =~= path.take(n));
        lemma_null_path(d, path.drop_last(), n);
    }
}

/// A copy of a document.
pub fn copy(d: &Doc) -> (r: Doc)
    ensures
        r@ == d@,
    decreases d,
{
    match d {
        Doc::Null => Doc::Null,
        Doc::Bool(b) => Doc::Bool(*b),
        Doc::Num(s) => Doc::Num(owned(s.as_str())),
        Doc::Str(s) => Doc::Str(owned(s.as_str())),
        Doc::Tagged(t, x) => {
            let y: Doc = copy(x);
            Doc::Tagged(owned(t.as_str()), Box::new(y))
        },
        Doc::List(l) => {
            let mut out: Vec<Doc> = Vec::new();
            let mut i: usize = 0;
            while i < l.len()
                invariant
                    d == Doc::List(*l),
                    i <= l@.len(),
                    out@.len() == i,
                    forall|j: int| 0 <= j < i ==> (#[trigger] out@[j])@ == l@[j]@,
                decreases l@.len() - i,
            {
                proof {
                    assert(decreases_to!(*d => d->List_0));
                    assert(decreases_to!(d->List_0 => d->List_0@));
                    assert(decreases_to!(d->List_0@ => d->List_0@[i as int]));
                }
                let x: Doc = copy(&l[i]);
                out.push(x);
                i = i + 1;
            }
            let r: Doc = Doc::List(out);
            assert(r@->List_0 =~= d@->List_0);
            r
        },
        Doc::Table(m) => {
            let mut out: Vec<(Doc, Doc)> = Vec::new();
            let mut i: usize = 0;
            while i < m.len()
                invariant
                    d == Doc::Table(*m),
                    i <= m@.len(),
                    out@.len() == i,
                    forall|j: int|
                        0 <= j < i ==> (#[trigger] out@[j]).0@ == m@[j].0@ && out@[j].1@ == m@[j].1@,
                decreases m@.len() - i,
            {
                proof {
                    assert(decreases_to!(*d => d->Table_0));
                    assert(decreases_to!(d->Table_0 => d->Table_0@));
                    assert(decreases_to!(d->Table_0@ => d->Table_0@[i as int]));
                    assert(decreases_to!(d->Table_0@[i as int] => d->Table_0@[i as int].0));
                    assert(decreases_to!(d->Table_0@[i as int] => d->Table_0@[i as int].1));
                }
                let k: Doc = copy(&m[i].0);
                let x: Doc = copy(&m[i].1);
                out.push((k, x));
                i = i + 1;
            }
            let r: Doc = Doc::Table(out);
            assert(r@->Table_0 =~= d@->Table_0);
            r
        },
    }
}

fn set_from(d: Doc, path: &Vec<Step>, at: usize, v: Doc) -> (r: Option<Doc>)
    requires
        at <= path@.len(),
    ensures
        match r {
            Some(x) => set_at(d@, step_views(path@).skip(at as int), v@) == Some(x@),
            None => set_at(d@, step_views(path@).skip(at as int), v@) is None,
        },
    decreases path@.len() - at, d,
{
    let ghost pv = step_views(path@).skip(at as int);
    let ghost dv = d@;
    if at == path.len() {
        return Some(v);
    }
    proof {
        assert(pv[0] == path@[at as int]@);
        assert(pv.skip(1) =~= step_views(path@).skip(at as int + 1));
        lemma_tree(d);
    }
    match d {
        Doc::Tagged(t, x) => {
            let blocked: bool = match &path[at] {
                Step::Key(_) => is_null(&x),
                Step::Item(_) => false,
            };
            if blocked {
                return None;
            }
            match set_from(*x, path, at, v) {
                Some(y) => Some(Doc::Tagged(t, Box::new(y))),
                None => None,
            }
        },
        Doc::Null => match &path[at] {
            Step::Key(k) => match set_from(Doc::Null, path, at + 1, v) {
                Some(y) => {
                    let ghost yv = y@;
                    let key: Doc = Doc::Str(owned(k.as_str()));
                    let ghost kv = key@;
                    let mut m: Vec<(Doc, Doc)> = Vec::new();
                    m.push((key, y));
                    let r: Doc = Doc::Table(m);
                    assert(r@->Table_0 =~= seq![(kv, yv)]);
                    Some(r)
                },
                None => None,
            },
            Step::Item(_) => None,
        },
        Doc::List(l) => match &path[at] {
            Step::Key(_) => None,
            Step::Item(i) => {
                if *i >= l.len() {
                    return None;
                }
                let ghost all = doc_views(l@);
                let mut l: Vec<Doc> = l;
                let x: Doc = l.remove(*i);
                assert(x@ == all[*i as int]);
                match set_from(x, path, at + 1, v) {
                    Some(y) => {
                        let ghost yv = y@;
                        l.insert(*i, y);
                        let r: Doc = Doc::List(l);
                        assert(r@->List_0 =~= all.update(*i as int, yv));
                        Some(r)
                    },
                    None => None,
                }
            },
        },
        Doc::Table(m) => {
            let ghost all = member_views(m@);
            match find_step(&m, &path[at]) {
                Some(i) => {
                    let mut m: Vec<(Doc, Doc)> = m;
                    let (k, x) = m.remove(i);
                    assert((k@, x@) == all[i as int]);
                    match set_from(x, path, at + 1, v) {
                        Some(y) => {
                            let ghost yv = y@;
                            m.insert(i, (k, y));
                            let r: Doc = Doc::Table(m);
                            assert(r@->Table_0 =~= all.update(i as int, (all[i as int].0, yv)));
                            Some(r)
                        },
                        None => None,
                    }
                },
                None => match set_from(Doc::Null, path, at + 1, v) {
                    Some(y) => {
                        let mut m: Vec<(Doc, Doc)> = m;
                        let ghost yv = y@;
                        let k: Doc = key_doc(&path[at]);
                        let ghost kv = k@;
                        m.push((k, y));
                        let r: Doc = Doc::Table(m);
                        assert(r@->Table_0 =~= all.push((kv, yv)));
                        Some(r)
                    },
                    None => None,
                },
            }
        },
        _ => None,
    }
}

/// Set the value at the end of a path.
pub fn assign(d: Doc, path: &Vec<Step>, v: Doc) -> (r: Option<Doc>)
    ensures
        match r {
            Some(x) => set_at(d@, step_views(path@), v@) == Some(x@),
            None => set_at(d@, step_views(path@), v@) is None,
        },
{
    assert(step_views(path@).skip(0) =~= step_views(path@));
    set_from(d, path, 0, v)
}

// What a document says after a change.

/// Whether two steps lead to different places of one document.
pub open spec fn apart(a: StepView, b: StepView) -> bool {
    match (a, b) {
        (StepView::Key(x), StepView::Key(y)) => x != y,
        (StepView::Item(i), StepView::Item(j)) => i != j,
        _ => true,
    }
}

/// Whether two paths part ways before either ends.
pub open spec fn part_ways(a: Seq<StepView>, b: Seq<StepView>) -> bool {
    exists|n: int|
        0 <= n < a.len() && n < b.len() && a.take(n) == b.take(n) && apart(
            #[trigger] a[n],
            b[n],
        )
}

proof fn lemma_apart(a: StepView, b: StepView)
    requires
        apart(a, b),
    ensures
        key_of(a) != key_of(b),
{
    if let (StepView::Item(i), StepView::Item(j)) = (a, b) {
        crate::text::decimal_reads_back(i);
        crate::text::decimal_reads_back(j);
    }
}

proof fn lemma_keys_only(a: Seq<(DocView, DocView)>, b: Seq<(DocView, DocView)>, k: DocView)
    requires
        a.len() == b.len(),
        forall|j: int| 0 <= j < a.len() ==> (#[trigger] b[j]).0 == a[j].0,
    ensures
        position(a, k) == position(b, k),
    decreases a.len(),
{
    if a.len() > 0 {
        let (x, y) = (a.drop_last(), b.drop_last());
        assert forall|j: int| 0 <= j < x.len() implies (#[trigger] y[j]).0 == x[j].0 by {
            assert(b[j].0 == a[j].0);
        }
        lemma_keys_only(x, y, k);
        assert(b[b.len() - 1].0 == a[a.len() - 1].0);
    }
}

proof fn lemma_first_step(d: DocView, path: Seq<StepView>)
    requires
        path.len() > 0,
    ensures
        at_path(d, path) == at_path(stepped(d, path[0]), path.skip(1)),
    decreases path.len(),
{
    if path.len() == 1 {
        assert(path.drop_last() =~= Seq::empty());
        assert(path.skip(1) =~= Seq::empty());
        assert(at_path(d, Seq::<StepView>::empty()) == d);
    } else {
        lemma_first_step(d, path.drop_last());
        assert(path.drop_last().skip(1) =~= path.skip(1).drop_last());
        assert(path.skip(1).last() == path.last());
    }
}

proof fn lemma_set_step(d: DocView, path: Seq<StepView>, v: DocView, s: StepView)
    requires
        path.len() > 0,
        set_at(d, path, v) is Some,
    ensures
        ({
            let r = set_at(d, path, v)->0;
            &&& set_at(stepped(d, path[0]), path.skip(1), v) == Some(stepped(r, path[0]))
            &&& apart(path[0], s) ==> stepped(r, s) == stepped(d, s)
        }),
    decreases d,
{
    let r = set_at(d, path, v)->0;
    let rest = path.skip(1);
    if apart(path[0], s) {
        lemma_apart(path[0], s);
    }
    match d {
        DocView::Tagged(t, x) => {
            lemma_set_step(*x, path, v, s);
        },
        DocView::Table(m) => {
            let n = r->Table_0;
            let (k, o) = (key_of(path[0]), key_of(s));
            lemma_position(m, k);
            lemma_position(m, o);
            match position(m, k) {
                Some(i) => {
                    lemma_keys_only(m, n, k);
                    lemma_keys_only(m, n, o);
                },
                None => {
                    assert(n.drop_last() =~= m);
                },
            }
        },
        DocView::Null => {
            let n = r->Table_0;
            assert(n.drop_last() =~= Seq::empty());
            assert(position(n.drop_last(), key_of(path[0])) is None);
            assert(position(n.drop_last(), key_of(s)) is None);
        },
        _ => {},
    }
}

/// What is set at the end of a path is what the path leads to.
pub proof fn what_is_set_is_read(d: DocView, path: Seq<StepView>, v: DocView)
    requires
        set_at(d, path, v) is Some,
    ensures
        at_path(set_at(d, path, v)->0, path) == v,
    decreases path.len(),
{
    if path.len() > 0 {
        let r = set_at(d, path, v)->0;
        lemma_set_step(d, path, v, path[0]);
        lemma_first_step(r, path);
        what_is_set_is_read(stepped(d, path[0]), path.skip(1), v);
    }
}

/// A path that parts ways with the one at whose end a value is set leads to
/// what it led to before.
pub proof fn the_rest_is_left_alone(
    d: DocView,
    path: Seq<StepView>,
    v: DocView,
    other: Seq<StepView>,
)
    requires
        set_at(d, path, v) is Some,
        part_ways(path, other),
    ensures
        at_path(set_at(d, path, v)->0, other) == at_path(d, other),
    decreases path.len(),
{
    let n = choose|n: int|
        0 <= n < path.len() && n < other.len() && path.take(n) == other.take(n) && apart(
            #[trigger] path[n],
            other[n],
        );
    let r = set_at(d, path, v)->0;
    lemma_set_step(d, path, v, other[0]);
    lemma_first_step(r, other);
    lemma_first_step(d, other);
    if n > 0 {
        assert(path.take(n)[0] == other.take(n)[0]);
        let (p, o) = (path.skip(1), other.skip(1));
        assert(p.take(n - 1) =~= path.take(n).skip(1));
        assert(o.take(n - 1) =~= other.take(n).skip(1));
        assert(apart(p[n - 1], o[n - 1]));
        the_rest_is_left_alone(stepped(d, path[0]), p, v, o);
    }
}

/// A value can be set under a key of a table, below any tags, and of null, and
/// of nothing else.
pub proof fn where_a_member_can_be_set(d: DocView, k: Seq<char>, v: DocView)
    ensures
        set_at(d, seq![StepView::Key(k)], v) is Some <==> (untagged(d) is Table || d is Null),
        set_at(d, seq![StepView::Key(k)], v) matches Some(r) ==> untagged(r) is Table,
    decreases d,
{
    reveal_with_fuel(set_at, 2);
    let path = seq![StepView::Key(k)];
    assert(path.skip(1) =~= Seq::empty());
    if let DocView::Tagged(_, x) = d {
        where_a_member_can_be_set(*x, k, v);
    }
}

/// The member under a key is set, and no other.
pub proof fn one_member_is_set(d: DocView, k: Seq<char>, v: DocView, other: Seq<char>)
    requires
        set_at(d, seq![StepView::Key(k)], v) is Some,
    ensures
        field(set_at(d, seq![StepView::Key(k)], v)->0, k) == v,
        other != k ==> field(set_at(d, seq![StepView::Key(k)], v)->0, other) == field(d, other),
{
    let path = seq![StepView::Key(k)];
    let q = seq![StepView::Key(other)];
    let r = set_at(d, path, v)->0;
    what_is_set_is_read(d, path, v);
    lemma_one_step(r, k);
    lemma_one_step(r, other);
    lemma_one_step(d, other);
    if other != k {
        assert(path.take(0) =~= q.take(0));
        assert(apart(path[0], q[0]));
        the_rest_is_left_alone(d, path, v, q);
    }
}

proof fn lemma_one_step(d: DocView, k: Seq<char>)
    ensures
        at_path(d, seq![StepView::Key(k)]) == field(d, k),
{
    let path = seq![StepView::Key(k)];
    assert(path.drop_last() =~= Seq::empty());
    assert(at_path(d, Seq::<StepView>::empty()) == d);
}

} // verus!
