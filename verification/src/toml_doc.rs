//! Reading TOML into documents.

use crate::doc::{Doc, DocView};
use vstd::prelude::*;

verus! {

/// A value of `toml`.
#[verifier::external_type_specification]
#[verifier::external_body]
pub struct ExTomlValue(toml::Value);

/// What a value of `toml` holds.
pub uninterp spec fn toml_tree(v: toml::Value) -> DocView;

/// What a TOML text holds; where it is not TOML, what `toml` says of it.
pub uninterp spec fn toml_text(text: Seq<char>) -> Result<DocView, Seq<char>>;

/// One level of a document: the values below it as they were.
pub enum TomlNode {
    Bool(bool),
    Num(String),
    Str(String),
    Time(String),
    List(Vec<toml::Value>),
    Table(Vec<(String, toml::Value)>),
}

/// `toml::from_str`, to a value: what the value holds, or what the error says,
/// is a function of the text alone.
#[verifier::external_body]
fn toml_from_str(text: &str) -> (r: Result<toml::Value, String>)
    ensures
        match r {
            Ok(v) => toml_text(text@) == Ok::<DocView, Seq<char>>(toml_tree(v)),
            Err(e) => toml_text(text@) == Err::<DocView, Seq<char>>(e@),
        },
{
    toml::from_str(text).map_err(|e| e.to_string())
}

/// The variants of `toml::Value`, told apart: an integer and a number with a
/// fraction as their text, a date as text with a tag, a table as its members.
#[verifier::external_body]
fn toml_node(v: toml::Value) -> (n: TomlNode)
    ensures
        match n {
            TomlNode::Bool(b) => toml_tree(v) == DocView::Bool(b),
            TomlNode::Num(s) => toml_tree(v) == DocView::Num(s@),
            TomlNode::Str(s) => toml_tree(v) == DocView::Str(s@),
            TomlNode::Time(s) => toml_tree(v) == DocView::Tagged(
                "datetime"@,
                Box::new(DocView::Str(s@)),
            ),
            TomlNode::List(l) => toml_tree(v) == DocView::List(
                l@.map_values(|x: toml::Value| toml_tree(x)),
            ),
            TomlNode::Table(t) => toml_tree(v) == DocView::Table(
                t@.map_values(|m: (String, toml::Value)| (DocView::Str(m.0@), toml_tree(m.1))),
            ),
        },
{
    match v {
        toml::Value::Boolean(b) => TomlNode::Bool(b),
        toml::Value::Integer(i) => TomlNode::Num(i.to_string()),
        toml::Value::Float(f) => TomlNode::Num(format!("{f:?}")),
        toml::Value::String(s) => TomlNode::Str(s),
        toml::Value::Datetime(d) => TomlNode::Time(d.to_string()),
        toml::Value::Array(l) => TomlNode::List(l),
        toml::Value::Table(t) => TomlNode::Table(t.into_iter().collect()),
    }
}

fn toml_doc(v: toml::Value) -> (d: Doc)
    ensures
        d@ == toml_tree(v),
    decreases toml_tree(v),
{
    match toml_node(v) {
        TomlNode::Bool(b) => Doc::Bool(b),
        TomlNode::Num(s) => Doc::Num(s),
        TomlNode::Str(s) => Doc::Str(s),
        TomlNode::Time(s) => {
            proof {
                reveal_with_fuel(Doc::tree, 2);
            }
            Doc::Tagged(crate::text::owned("datetime"), Box::new(Doc::Str(s)))
        },
        TomlNode::List(l) => {
            let ghost all = l@.map_values(|x: toml::Value| toml_tree(x));
            let mut l: Vec<toml::Value> = l;
            let mut out: Vec<Doc> = Vec::new();
            let ghost n = l@.len();
            while l.len() > 0
                invariant
                    toml_tree(v) == DocView::List(all),
                    n == all.len(),
                    l@.len() + out@.len() == n,
                    forall|i: int| 0 <= i < l@.len() ==> toml_tree(#[trigger] l@[i]) == all[i + out@.len()],
                    forall|i: int| 0 <= i < out@.len() ==> (#[trigger] out@[i])@ == all[i],
                decreases l@.len(),
            {
                let x: toml::Value = l.remove(0);
                proof {
                    let t = toml_tree(v);
                    let k = out@.len() as int;
                    assert(toml_tree(x) == all[k]);
                    assert(decreases_to!(t => t->List_0));
                    assert(decreases_to!(t->List_0 => t->List_0[k]));
                }
                let d: Doc = toml_doc(x);
                out.push(d);
            }
            let r: Doc = Doc::List(out);
            assert(r@->List_0 =~= all);
            r
        },
        TomlNode::Table(t) => {
            let ghost all = t@.map_values(
                |m: (String, toml::Value)| (DocView::Str(m.0@), toml_tree(m.1)),
            );
            let mut t: Vec<(String, toml::Value)> = t;
            let mut out: Vec<(Doc, Doc)> = Vec::new();
            let ghost n = t@.len();
            while t.len() > 0
                invariant
                    toml_tree(v) == DocView::Table(all),
                    n == all.len(),
                    t@.len() + out@.len() == n,
                    forall|i: int|
                        0 <= i < t@.len() ==> all[i + out@.len()] == (
                            DocView::Str((#[trigger] t@[i]).0@),
                            toml_tree(t@[i].1),
                        ),
                    forall|i: int|
                        0 <= i < out@.len() ==> all[i] == ((#[trigger] out@[i]).0@, out@[i].1@),
                decreases t@.len(),
            {
                let (k, x) = t.remove(0);
                proof {
                    let t = toml_tree(v);
                    let k = out@.len() as int;
                    assert(toml_tree(x) == all[k].1);
                    assert(decreases_to!(t => t->Table_0));
                    assert(decreases_to!(t->Table_0 => t->Table_0[k]));
                    assert(decreases_to!(t->Table_0[k] => t->Table_0[k].1));
                }
                let d: Doc = toml_doc(x);
                out.push((Doc::Str(k), d));
            }
            let r: Doc = Doc::Table(out);
            assert(r@->Table_0 =~= all);
            r
        },
    }
}

/// Read a TOML text.
pub fn parse_toml(text: &str) -> (r: Result<Doc, String>)
    ensures
        match r {
            Ok(d) => toml_text(text@) == Ok::<DocView, Seq<char>>(d@),
            Err(e) => toml_text(text@) == Err::<DocView, Seq<char>>(e@),
        },
{
    match toml_from_str(text) {
        Ok(v) => Ok(toml_doc(v)),
        Err(e) => Err(e),
    }
}

} // verus!
