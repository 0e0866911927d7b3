//! Structural diff between consecutive payloads on a key.
//!
//! A twenty-field status blob at 10 Hz is unreadable as a wall of JSON: the
//! screen changes constantly and nothing tells you *what* changed. Marking the
//! leaves that moved since the previous message turns that wall back into a
//! signal.
//!
//! The lines and their tags are emitted together, which makes the
//! correspondence between a line and the leaf it carries exact by construction.
use vstd::prelude::*;

use crate::diff_laws::{
    kept, law_leaves_are_marked_by_what_stood_there, law_what_is_reported_is_what_differs, places,
    reports, says_all,
};
use crate::json::{
    compact, find_member, holds_leaf, item_models, json_eq, json_wf, lemma_item_models,
    lemma_member_found, lemma_member_models, member, member_models, Json, JsonModel,
};
use crate::keyed::KeyMap;
use crate::text::{cat, cat3, decimal, decimal_text};

verus! {

/// What happened to one leaf between the previous message and this one.
#[derive(Debug, Clone, Copy, PartialEq, Eq, Structural)]
pub enum DiffTag {
    /// Present in both, different value.
    Changed,
    /// Not in the previous message.
    Added,
    /// In the previous message, gone from this one.
    Removed,
    Same,
}

/// One line of pretty-printed JSON, with the verdict for the leaf it carries.
#[derive(Debug, Clone, PartialEq, Eq)]
pub struct TaggedLine {
    pub indent: u16,
    pub text: String,
    pub tag: DiffTag,
}

/// A line, as a mathematical value.
pub struct LineModel {
    pub indent: u16,
    pub text: Seq<char>,
    pub tag: DiffTag,
}

impl View for TaggedLine {
    type V = LineModel;

    open spec fn view(&self) -> LineModel {
        LineModel { indent: self.indent, text: self.text@, tag: self.tag }
    }
}

/// The models of a list of lines.
pub open spec fn line_models(lines: Seq<TaggedLine>) -> Seq<LineModel> {
    Seq::new(lines.len(), |i: int| lines[i]@)
}

pub open spec fn line(indent: u16, text: Seq<char>, tag: DiffTag) -> LineModel {
    LineModel { indent, text, tag }
}

/// One level further in. Documents nested deeper than an indent can say stay at
/// the deepest one.
pub open spec fn deeper(indent: u16) -> u16 {
    if indent < u16::MAX {
        (indent + 1) as u16
    } else {
        indent
    }
}

/// The text of a value on a line of its own: strings in plain quotes, everything
/// else as JSON writes it.
pub open spec fn shown(v: JsonModel) -> Seq<char> {
    match v {
        JsonModel::Text(s) => "\""@ + s + "\""@,
        _ => compact(v),
    }
}

/// What stands before a value: the object key it sits under.
pub open spec fn prefix(label: Option<Seq<char>>) -> Seq<char> {
    match label {
        Some(l) => l + ": "@,
        None => Seq::empty(),
    }
}

/// The verdict for a leaf. Without a baseline nothing is marked; within one, a
/// leaf that has no counterpart is new.
pub open spec fn leaf_tag(cur: JsonModel, prev: Option<JsonModel>, baseline: bool) -> DiffTag {
    match prev {
        None => if baseline {
            DiffTag::Added
        } else {
            DiffTag::Same
        },
        Some(p) => if json_eq(p, cur) {
            DiffTag::Same
        } else {
            DiffTag::Changed
        },
    }
}

/// The members of the previous value, where it was an object.
pub open spec fn members_of(v: Option<JsonModel>) -> Option<Seq<(Seq<char>, JsonModel)>> {
    match v {
        Some(JsonModel::Object(m)) => Some(m),
        _ => None,
    }
}

/// The elements of the previous value, where it was an array.
pub open spec fn items_of(v: Option<JsonModel>) -> Option<Seq<JsonModel>> {
    match v {
        Some(JsonModel::Array(a)) => Some(a),
        _ => None,
    }
}

/// The previous value of a member.
pub open spec fn old_member(
    prev: Option<Seq<(Seq<char>, JsonModel)>>,
    key: Seq<char>,
) -> Option<JsonModel> {
    match prev {
        Some(m) => member(m, key),
        None => None,
    }
}

/// The previous value of an element.
pub open spec fn old_item(prev: Option<Seq<JsonModel>>, i: int) -> Option<JsonModel> {
    match prev {
        Some(a) => if 0 <= i < a.len() {
            Some(a[i])
        } else {
            None
        },
        None => None,
    }
}

/// What a container has taken the place of: a value that was neither an object nor an
/// array, or a container of the other kind that held a leaf. Nothing inside the new
/// container carries it.
pub open spec fn displaced(cur: JsonModel, prev: Option<JsonModel>) -> Option<JsonModel> {
    match prev {
        Some(p) => if !holds_leaf(p) {
            None
        } else if cur is Object && !(p is Object) || cur is Array && !(p is Array) {
            prev
        } else {
            None
        },
        None => None,
    }
}

/// The line of what a container has taken the place of.
pub open spec fn displaced_lines(
    cur: JsonModel,
    prev: Option<JsonModel>,
    indent: u16,
    label: Option<Seq<char>>,
) -> Seq<LineModel> {
    match displaced(cur, prev) {
        Some(p) => seq![line(indent, prefix(label) + shown(p), DiffTag::Removed)],
        None => Seq::empty(),
    }
}

/// The lines of a document against what stood at its place before.
pub open spec fn doc_lines(
    cur: JsonModel,
    prev: Option<JsonModel>,
    baseline: bool,
    indent: u16,
    label: Option<Seq<char>>,
) -> Seq<LineModel>
    decreases cur,
{
    match cur {
        JsonModel::Object(members) => displaced_lines(cur, prev, indent, label) + seq![
            line(indent, prefix(label) + "{"@, DiffTag::Same),
        ] + member_lines(members, members_of(prev), baseline, deeper(indent)) + gone_members(
            members_of(prev),
            members,
            deeper(indent),
        ) + seq![line(indent, "}"@, DiffTag::Same)],
        JsonModel::Array(items) => displaced_lines(cur, prev, indent, label) + seq![
            line(indent, prefix(label) + "["@, DiffTag::Same),
        ] + item_lines(items, items_of(prev), baseline, deeper(indent)) + gone_items(
            items_of(prev),
            items.len(),
            deeper(indent),
        ) + seq![line(indent, "]"@, DiffTag::Same)],
        _ => seq![line(indent, prefix(label) + shown(cur), leaf_tag(cur, prev, baseline))],
    }
}

/// The lines of the members of an object.
pub open spec fn member_lines(
    members: Seq<(Seq<char>, JsonModel)>,
    prev: Option<Seq<(Seq<char>, JsonModel)>>,
    baseline: bool,
    indent: u16,
) -> Seq<LineModel>
    decreases members,
{
    if members.len() == 0 {
        Seq::empty()
    } else {
        let last = members[members.len() - 1];
        member_lines(members.drop_last(), prev, baseline, indent) + doc_lines(
            last.1,
            old_member(prev, last.0),
            baseline,
            indent,
            Some(last.0),
        )
    }
}

/// The lines of the elements of an array, each against the one at its position.
pub open spec fn item_lines(
    items: Seq<JsonModel>,
    prev: Option<Seq<JsonModel>>,
    baseline: bool,
    indent: u16,
) -> Seq<LineModel>
    decreases items,
{
    if items.len() == 0 {
        Seq::empty()
    } else {
        item_lines(items.drop_last(), prev, baseline, indent) + doc_lines(
            items[items.len() - 1],
            old_item(prev, items.len() - 1),
            baseline,
            indent,
            None,
        )
    }
}

/// The lines of members that were there and are not now.
pub open spec fn gone_members(
    prev: Option<Seq<(Seq<char>, JsonModel)>>,
    members: Seq<(Seq<char>, JsonModel)>,
    indent: u16,
) -> Seq<LineModel>
    decreases prev->0.len(),
{
    match prev {
        None => Seq::empty(),
        Some(m) => if m.len() == 0 {
            Seq::empty()
        } else {
            let last = m[m.len() - 1];
            let before = gone_members(Some(m.drop_last()), members, indent);
            if member(members, last.0) is Some {
                before
            } else {
                before.push(line(indent, last.0 + ": "@ + shown(last.1), DiffTag::Removed))
            }
        },
    }
}

/// The lines of elements beyond the end of what the array holds now.
pub open spec fn gone_items(prev: Option<Seq<JsonModel>>, len: nat, indent: u16) -> Seq<LineModel>
    decreases prev->0.len(),
{
    match prev {
        None => Seq::empty(),
        Some(a) => if a.len() <= len {
            Seq::empty()
        } else {
            gone_items(Some(a.drop_last()), len, indent).push(
                line(indent, shown(a[a.len() - 1]), DiffTag::Removed),
            )
        },
    }
}

fn scalar_text(v: &Json) -> (s: String)
    ensures
        s@ == shown(v@),
{
    match v {
        Json::Text(t) => cat3("\"", t.as_str(), "\""),
        _ => v.compact_text(),
    }
}

/// Render `cur` as indented lines, tagging each against `prev`.
///
/// `prev` of `None` (a key seen only once) tags everything [`DiffTag::Same`]:
/// with no baseline, calling every field "added" would be noise on the very
/// first message of every key.
pub fn render(cur: &Json, prev: Option<&Json>) -> (out: Vec<TaggedLine>)
    ensures
        line_models(out@) == doc_lines(cur@, json_view(prev), prev is Some, 0, None),
        match prev {
            Some(p) => json_wf(cur@) && json_wf(p@) ==> says_all(
                kept(line_models(out@)),
                places(cur@),
                cur@,
                Some(p@),
                0,
                None,
            ),
            None => unmarked(line_models(out@)),
        },
{
    let mut out: Vec<TaggedLine> = Vec::new();
    walk(cur, prev, prev.is_some(), 0, None, &mut out);
    assert(line_models(out@) =~= doc_lines(cur@, json_view(prev), prev is Some, 0, None));
    proof {
        match prev {
            Some(p) => {
                if json_wf(cur@) && json_wf(p@) {
                    law_leaves_are_marked_by_what_stood_there(cur@, p@);
                }
            },
            None => law_first_message_is_unmarked(cur@, 0, None),
        }
    }
    out
}

/// The view of an optional document.
pub open spec fn json_view(v: Option<&Json>) -> Option<JsonModel> {
    match v {
        Some(j) => Some(j@),
        None => None,
    }
}

/// The view of an optional text.
pub open spec fn text_view(v: Option<&str>) -> Option<Seq<char>> {
    match v {
        Some(s) => Some(s@),
        None => None,
    }
}

fn push_line(out: &mut Vec<TaggedLine>, indent: u16, text: String, tag: DiffTag)
    ensures
        line_models(final(out)@) == line_models(old(out)@).push(line(indent, text@, tag)),
{
    let ghost before = out@;
    out.push(TaggedLine { indent, text, tag });
    assert(line_models(out@) =~= line_models(before).push(line(indent, text@, tag)));
}

/// Emit `cur`, comparing against `prev` at the same position.
///
/// `label` is the object key this value sits under, rendered ahead of the value
/// on the same line.
#[verifier::rlimit(60)]
#[verifier::spinoff_prover]
fn walk(
    cur: &Json,
    prev: Option<&Json>,
    baseline: bool,
    indent: u16,
    label: Option<&str>,
    out: &mut Vec<TaggedLine>,
)
    ensures
        line_models(final(out)@) == line_models(old(out)@) + doc_lines(
            cur@,
            json_view(prev),
            baseline,
            indent,
            text_view(label),
        ),
    decreases cur,
{
    let ghost start = line_models(out@);
    let lead = match label {
        Some(l) => cat(l, ": "),
        None => String::new(),
    };
    assert(lead@ == prefix(text_view(label)));
    let inner: u16 = if indent < u16::MAX {
        indent + 1
    } else {
        indent
    };
    match cur {
        Json::Object(members) => {
            let prev_members: Option<&Vec<(String, Json)>> = match prev {
                Some(Json::Object(m)) => Some(m),
                _ => None,
            };
            let ghost old_members = members_of(json_view(prev));
            let ghost all = member_models(members@);
            proof {
                lemma_member_models(members@);
                assert(old_members == match prev_members {
                    Some(m) => Some(member_models(m@)),
                    None => None,
                });
            }
            if let Some(p) = prev {
                if prev_members.is_none() && p.has_leaf() {
                    let text = cat(lead.as_str(), scalar_text(p).as_str());
                    push_line(out, indent, text, DiffTag::Removed);
                }
            }
            let ghost led = line_models(out@);
            assert(led =~= start + displaced_lines(cur@, json_view(prev), indent, text_view(label)));
            // A container's own line is never "changed": the change is always
            // attributable to some leaf inside it, and colouring both would
            // double-report it.
            push_line(out, indent, cat(lead.as_str(), "{"), DiffTag::Same);
            let ghost opened = line_models(out@);
            proof {
                assert(all.take(0) =~= Seq::empty());
                assert(opened + Seq::<LineModel>::empty() =~= opened);
            }
            let mut i: usize = 0;
            while i < members.len()
                invariant
                    i <= members.len(),
                    cur == Json::Object(*members),
                    all == member_models(members@),
                    all.len() == members@.len(),
                    forall|k: int|
                        0 <= k < members@.len() ==> #[trigger] all[k] == (
                            members@[k].0@,
                            members@[k].1@,
                        ),
                    old_members == (match prev_members {
                        Some(m) => Some(member_models(m@)),
                        None => None,
                    }),
                    line_models(out@) == opened + member_lines(
                        all.take(i as int),
                        old_members,
                        baseline,
                        inner,
                    ),
                decreases members.len() - i,
            {
                let old_value: Option<&Json> = match prev_members {
                    Some(m) => find_member(m, members[i].0.as_str()),
                    None => None,
                };
                proof {
                    assert(decreases_to!(cur => cur->Object_0@[i as int].1));
                    assert(all.take(i as int + 1).drop_last() =~= all.take(i as int));
                    assert(all.take(i as int + 1)[i as int] == all[i as int]);
                    assert(json_view(old_value) == old_member(old_members, members@[i as int].0@));
                }
                walk(
                    &members[i].1,
                    old_value,
                    baseline,
                    inner,
                    Some(members[i].0.as_str()),
                    out,
                );
                i += 1;
                assert(line_models(out@) =~= opened + member_lines(
                    all.take(i as int),
                    old_members,
                    baseline,
                    inner,
                ));
            }
            assert(all.take(i as int) =~= all);
            // Keys that were there last time and are not now have no line of
            // their own to mark, so they get one.
            let ghost listed = line_models(out@);
            assert(listed + Seq::<LineModel>::empty() =~= listed);
            if let Some(pm) = prev_members {
                let ghost old_all = member_models(pm@);
                proof {
                    lemma_member_models(pm@);
                    assert(old_all.take(0) =~= Seq::empty());
                }
                let mut j: usize = 0;
                while j < pm.len()
                    invariant
                        j <= pm.len(),
                        all == member_models(members@),
                        old_all == member_models(pm@),
                        old_all.len() == pm@.len(),
                        forall|k: int|
                            0 <= k < pm@.len() ==> #[trigger] old_all[k] == (pm@[k].0@, pm@[k].1@),
                        line_models(out@) == listed + gone_members(
                            Some(old_all.take(j as int)),
                            all,
                            inner,
                        ),
                    decreases pm.len() - j,
                {
                    assert(old_all.take(j as int + 1).drop_last() =~= old_all.take(j as int));
                    assert(old_all.take(j as int + 1)[j as int] == old_all[j as int]);
                    if find_member(members, pm[j].0.as_str()).is_none() {
                        let text = cat3(
                            pm[j].0.as_str(),
                            ": ",
                            scalar_text(&pm[j].1).as_str(),
                        );
                        push_line(out, inner, text, DiffTag::Removed);
                    }
                    j += 1;
                    assert(line_models(out@) =~= listed + gone_members(
                        Some(old_all.take(j as int)),
                        all,
                        inner,
                    ));
                }
                assert(old_all.take(j as int) =~= old_all);
            }
            push_line(out, indent, "}".to_owned(), DiffTag::Same);
            assert(line_models(out@) =~= start + doc_lines(
                cur@,
                json_view(prev),
                baseline,
                indent,
                text_view(label),
            ));
        },
        Json::Array(items) => {
            let prev_items: Option<&Vec<Json>> = match prev {
                Some(Json::Array(a)) => Some(a),
                _ => None,
            };
            let ghost old_items = items_of(json_view(prev));
            let ghost all = item_models(items@);
            proof {
                lemma_item_models(items@);
                assert(old_items == match prev_items {
                    Some(a) => Some(item_models(a@)),
                    None => None,
                });
            }
            if let Some(p) = prev {
                if prev_items.is_none() && p.has_leaf() {
                    let text = cat(lead.as_str(), scalar_text(p).as_str());
                    push_line(out, indent, text, DiffTag::Removed);
                }
            }
            let ghost led = line_models(out@);
            assert(led =~= start + displaced_lines(cur@, json_view(prev), indent, text_view(label)));
            push_line(out, indent, cat(lead.as_str(), "["), DiffTag::Same);
            let ghost opened = line_models(out@);
            proof {
                assert(all.take(0) =~= Seq::empty());
                assert(opened + Seq::<LineModel>::empty() =~= opened);
            }
            let mut i: usize = 0;
            while i < items.len()
                invariant
                    i <= items.len(),
                    cur == Json::Array(*items),
                    all == item_models(items@),
                    all.len() == items@.len(),
                    forall|k: int| 0 <= k < items@.len() ==> #[trigger] all[k] == items@[k]@,
                    old_items == (match prev_items {
                        Some(a) => Some(item_models(a@)),
                        None => None,
                    }),
                    line_models(out@) == opened + item_lines(
                        all.take(i as int),
                        old_items,
                        baseline,
                        inner,
                    ),
                decreases items.len() - i,
            {
                let old_value: Option<&Json> = match prev_items {
                    Some(a) => {
                        proof {
                            lemma_item_models(a@);
                        }
                        if i < a.len() {
                            Some(&a[i])
                        } else {
                            None
                        }
                    },
                    None => None,
                };
                proof {
                    assert(decreases_to!(cur => cur->Array_0@[i as int]));
                    assert(all.take(i as int + 1).drop_last() =~= all.take(i as int));
                    assert(all.take(i as int + 1)[i as int] == all[i as int]);
                    assert(json_view(old_value) == old_item(old_items, i as int));
                }
                walk(&items[i], old_value, baseline, inner, None, out);
                i += 1;
                assert(line_models(out@) =~= opened + item_lines(
                    all.take(i as int),
                    old_items,
                    baseline,
                    inner,
                ));
            }
            assert(all.take(i as int) =~= all);
            let ghost listed = line_models(out@);
            assert(listed + Seq::<LineModel>::empty() =~= listed);
            if let Some(pa) = prev_items {
                let ghost old_all = item_models(pa@);
                proof {
                    lemma_item_models(pa@);
                }
                let mut j: usize = items.len();
                if j < pa.len() {
                    assert(line_models(out@) =~= listed + gone_items(
                        Some(old_all.take(j as int)),
                        items@.len(),
                        inner,
                    ));
                    while j < pa.len()
                        invariant
                            items@.len() <= j <= pa.len(),
                            old_all == item_models(pa@),
                            old_all.len() == pa@.len(),
                            forall|k: int|
                                0 <= k < pa@.len() ==> #[trigger] old_all[k] == pa@[k]@,
                            line_models(out@) == listed + gone_items(
                                Some(old_all.take(j as int)),
                                items@.len(),
                                inner,
                            ),
                        decreases pa.len() - j,
                    {
                        assert(old_all.take(j as int + 1).drop_last() =~= old_all.take(j as int));
                        assert(old_all.take(j as int + 1)[j as int] == old_all[j as int]);
                        push_line(out, inner, scalar_text(&pa[j]), DiffTag::Removed);
                        j += 1;
                        assert(line_models(out@) =~= listed + gone_items(
                            Some(old_all.take(j as int)),
                            items@.len(),
                            inner,
                        ));
                    }
                    assert(old_all.take(j as int) =~= old_all);
                }
            }
            push_line(out, indent, "]".to_owned(), DiffTag::Same);
            assert(line_models(out@) =~= start + doc_lines(
                cur@,
                json_view(prev),
                baseline,
                indent,
                text_view(label),
            ));
        },
        scalar => {
            let tag = match prev {
                None => if baseline {
                    DiffTag::Added
                } else {
                    DiffTag::Same
                },
                Some(p) => if p.equals(scalar) {
                    DiffTag::Same
                } else {
                    DiffTag::Changed
                },
            };
            let text = cat(lead.as_str(), scalar_text(scalar).as_str());
            push_line(out, indent, text, tag);
            assert(line_models(out@) =~= start + doc_lines(
                cur@,
                json_view(prev),
                baseline,
                indent,
                text_view(label),
            ));
        },
    }
}

/// The changes recorded so far, as a map from leaf path to verdict.
pub type Changes = Map<Seq<char>, DiffTag>;

/// The path of what stands under `name` at `path`.
pub open spec fn step(path: Seq<char>, name: Seq<char>) -> Seq<char> {
    path + "/"@ + name
}

/// The changes with what a container has taken the place of recorded as removed.
pub open spec fn displaced_changes(
    cur: JsonModel,
    prev: Option<JsonModel>,
    path: Seq<char>,
    m: Changes,
) -> Changes {
    if displaced(cur, prev) is Some {
        m.insert(path, DiffTag::Removed)
    } else {
        m
    }
}

/// The leaf paths that changed, were added or were removed, on top of `m`.
pub open spec fn changes(
    cur: JsonModel,
    prev: Option<JsonModel>,
    path: Seq<char>,
    m: Changes,
) -> Changes
    decreases cur,
{
    match cur {
        JsonModel::Object(members) => gone_member_changes(
            members_of(prev),
            members,
            path,
            member_changes(
                members,
                members_of(prev),
                path,
                displaced_changes(cur, prev, path, m),
            ),
        ),
        JsonModel::Array(items) => gone_item_changes(
            items_of(prev),
            items.len(),
            path,
            item_changes(items, items_of(prev), path, displaced_changes(cur, prev, path, m)),
        ),
        _ => match prev {
            None => m.insert(path, DiffTag::Added),
            Some(p) => if json_eq(p, cur) {
                m
            } else {
                m.insert(path, DiffTag::Changed)
            },
        },
    }
}

pub open spec fn member_changes(
    members: Seq<(Seq<char>, JsonModel)>,
    prev: Option<Seq<(Seq<char>, JsonModel)>>,
    path: Seq<char>,
    m: Changes,
) -> Changes
    decreases members,
{
    if members.len() == 0 {
        m
    } else {
        let last = members[members.len() - 1];
        changes(
            last.1,
            old_member(prev, last.0),
            step(path, last.0),
            member_changes(members.drop_last(), prev, path, m),
        )
    }
}

pub open spec fn item_changes(
    items: Seq<JsonModel>,
    prev: Option<Seq<JsonModel>>,
    path: Seq<char>,
    m: Changes,
) -> Changes
    decreases items,
{
    if items.len() == 0 {
        m
    } else {
        changes(
            items[items.len() - 1],
            old_item(prev, items.len() - 1),
            step(path, decimal((items.len() - 1) as nat)),
            item_changes(items.drop_last(), prev, path, m),
        )
    }
}

pub open spec fn gone_member_changes(
    prev: Option<Seq<(Seq<char>, JsonModel)>>,
    members: Seq<(Seq<char>, JsonModel)>,
    path: Seq<char>,
    m: Changes,
) -> Changes
    decreases prev->0.len(),
{
    match prev {
        None => m,
        Some(old) => if old.len() == 0 {
            m
        } else {
            let last = old[old.len() - 1];
            let before = gone_member_changes(Some(old.drop_last()), members, path, m);
            if member(members, last.0) is Some {
                before
            } else {
                before.insert(step(path, last.0), DiffTag::Removed)
            }
        },
    }
}

pub open spec fn gone_item_changes(
    prev: Option<Seq<JsonModel>>,
    len: nat,
    path: Seq<char>,
    m: Changes,
) -> Changes
    decreases prev->0.len(),
{
    match prev {
        None => m,
        Some(old) => if old.len() <= len {
            m
        } else {
            gone_item_changes(Some(old.drop_last()), len, path, m).insert(
                step(path, decimal((old.len() - 1) as nat)),
                DiffTag::Removed,
            )
        },
    }
}

/// Leaf paths that changed, added or were removed, as JSON-pointer-ish strings.
///
/// Separate from [`render`] because the master pane wants the *count* of moving
/// fields without building any lines.
pub fn changed_paths(cur: &Json, prev: &Json) -> (out: KeyMap<DiffTag>)
    ensures
        out@ == changes(cur@, Some(prev@), Seq::empty(), Map::empty()),
        json_wf(cur@) && json_wf(prev@) ==> reports(out@, cur@, prev@),
{
    let mut out: KeyMap<DiffTag> = KeyMap::new();
    collect(cur, Some(prev), String::new(), &mut out);
    proof {
        if json_wf(cur@) && json_wf(prev@) {
            law_what_is_reported_is_what_differs(cur@, prev@);
        }
    }
    out
}

fn collect(cur: &Json, prev: Option<&Json>, path: String, out: &mut KeyMap<DiffTag>)
    ensures
        final(out)@ == changes(cur@, json_view(prev), path@, old(out)@),
    decreases cur,
{
    match cur {
        Json::Object(members) => {
            let prev_members: Option<&Vec<(String, Json)>> = match prev {
                Some(Json::Object(m)) => Some(m),
                _ => None,
            };
            if let Some(p) = prev {
                if prev_members.is_none() && p.has_leaf() {
                    out.insert(path.clone(), DiffTag::Removed);
                }
            }
            let ghost start = out@;
            let ghost old_members = members_of(json_view(prev));
            let ghost all = member_models(members@);
            proof {
                lemma_member_models(members@);
                assert(all.take(0) =~= Seq::empty());
            }
            let mut i: usize = 0;
            while i < members.len()
                invariant
                    i <= members.len(),
                    cur == Json::Object(*members),
                    all == member_models(members@),
                    all.len() == members@.len(),
                    forall|k: int|
                        0 <= k < members@.len() ==> #[trigger] all[k] == (
                            members@[k].0@,
                            members@[k].1@,
                        ),
                    old_members == (match prev_members {
                        Some(m) => Some(member_models(m@)),
                        None => None,
                    }),
                    out@ == member_changes(all.take(i as int), old_members, path@, start),
                decreases members.len() - i,
            {
                let old_value: Option<&Json> = match prev_members {
                    Some(m) => find_member(m, members[i].0.as_str()),
                    None => None,
                };
                proof {
                    assert(decreases_to!(cur => cur->Object_0@[i as int].1));
                    assert(all.take(i as int + 1).drop_last() =~= all.take(i as int));
                    assert(all.take(i as int + 1)[i as int] == all[i as int]);
                    assert(json_view(old_value) == old_member(old_members, members@[i as int].0@));
                }
                let below = cat3(path.as_str(), "/", members[i].0.as_str());
                collect(&members[i].1, old_value, below, out);
                i += 1;
            }
            assert(all.take(i as int) =~= all);
            if let Some(pm) = prev_members {
                let ghost old_all = member_models(pm@);
                let ghost listed = out@;
                proof {
                    lemma_member_models(pm@);
                    assert(old_all.take(0) =~= Seq::empty());
                }
                let mut j: usize = 0;
                while j < pm.len()
                    invariant
                        j <= pm.len(),
                        all == member_models(members@),
                        old_all == member_models(pm@),
                        old_all.len() == pm@.len(),
                        forall|k: int|
                            0 <= k < pm@.len() ==> #[trigger] old_all[k] == (pm@[k].0@, pm@[k].1@),
                        out@ == gone_member_changes(
                            Some(old_all.take(j as int)),
                            all,
                            path@,
                            listed,
                        ),
                    decreases pm.len() - j,
                {
                    assert(old_all.take(j as int + 1).drop_last() =~= old_all.take(j as int));
                    assert(old_all.take(j as int + 1)[j as int] == old_all[j as int]);
                    if find_member(members, pm[j].0.as_str()).is_none() {
                        let gone = cat3(path.as_str(), "/", pm[j].0.as_str());
                        out.insert(gone, DiffTag::Removed);
                    }
                    j += 1;
                }
                assert(old_all.take(j as int) =~= old_all);
            }
        },
        Json::Array(items) => {
            let prev_items: Option<&Vec<Json>> = match prev {
                Some(Json::Array(a)) => Some(a),
                _ => None,
            };
            if let Some(p) = prev {
                if prev_items.is_none() && p.has_leaf() {
                    out.insert(path.clone(), DiffTag::Removed);
                }
            }
            let ghost start = out@;
            let ghost old_items = items_of(json_view(prev));
            let ghost all = item_models(items@);
            proof {
                lemma_item_models(items@);
                assert(all.take(0) =~= Seq::empty());
            }
            let mut i: usize = 0;
            while i < items.len()
                invariant
                    i <= items.len(),
                    cur == Json::Array(*items),
                    all == item_models(items@),
                    all.len() == items@.len(),
                    forall|k: int| 0 <= k < items@.len() ==> #[trigger] all[k] == items@[k]@,
                    old_items == (match prev_items {
                        Some(a) => Some(item_models(a@)),
                        None => None,
                    }),
                    out@ == item_changes(all.take(i as int), old_items, path@, start),
                decreases items.len() - i,
            {
                let old_value: Option<&Json> = match prev_items {
                    Some(a) => {
                        proof {
                            lemma_item_models(a@);
                        }
                        if i < a.len() {
                            Some(&a[i])
                        } else {
                            None
                        }
                    },
                    None => None,
                };
                proof {
                    assert(decreases_to!(cur => cur->Array_0@[i as int]));
                    assert(all.take(i as int + 1).drop_last() =~= all.take(i as int));
                    assert(all.take(i as int + 1)[i as int] == all[i as int]);
                    assert(json_view(old_value) == old_item(old_items, i as int));
                }
                let below = cat3(path.as_str(), "/", decimal_text(i as u64).as_str());
                collect(&items[i], old_value, below, out);
                i += 1;
            }
            assert(all.take(i as int) =~= all);
            if let Some(pa) = prev_items {
                let ghost old_all = item_models(pa@);
                let ghost listed = out@;
                proof {
                    lemma_item_models(pa@);
                }
                let mut j: usize = items.len();
                if j < pa.len() {
                    while j < pa.len()
                        invariant
                            items@.len() <= j <= pa.len(),
                            old_all == item_models(pa@),
                            old_all.len() == pa@.len(),
                            out@ == gone_item_changes(
                                Some(old_all.take(j as int)),
                                items@.len(),
                                path@,
                                listed,
                            ),
                        decreases pa.len() - j,
                    {
                        assert(old_all.take(j as int + 1).drop_last() =~= old_all.take(j as int));
                        let gone = cat3(path.as_str(), "/", decimal_text(j as u64).as_str());
                        out.insert(gone, DiffTag::Removed);
                        j += 1;
                    }
                    assert(old_all.take(j as int) =~= old_all);
                }
            }
        },
        scalar => {
            match prev {
                None => {
                    out.insert(path, DiffTag::Added);
                },
                Some(p) => {
                    if !p.equals(scalar) {
                        out.insert(path, DiffTag::Changed);
                    }
                },
            }
        },
    }
}

// ---------------------------------------------------------------------------
// Laws
// ---------------------------------------------------------------------------

/// No line is marked.
pub open spec fn unmarked(lines: Seq<LineModel>) -> bool {
    forall|i: int| 0 <= i < lines.len() ==> (#[trigger] lines[i]).tag == DiffTag::Same
}

proof fn lemma_unmarked_join(a: Seq<LineModel>, b: Seq<LineModel>)
    requires
        unmarked(a),
        unmarked(b),
    ensures
        unmarked(a + b),
{
    assert forall|i: int| 0 <= i < (a + b).len() implies (#[trigger] (a + b)[i]).tag
        == DiffTag::Same by {
        if i < a.len() {
            assert((a + b)[i] == a[i]);
        } else {
            assert((a + b)[i] == b[i - a.len()]);
        }
    }
}

/// A first message is not a wall of additions: without a baseline nothing is
/// marked.
pub proof fn law_first_message_is_unmarked(cur: JsonModel, indent: u16, label: Option<Seq<char>>)
    ensures
        unmarked(doc_lines(cur, None, false, indent, label)),
    decreases cur,
{
    match cur {
        JsonModel::Object(members) => {
            lemma_first_members(members, deeper(indent));
            let a = displaced_lines(cur, None, indent, label) + seq![
                line(indent, prefix(label) + "{"@, DiffTag::Same),
            ];
            let b = member_lines(members, None, false, deeper(indent));
            let c = gone_members(None, members, deeper(indent));
            let d = seq![line(indent, "}"@, DiffTag::Same)];
            lemma_unmarked_join(a, b);
            lemma_unmarked_join(a + b, c);
            lemma_unmarked_join(a + b + c, d);
        },
        JsonModel::Array(items) => {
            lemma_first_items(items, deeper(indent));
            let a = displaced_lines(cur, None, indent, label) + seq![
                line(indent, prefix(label) + "["@, DiffTag::Same),
            ];
            let b = item_lines(items, None, false, deeper(indent));
            let c = gone_items(None, items.len(), deeper(indent));
            let d = seq![line(indent, "]"@, DiffTag::Same)];
            lemma_unmarked_join(a, b);
            lemma_unmarked_join(a + b, c);
            lemma_unmarked_join(a + b + c, d);
        },
        _ => {},
    }
}

proof fn lemma_first_members(members: Seq<(Seq<char>, JsonModel)>, indent: u16)
    ensures
        unmarked(member_lines(members, None, false, indent)),
    decreases members,
{
    if members.len() > 0 {
        let last = members[members.len() - 1];
        lemma_first_members(members.drop_last(), indent);
        law_first_message_is_unmarked(last.1, indent, Some(last.0));
        lemma_unmarked_join(
            member_lines(members.drop_last(), None, false, indent),
            doc_lines(last.1, None, false, indent, Some(last.0)),
        );
    }
}

proof fn lemma_first_items(items: Seq<JsonModel>, indent: u16)
    ensures
        unmarked(item_lines(items, None, false, indent)),
    decreases items,
{
    if items.len() > 0 {
        let last = items[items.len() - 1];
        lemma_first_items(items.drop_last(), indent);
        law_first_message_is_unmarked(last, indent, None);
        lemma_unmarked_join(
            item_lines(items.drop_last(), None, false, indent),
            doc_lines(last, None, false, indent, None),
        );
    }
}

proof fn lemma_json_eq_reflexive(v: JsonModel)
    ensures
        json_eq(v, v),
    decreases v,
{
    match v {
        JsonModel::Array(items) => {
            assert forall|i: int| 0 <= i < items.len() implies json_eq(
                #[trigger] items[i],
                items[i],
            ) by {
                lemma_json_eq_reflexive(items[i]);
            }
        },
        JsonModel::Object(members) => {
            assert forall|i: int| 0 <= i < members.len() implies json_eq(
                (#[trigger] members[i]).1,
                members[i].1,
            ) by {
                lemma_json_eq_reflexive(members[i].1);
            }
        },
        _ => {},
    }
}

/// A document against itself reports nothing: no path is recorded and no line is
/// marked.
pub proof fn law_identical_documents_report_nothing(
    v: JsonModel,
    path: Seq<char>,
    m: Changes,
    indent: u16,
    label: Option<Seq<char>>,
)
    requires
        json_wf(v),
    ensures
        changes(v, Some(v), path, m) == m,
        unmarked(doc_lines(v, Some(v), true, indent, label)),
    decreases v, 1int, 0nat,
{
    match v {
        JsonModel::Object(members) => {
            let names = Seq::new(members.len(), |k: int| members[k].0);
            crate::keyed::lemma_ascending_distinct(names);
            lemma_same_members(v, members, members.len(), path, m, deeper(indent));
            assert(members.take(members.len() as int) =~= members);
            lemma_no_gone_members(members, members, path, m, deeper(indent));
            let a = displaced_lines(v, Some(v), indent, label) + seq![
                line(indent, prefix(label) + "{"@, DiffTag::Same),
            ];
            let b = member_lines(members, Some(members), true, deeper(indent));
            let c = gone_members(Some(members), members, deeper(indent));
            let d = seq![line(indent, "}"@, DiffTag::Same)];
            lemma_unmarked_join(a, b);
            lemma_unmarked_join(a + b, c);
            lemma_unmarked_join(a + b + c, d);
        },
        JsonModel::Array(items) => {
            lemma_same_items(v, items, items.len(), path, m, deeper(indent));
            assert(items.take(items.len() as int) =~= items);
            let a = displaced_lines(v, Some(v), indent, label) + seq![
                line(indent, prefix(label) + "["@, DiffTag::Same),
            ];
            let b = item_lines(items, Some(items), true, deeper(indent));
            let c = gone_items(Some(items), items.len(), deeper(indent));
            let d = seq![line(indent, "]"@, DiffTag::Same)];
            lemma_unmarked_join(a, b);
            lemma_unmarked_join(a + b, c);
            lemma_unmarked_join(a + b + c, d);
        },
        _ => {
            lemma_json_eq_reflexive(v);
        },
    }
}

proof fn lemma_same_members(
    v: JsonModel,
    members: Seq<(Seq<char>, JsonModel)>,
    n: nat,
    path: Seq<char>,
    m: Changes,
    indent: u16,
)
    requires
        v == JsonModel::Object(members),
        json_wf(v),
        n <= members.len(),
        Seq::new(members.len(), |k: int| members[k].0).no_duplicates(),
    ensures
        member_changes(members.take(n as int), Some(members), path, m) == m,
        unmarked(member_lines(members.take(n as int), Some(members), true, indent)),
    decreases v, 0int, n,
{
    if n > 0 {
        let last = members[n - 1];
        lemma_same_members(v, members, (n - 1) as nat, path, m, indent);
        assert(members.take(n as int).drop_last() =~= members.take(n - 1));
        assert(members.take(n as int)[n - 1] == last);
        lemma_member_found(members, n - 1);
        assert(decreases_to!(v => v->Object_0[n - 1].1));
        law_identical_documents_report_nothing(last.1, step(path, last.0), m, indent, Some(last.0));
        lemma_unmarked_join(
            member_lines(members.take(n - 1), Some(members), true, indent),
            doc_lines(last.1, Some(last.1), true, indent, Some(last.0)),
        );
    }
}

proof fn lemma_same_items(
    v: JsonModel,
    items: Seq<JsonModel>,
    n: nat,
    path: Seq<char>,
    m: Changes,
    indent: u16,
)
    requires
        v == JsonModel::Array(items),
        json_wf(v),
        n <= items.len(),
    ensures
        item_changes(items.take(n as int), Some(items), path, m) == m,
        unmarked(item_lines(items.take(n as int), Some(items), true, indent)),
    decreases v, 0int, n,
{
    if n > 0 {
        let last = items[n - 1];
        lemma_same_items(v, items, (n - 1) as nat, path, m, indent);
        assert(items.take(n as int).drop_last() =~= items.take(n - 1));
        assert(items.take(n as int)[n - 1] == last);
        assert(decreases_to!(v => v->Array_0[n - 1]));
        law_identical_documents_report_nothing(
            last,
            step(path, decimal((n - 1) as nat)),
            m,
            indent,
            None,
        );
        lemma_unmarked_join(
            item_lines(items.take(n - 1), Some(items), true, indent),
            doc_lines(last, Some(last), true, indent, None),
        );
    }
}

proof fn lemma_no_gone_members(
    old: Seq<(Seq<char>, JsonModel)>,
    members: Seq<(Seq<char>, JsonModel)>,
    path: Seq<char>,
    m: Changes,
    indent: u16,
)
    requires
        Seq::new(members.len(), |k: int| members[k].0).no_duplicates(),
        old.len() <= members.len(),
        old == members.take(old.len() as int),
    ensures
        gone_member_changes(Some(old), members, path, m) == m,
        gone_members(Some(old), members, indent).len() == 0,
    decreases old.len(),
{
    if old.len() > 0 {
        let n = old.len() - 1;
        assert(old.drop_last() =~= members.take(n as int));
        lemma_no_gone_members(old.drop_last(), members, path, m, indent);
        lemma_member_found(members, n as int);
        assert(old[n as int] == members[n as int]);
    }
}

/// A container's own lines are never marked: one opens it, the last closes it, and
/// both read as unchanged whatever happened inside. Only the line of what the container
/// has taken the place of can stand before them.
pub proof fn law_containers_are_never_marked(
    cur: JsonModel,
    prev: Option<JsonModel>,
    baseline: bool,
    indent: u16,
    label: Option<Seq<char>>,
)
    requires
        cur is Object || cur is Array,
    ensures
        ({
            let lines = doc_lines(cur, prev, baseline, indent, label);
            let lead = displaced_lines(cur, prev, indent, label).len() as int;
            &&& lead <= 1
            &&& lines.len() >= lead + 2
            &&& lines[lead].tag == DiffTag::Same
            &&& lines.last().tag == DiffTag::Same
            &&& lead == 1 ==> lines[0].tag == DiffTag::Removed
        }),
{
}

/// The lines of what is there now, without their verdicts.
pub open spec fn present(lines: Seq<LineModel>) -> Seq<LineModel>
    decreases lines.len(),
{
    if lines.len() == 0 {
        Seq::empty()
    } else {
        let before = present(lines.drop_last());
        if lines.last().tag == DiffTag::Removed {
            before
        } else {
            before.push(line(lines.last().indent, lines.last().text, DiffTag::Same))
        }
    }
}

proof fn lemma_present_join(a: Seq<LineModel>, b: Seq<LineModel>)
    ensures
        present(a + b) == present(a) + present(b),
    decreases b.len(),
{
    if b.len() == 0 {
        assert(a + b =~= a);
    } else {
        lemma_present_join(a, b.drop_last());
        assert((a + b).drop_last() =~= a + b.drop_last());
        assert((a + b).last() == b.last());
    }
    assert(present(a + b) =~= present(a) + present(b));
}

proof fn lemma_gone_members_absent(
    prev: Option<Seq<(Seq<char>, JsonModel)>>,
    members: Seq<(Seq<char>, JsonModel)>,
    indent: u16,
)
    ensures
        present(gone_members(prev, members, indent)) == Seq::<LineModel>::empty(),
    decreases prev->0.len(),
{
    if let Some(m) = prev {
        if m.len() > 0 {
            let last = m[m.len() - 1];
            let before = gone_members(Some(m.drop_last()), members, indent);
            lemma_gone_members_absent(Some(m.drop_last()), members, indent);
            let gone = line(indent, last.0 + ": "@ + shown(last.1), DiffTag::Removed);
            assert(before.push(gone).drop_last() =~= before);
        }
    }
}

proof fn lemma_gone_items_absent(prev: Option<Seq<JsonModel>>, len: nat, indent: u16)
    ensures
        present(gone_items(prev, len, indent)) == Seq::<LineModel>::empty(),
    decreases prev->0.len(),
{
    if let Some(a) = prev {
        if a.len() > len {
            let before = gone_items(Some(a.drop_last()), len, indent);
            lemma_gone_items_absent(Some(a.drop_last()), len, indent);
            let gone = line(indent, shown(a[a.len() - 1]), DiffTag::Removed);
            assert(before.push(gone).drop_last() =~= before);
        }
    }
}

proof fn lemma_wrapped_present(
    lead: Seq<LineModel>,
    open: LineModel,
    inner: Seq<LineModel>,
    gone: Seq<LineModel>,
    close: LineModel,
)
    requires
        present(lead) == Seq::<LineModel>::empty(),
        present(gone) == Seq::<LineModel>::empty(),
        open.tag == DiffTag::Same,
        close.tag == DiffTag::Same,
    ensures
        present(lead + seq![open] + inner + gone + seq![close]) == seq![open] + present(inner)
            + seq![close],
{
    lemma_present_join(lead, seq![open]);
    lemma_present_join(lead + seq![open], inner);
    lemma_present_join(lead + seq![open] + inner, gone);
    lemma_present_join(lead + seq![open] + inner + gone, seq![close]);
    reveal_with_fuel(present, 2);
    assert(seq![open].drop_last() =~= Seq::<LineModel>::empty());
    assert(seq![close].drop_last() =~= Seq::<LineModel>::empty());
    assert(present(seq![open]) =~= seq![open]);
    assert(present(seq![close]) =~= seq![close]);
    assert(present(lead + seq![open] + inner + gone + seq![close]) =~= seq![open] + present(inner)
        + seq![close]);
}

/// A baseline adds verdicts and the lines of what is gone, and nothing else: without
/// those, a document reads as it does on its own.
pub proof fn law_a_baseline_only_adds_what_is_gone(
    cur: JsonModel,
    prev: Option<JsonModel>,
    baseline: bool,
    indent: u16,
    label: Option<Seq<char>>,
)
    ensures
        present(doc_lines(cur, prev, baseline, indent, label)) == doc_lines(
            cur,
            None,
            false,
            indent,
            label,
        ),
    decreases cur,
{
    let lead = displaced_lines(cur, prev, indent, label);
    reveal_with_fuel(present, 2);
    assert(lead.len() > 0 ==> lead.drop_last() =~= Seq::<LineModel>::empty());
    assert(present(lead) =~= Seq::<LineModel>::empty());
    match cur {
        JsonModel::Object(members) => {
            let open = line(indent, prefix(label) + "{"@, DiffTag::Same);
            let close = line(indent, "}"@, DiffTag::Same);
            let inner = member_lines(members, members_of(prev), baseline, deeper(indent));
            lemma_present_members(members, members_of(prev), baseline, deeper(indent));
            lemma_gone_members_absent(members_of(prev), members, deeper(indent));
            lemma_wrapped_present(
                lead,
                open,
                inner,
                gone_members(members_of(prev), members, deeper(indent)),
                close,
            );
            assert(doc_lines(cur, None, false, indent, label) =~= seq![open] + member_lines(
                members,
                None,
                false,
                deeper(indent),
            ) + seq![close]);
        },
        JsonModel::Array(items) => {
            let open = line(indent, prefix(label) + "["@, DiffTag::Same);
            let close = line(indent, "]"@, DiffTag::Same);
            let inner = item_lines(items, items_of(prev), baseline, deeper(indent));
            lemma_present_items(items, items_of(prev), baseline, deeper(indent));
            lemma_gone_items_absent(items_of(prev), items.len(), deeper(indent));
            lemma_wrapped_present(
                lead,
                open,
                inner,
                gone_items(items_of(prev), items.len(), deeper(indent)),
                close,
            );
            assert(doc_lines(cur, None, false, indent, label) =~= seq![open] + item_lines(
                items,
                None,
                false,
                deeper(indent),
            ) + seq![close]);
        },
        _ => {
            let lines = doc_lines(cur, prev, baseline, indent, label);
            assert(lines.drop_last() =~= Seq::<LineModel>::empty());
            assert(present(lines) =~= doc_lines(cur, None, false, indent, label));
        },
    }
}

proof fn lemma_present_members(
    members: Seq<(Seq<char>, JsonModel)>,
    prev: Option<Seq<(Seq<char>, JsonModel)>>,
    baseline: bool,
    indent: u16,
)
    ensures
        present(member_lines(members, prev, baseline, indent)) == member_lines(
            members,
            None,
            false,
            indent,
        ),
    decreases members,
{
    if members.len() > 0 {
        let last = members[members.len() - 1];
        lemma_present_members(members.drop_last(), prev, baseline, indent);
        law_a_baseline_only_adds_what_is_gone(
            last.1,
            old_member(prev, last.0),
            baseline,
            indent,
            Some(last.0),
        );
        lemma_present_join(
            member_lines(members.drop_last(), prev, baseline, indent),
            doc_lines(last.1, old_member(prev, last.0), baseline, indent, Some(last.0)),
        );
    }
}

proof fn lemma_present_items(
    items: Seq<JsonModel>,
    prev: Option<Seq<JsonModel>>,
    baseline: bool,
    indent: u16,
)
    ensures
        present(item_lines(items, prev, baseline, indent)) == item_lines(
            items,
            None,
            false,
            indent,
        ),
    decreases items,
{
    if items.len() > 0 {
        let last = items[items.len() - 1];
        lemma_present_items(items.drop_last(), prev, baseline, indent);
        law_a_baseline_only_adds_what_is_gone(
            last,
            old_item(prev, items.len() - 1),
            baseline,
            indent,
            None,
        );
        lemma_present_join(
            item_lines(items.drop_last(), prev, baseline, indent),
            doc_lines(last, old_item(prev, items.len() - 1), baseline, indent, None),
        );
    }
}

proof fn lemma_changes_grow(cur: JsonModel, prev: Option<JsonModel>, path: Seq<char>, m: Changes)
    ensures
        m.dom().subset_of(changes(cur, prev, path, m).dom()),
    decreases cur,
{
    let led = displaced_changes(cur, prev, path, m);
    match cur {
        JsonModel::Object(members) => {
            let inner = member_changes(members, members_of(prev), path, led);
            lemma_member_changes_grow(members, members_of(prev), path, led);
            lemma_gone_member_changes_grow(members_of(prev), members, path, inner);
        },
        JsonModel::Array(items) => {
            let inner = item_changes(items, items_of(prev), path, led);
            lemma_item_changes_grow(items, items_of(prev), path, led);
            lemma_gone_item_changes_grow(items_of(prev), items.len(), path, inner);
        },
        _ => {},
    }
}

proof fn lemma_member_changes_grow(
    members: Seq<(Seq<char>, JsonModel)>,
    prev: Option<Seq<(Seq<char>, JsonModel)>>,
    path: Seq<char>,
    m: Changes,
)
    ensures
        m.dom().subset_of(member_changes(members, prev, path, m).dom()),
    decreases members,
{
    if members.len() > 0 {
        let last = members[members.len() - 1];
        lemma_member_changes_grow(members.drop_last(), prev, path, m);
        lemma_changes_grow(
            last.1,
            old_member(prev, last.0),
            step(path, last.0),
            member_changes(members.drop_last(), prev, path, m),
        );
    }
}

proof fn lemma_item_changes_grow(
    items: Seq<JsonModel>,
    prev: Option<Seq<JsonModel>>,
    path: Seq<char>,
    m: Changes,
)
    ensures
        m.dom().subset_of(item_changes(items, prev, path, m).dom()),
    decreases items,
{
    if items.len() > 0 {
        lemma_item_changes_grow(items.drop_last(), prev, path, m);
        lemma_changes_grow(
            items[items.len() - 1],
            old_item(prev, items.len() - 1),
            step(path, decimal((items.len() - 1) as nat)),
            item_changes(items.drop_last(), prev, path, m),
        );
    }
}

proof fn lemma_gone_member_changes_grow(
    prev: Option<Seq<(Seq<char>, JsonModel)>>,
    members: Seq<(Seq<char>, JsonModel)>,
    path: Seq<char>,
    m: Changes,
)
    ensures
        m.dom().subset_of(gone_member_changes(prev, members, path, m).dom()),
    decreases prev->0.len(),
{
    if let Some(old) = prev {
        if old.len() > 0 {
            lemma_gone_member_changes_grow(Some(old.drop_last()), members, path, m);
        }
    }
}

proof fn lemma_gone_item_changes_grow(
    prev: Option<Seq<JsonModel>>,
    len: nat,
    path: Seq<char>,
    m: Changes,
)
    ensures
        m.dom().subset_of(gone_item_changes(prev, len, path, m).dom()),
    decreases prev->0.len(),
{
    if let Some(old) = prev {
        if old.len() > len {
            lemma_gone_item_changes_grow(Some(old.drop_last()), len, path, m);
        }
    }
}

/// A value that a container takes the place of is reported at its path, however little
/// the container holds, if the value was or held a leaf.
pub proof fn law_what_a_container_displaces_is_reported(
    cur: JsonModel,
    prev: JsonModel,
    path: Seq<char>,
    m: Changes,
)
    requires
        holds_leaf(prev),
        cur is Object && !(prev is Object) || cur is Array && !(prev is Array),
    ensures
        changes(cur, Some(prev), path, m).dom().contains(path),
{
    let led = displaced_changes(cur, Some(prev), path, m);
    match cur {
        JsonModel::Object(members) => {
            lemma_member_changes_grow(members, None, path, led);
        },
        JsonModel::Array(items) => {
            lemma_item_changes_grow(items, None, path, led);
        },
        _ => {},
    }
}

} // verus!
