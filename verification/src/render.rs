//! What is shown of orbs, edges and trees, line by line.

use vstd::prelude::*;

use crate::dep::{DepEdge, DepEdgeView, EdgeType};
use crate::digits::{decimal, decimal_text};
use crate::id::{opt_str, OrbId};
use crate::log::views;
use crate::names::{edge_name, edge_type_label, lifecycle_label, orb_type_label, state_label};
use crate::orb::{priority_label, priority_name, Orb, OrbView};
use crate::orb_store::{OrbStore, OrbStoreView};
use crate::paths::{join_path, joined_path};
use crate::text::{concat, join, joined, texts};
use crate::time::{displayed, Timestamp};
use crate::tree::OrbNode;

verus! {

/// What is shown when the store is set up.
pub open spec fn init_shown(state_dir: Seq<char>) -> Seq<Seq<char>> {
    seq![
        "Initialized "@ + state_dir,
        "  "@ + joined_path(state_dir, "orbs.jsonl"@),
        "  "@ + joined_path(state_dir, "deps.jsonl"@),
        "  "@ + joined_path(state_dir, "events.jsonl"@),
    ]
}

/// What is shown when the store is set up: its directory and its files.
pub fn init_lines(state_dir: &str) -> (r: Vec<String>)
    ensures
        texts(r@) == init_shown(state_dir@),
{
    let mut r: Vec<String> = Vec::new();
    r.push(concat("Initialized ", state_dir));
    r.push(concat("  ", join_path(state_dir, "orbs.jsonl").as_str()));
    r.push(concat("  ", join_path(state_dir, "deps.jsonl").as_str()));
    r.push(concat("  ", join_path(state_dir, "events.jsonl").as_str()));
    assert(texts(r@) =~= init_shown(state_dir@));
    r
}

/// A priority with its name.
pub open spec fn priority_shown(priority: u8) -> Seq<char> {
    decimal(priority as nat) + " ("@ + priority_label(priority) + ")"@
}

/// A priority with its name.
fn priority_text(priority: u8) -> (s: String)
    ensures
        s@ == priority_shown(priority),
{
    let mut s = decimal_text(priority as u128);
    s.append(" (");
    s.append(priority_name(priority));
    s.append(")");
    assert(s@ =~= priority_shown(priority));
    s
}

/// The line of an orb in a list.
pub open spec fn list_line(orb: OrbView) -> Seq<char> {
    orb.id + " ["@ + orb.orb_type.name() + "] "@ + state_label(orb) + " p"@ + decimal(
        orb.priority as nat,
    ) + " "@ + orb.title
}

/// What is shown of a list of orbs.
pub open spec fn list_shown(orbs: Seq<OrbView>) -> Seq<Seq<char>> {
    if orbs.len() == 0 {
        seq!["No orbs"@]
    } else {
        orbs.map_values(|o: OrbView| list_line(o))
    }
}

/// What is shown of a list of orbs: one line for each.
pub fn list_lines(orbs: &Vec<Orb>) -> (r: Vec<String>)
    ensures
        texts(r@) == list_shown(views(orbs@)),
{
    let mut r: Vec<String> = Vec::new();
    if orbs.len() == 0 {
        r.push("No orbs".to_owned());
        assert(texts(r@) =~= list_shown(views(orbs@)));
        return r;
    }
    let mut i: usize = 0;
    while i < orbs.len()
        invariant
            i <= orbs@.len(),
            r@.len() == i,
            forall|j: int| 0 <= j < i ==> (#[trigger] r@[j])@ == list_line(orbs@[j]@),
        decreases orbs@.len() - i,
    {
        let o = &orbs[i];
        let mut s = o.id.as_str().to_owned();
        s.append(" [");
        s.append(orb_type_label(&o.orb_type));
        s.append("] ");
        s.append(lifecycle_label(o));
        s.append(" p");
        s.append(decimal_text(o.priority as u128).as_str());
        s.append(" ");
        s.append(o.title.as_str());
        assert(s@ =~= list_line(o@));
        r.push(s);
        i += 1;
    }
    assert(texts(r@) =~= list_shown(views(orbs@)));
    r
}

/// What is shown of an orb that was written.
pub open spec fn summary_shown(orb: OrbView) -> Seq<Seq<char>> {
    let base = seq![
        "  title:    "@ + orb.title,
        "  type:     "@ + orb.orb_type.name(),
        "  state:    "@ + state_label(orb),
        "  priority: "@ + priority_shown(orb.priority),
    ];
    if orb.labels.len() > 0 {
        base.push("  labels:   "@ + joined(orb.labels, ", "@))
    } else {
        base
    }
}

/// What is shown of an orb that was written.
pub fn summary_lines(orb: &Orb) -> (r: Vec<String>)
    ensures
        texts(r@) == summary_shown(orb@),
{
    let mut r: Vec<String> = Vec::new();
    r.push(concat("  title:    ", orb.title.as_str()));
    r.push(concat("  type:     ", orb_type_label(&orb.orb_type)));
    r.push(concat("  state:    ", lifecycle_label(orb)));
    r.push(concat("  priority: ", priority_text(orb.priority).as_str()));
    if orb.labels.len() > 0 {
        r.push(concat("  labels:   ", join(orb.labels.as_slice(), ", ").as_str()));
    }
    assert(texts(r@) =~= summary_shown(orb@));
    r
}

/// The lines with one more where there is something to show.
pub open spec fn with_optional(lines: Seq<Seq<char>>, start: Seq<char>, rest: Option<Seq<char>>) -> Seq<
    Seq<char>,
> {
    match rest {
        Some(s) => lines.push(start + s),
        None => lines,
    }
}

/// A time as it is shown.
pub open spec fn time_shown(t: Timestamp) -> Seq<char> {
    displayed(t@.secs, t@.nanos)
}

/// What is shown of one orb in full, with the texts of the times at which it was created,
/// updated and closed, and of its confidence, if it has one.
pub open spec fn detail_shown(
    orb: OrbView,
    created: Seq<char>,
    updated: Seq<char>,
    closed: Option<Seq<char>>,
    confidence: Option<Seq<char>>,
) -> Seq<Seq<char>> {
    let head = seq![
        "Orb:         "@ + orb.id,
        "Title:       "@ + orb.title,
        "Description: "@ + orb.description,
        "Type:        "@ + orb.orb_type.name(),
        "State:       "@ + state_label(orb),
        "Priority:    "@ + priority_shown(orb.priority),
    ];
    let labels = if orb.labels.len() > 0 {
        Some(joined(orb.labels, ", "@))
    } else {
        None
    };
    let placed = with_optional(
        with_optional(with_optional(head, "Labels:      "@, labels), "Parent:      "@, orb.parent_id),
        "Root:        "@,
        orb.root_id,
    );
    let dated = with_optional(
        placed.push("Created:     "@ + created).push("Updated:     "@ + updated),
        "Closed:      "@,
        closed,
    );
    let judged = with_optional(
        with_optional(dated, "Result:      "@, orb.result),
        "Confidence:  "@,
        confidence,
    );
    if orb.is_tombstoned() {
        with_optional(judged.push("Deleted:     yes"@), "Reason:      "@, orb.delete_reason)
    } else {
        judged
    }
}

/// Adds a line where there is something to show.
fn push_optional(lines: &mut Vec<String>, start: &str, rest: Option<&str>)
    ensures
        texts(final(lines)@) == with_optional(texts(old(lines)@), start@, opt_str(rest)),
{
    if let Some(s) = rest {
        let ghost before = texts(lines@);
        lines.push(concat(start, s));
        assert(texts(lines@) =~= before.push(start@ + s@));
    }
}

/// Adds a line.
fn push_line(lines: &mut Vec<String>, start: &str, rest: &str)
    ensures
        texts(final(lines)@) == texts(old(lines)@).push(start@ + rest@),
{
    let ghost before = texts(lines@);
    lines.push(concat(start, rest));
    assert(texts(lines@) =~= before.push(start@ + rest@));
}

/// Adds a line for an identifier where there is one.
fn push_id(lines: &mut Vec<String>, start: &str, id: &Option<OrbId>)
    ensures
        texts(final(lines)@) == with_optional(
            texts(old(lines)@),
            start@,
            crate::orb::opt_id(*id),
        ),
{
    match id {
        Some(i) => push_line(lines, start, i.as_str()),
        None => {},
    }
}

/// Adds a line for a text where there is one.
fn push_text(lines: &mut Vec<String>, start: &str, text: &Option<String>)
    ensures
        texts(final(lines)@) == with_optional(
            texts(old(lines)@),
            start@,
            crate::text::opt_text(*text),
        ),
{
    match text {
        Some(s) => push_line(lines, start, s.as_str()),
        None => {},
    }
}

/// What is shown of one orb in full. `confidence` is the text of its confidence, if it has
/// one.
pub fn detail_lines(orb: &Orb, confidence: Option<&str>) -> (r: Vec<String>)
    ensures
        texts(r@) == detail_shown(
            orb@,
            time_shown(orb.created_at),
            time_shown(orb.updated_at),
            match orb.closed_at {
                Some(t) => Some(time_shown(t)),
                None => None,
            },
            opt_str(confidence),
        ),
{
    let created = orb.created_at.text();
    let updated = orb.updated_at.text();
    match orb.closed_at {
        Some(t) => {
            let closed = t.text();
            let text = Some(closed.as_str());
            dated_lines(orb, created.as_str(), updated.as_str(), text, confidence)
        },
        None => dated_lines(orb, created.as_str(), updated.as_str(), None, confidence),
    }
}

/// What is shown of one orb in full, with the texts of the times at which it was created,
/// updated and closed, and of its confidence, if it has one.
pub fn dated_lines(
    orb: &Orb,
    created: &str,
    updated: &str,
    closed: Option<&str>,
    confidence: Option<&str>,
) -> (r: Vec<String>)
    ensures
        texts(r@) == detail_shown(orb@, created@, updated@, opt_str(closed), opt_str(confidence)),
{
    let mut r: Vec<String> = Vec::new();
    r.push(concat("Orb:         ", orb.id.as_str()));
    r.push(concat("Title:       ", orb.title.as_str()));
    r.push(concat("Description: ", orb.description.as_str()));
    r.push(concat("Type:        ", orb_type_label(&orb.orb_type)));
    r.push(concat("State:       ", lifecycle_label(orb)));
    r.push(concat("Priority:    ", priority_text(orb.priority).as_str()));
    assert(texts(r@) =~= seq![
        "Orb:         "@ + orb@.id,
        "Title:       "@ + orb@.title,
        "Description: "@ + orb@.description,
        "Type:        "@ + orb@.orb_type.name(),
        "State:       "@ + state_label(orb@),
        "Priority:    "@ + priority_shown(orb@.priority),
    ]);
    if orb.labels.len() > 0 {
        push_line(&mut r, "Labels:      ", join(orb.labels.as_slice(), ", ").as_str());
    }
    push_id(&mut r, "Parent:      ", &orb.parent_id);
    push_id(&mut r, "Root:        ", &orb.root_id);
    push_line(&mut r, "Created:     ", created);
    push_line(&mut r, "Updated:     ", updated);
    push_optional(&mut r, "Closed:      ", closed);
    push_text(&mut r, "Result:      ", &orb.result);
    push_optional(&mut r, "Confidence:  ", confidence);
    if orb.is_tombstoned() {
        let ghost before = texts(r@);
        r.push("Deleted:     yes".to_owned());
        assert(texts(r@) =~= before.push("Deleted:     yes"@));
        push_text(&mut r, "Reason:      ", &orb.delete_reason);
    }
    r
}

/// An edge as it is shown.
pub open spec fn edge_shown(from: Seq<char>, edge_type: EdgeType, to: Seq<char>) -> Seq<char> {
    from + " -"@ + edge_name(edge_type) + "-> "@ + to
}

/// An edge as it is shown.
pub fn edge_text(from: &str, edge_type: EdgeType, to: &str) -> (s: String)
    ensures
        s@ == edge_shown(from@, edge_type, to@),
{
    let mut s = from.to_owned();
    s.append(" -");
    s.append(edge_type_label(edge_type));
    s.append("-> ");
    s.append(to);
    s
}

/// What is shown of a list of edges.
pub open spec fn edges_shown(edges: Seq<DepEdgeView>) -> Seq<Seq<char>> {
    if edges.len() == 0 {
        seq!["No deps"@]
    } else {
        edges.map_values(|e: DepEdgeView| edge_shown(e.from, e.edge_type, e.to))
    }
}

/// What is shown of a list of edges: one line for each.
pub fn edge_lines(edges: &Vec<DepEdge>) -> (r: Vec<String>)
    ensures
        texts(r@) == edges_shown(views(edges@)),
{
    let mut r: Vec<String> = Vec::new();
    if edges.len() == 0 {
        r.push("No deps".to_owned());
        assert(texts(r@) =~= edges_shown(views(edges@)));
        return r;
    }
    let mut i: usize = 0;
    while i < edges.len()
        invariant
            i <= edges@.len(),
            r@.len() == i,
            forall|j: int|
                0 <= j < i ==> (#[trigger] r@[j])@ == edge_shown(
                    edges@[j]@.from,
                    edges@[j]@.edge_type,
                    edges@[j]@.to,
                ),
        decreases edges@.len() - i,
    {
        let e = &edges[i];
        r.push(edge_text(e.from.as_str(), e.edge_type, e.to.as_str()));
        i += 1;
    }
    assert(texts(r@) =~= edges_shown(views(edges@)));
    r
}

/// What is shown after an edge was added.
pub fn added_line(from: &str, edge_type: EdgeType, to: &str) -> (s: String)
    ensures
        s@ == "Added "@ + edge_shown(from@, edge_type, to@),
{
    concat("Added ", edge_text(from, edge_type, to).as_str())
}

/// What is shown after an edge of the given type was removed, or none was found.
pub fn removed_line(from: &str, edge_type: Option<EdgeType>, to: &str) -> (s: String)
    ensures
        s@ == match edge_type {
            Some(t) => "Removed "@ + edge_shown(from@, t, to@),
            None => "No matching edge"@,
        },
{
    match edge_type {
        Some(t) => concat("Removed ", edge_text(from, t, to).as_str()),
        None => "No matching edge".to_owned(),
    }
}

/// The line for an identifier that answers a query: with the title of the orb, if there is
/// such an orb.
pub open spec fn answer_line(store: OrbStoreView, id: Seq<char>) -> Seq<char> {
    match store.find(id) {
        Some(o) => o.id + " "@ + o.title,
        None => id,
    }
}

/// What is shown of the answer to a query.
pub open spec fn answer_shown(store: OrbStoreView, ids: Seq<Seq<char>>) -> Seq<Seq<char>> {
    if ids.len() == 0 {
        seq!["No orbs"@]
    } else {
        ids.map_values(|id: Seq<char>| answer_line(store, id))
    }
}

/// What is shown of the answer to a query: one line for each identifier.
pub fn answer_lines(store: &OrbStore, ids: &Vec<OrbId>) -> (r: Vec<String>)
    ensures
        texts(r@) == answer_shown(store@, views(ids@)),
{
    let mut r: Vec<String> = Vec::new();
    if ids.len() == 0 {
        r.push("No orbs".to_owned());
        assert(texts(r@) =~= answer_shown(store@, views(ids@)));
        return r;
    }
    let mut i: usize = 0;
    while i < ids.len()
        invariant
            i <= ids@.len(),
            r@.len() == i,
            forall|j: int| 0 <= j < i ==> (#[trigger] r@[j])@ == answer_line(store@, ids@[j]@),
        decreases ids@.len() - i,
    {
        match store.load_by_id(&ids[i]) {
            Some(o) => {
                let mut s = o.id.as_str().to_owned();
                s.append(" ");
                s.append(o.title.as_str());
                r.push(s);
            },
            None => {
                r.push(ids[i].as_str().to_owned());
            },
        }
        i += 1;
    }
    assert(texts(r@) =~= answer_shown(store@, views(ids@)));
    r
}

/// Two spaces for each step down.
pub open spec fn indent(depth: nat) -> Seq<char>
    decreases depth,
{
    if depth == 0 {
        Seq::empty()
    } else {
        indent((depth - 1) as nat) + "  "@
    }
}

/// The line of an orb in a tree.
pub open spec fn tree_line(orb: OrbView, depth: nat) -> Seq<char> {
    indent(depth) + orb.id + " ["@ + state_label(orb) + "] "@ + orb.title
}

/// What is shown of a tree: each orb before its children.
pub open spec fn tree_shown(node: OrbNode) -> Seq<Seq<char>>
    decreases node, node.children@.len() + 1,
{
    seq![tree_line(node.orb@, node.depth as nat)] + children_shown(node, node.children@.len())
}

/// What is shown of the trees of the first `n` children.
pub open spec fn children_shown(node: OrbNode, n: nat) -> Seq<Seq<char>>
    decreases node, n,
{
    if n == 0 || n > node.children@.len() {
        Seq::empty()
    } else {
        children_shown(node, (n - 1) as nat) + tree_shown(node.children@[n - 1])
    }
}

/// The line of an orb in a tree.
fn tree_text(orb: &Orb, depth: usize) -> (s: String)
    ensures
        s@ == tree_line(orb@, depth as nat),
{
    let mut s = String::new();
    let mut i: usize = 0;
    assert(s@ =~= indent(0));
    while i < depth
        invariant
            i <= depth,
            s@ == indent(i as nat),
        decreases depth - i,
    {
        s.append("  ");
        i += 1;
    }
    s.append(orb.id.as_str());
    s.append(" [");
    s.append(lifecycle_label(orb));
    s.append("] ");
    s.append(orb.title.as_str());
    s
}

/// What is shown of a tree: each orb before its children, two spaces further in for each step
/// down.
pub fn tree_lines(node: &OrbNode) -> (r: Vec<String>)
    ensures
        texts(r@) == tree_shown(*node),
    decreases node,
{
    let mut r: Vec<String> = Vec::new();
    r.push(tree_text(&node.orb, node.depth));
    let ghost head = seq![tree_line(node.orb@, node.depth as nat)];
    let mut i: usize = 0;
    assert(texts(r@) =~= head + children_shown(*node, 0));
    while i < node.children.len()
        invariant
            i <= node.children@.len(),
            head == seq![tree_line(node.orb@, node.depth as nat)],
            texts(r@) == head + children_shown(*node, i as nat),
        decreases node.children@.len() - i,
    {
        let ghost before = texts(r@);
        let mut below = tree_lines(&node.children[i]);
        let ghost more = texts(below@);
        r.append(&mut below);
        assert(texts(r@) =~= before + more);
        i += 1;
        assert(texts(r@) =~= head + children_shown(*node, i as nat));
    }
    r
}

/// A tree is shown with one line for each of its orbs.
pub proof fn law_tree_lines(node: OrbNode)
    ensures
        tree_shown(node).len() == crate::tree::flat(node).len(),
    decreases node, node.children@.len() + 1,
{
    lemma_children_lines(node, node.children@.len());
}

/// The trees of the first `n` children are shown with one line for each of their orbs.
proof fn lemma_children_lines(node: OrbNode, n: nat)
    requires
        n <= node.children@.len(),
    ensures
        children_shown(node, n).len() == crate::tree::flat_children(node, n).len(),
    decreases node, n,
{
    if n > 0 {
        lemma_children_lines(node, (n - 1) as nat);
        law_tree_lines(node.children@[n - 1]);
    }
}

/// A list has one line for each orb, in order, with its identifier, type, state, priority and
/// title; one without orbs says so.
pub proof fn law_list_lines(orbs: Seq<OrbView>, i: int)
    ensures
        orbs.len() == 0 ==> list_shown(orbs) == seq!["No orbs"@],
        orbs.len() > 0 ==> list_shown(orbs).len() == orbs.len(),
        0 <= i < orbs.len() ==> list_shown(orbs)[i] == orbs[i].id + " ["@
            + orbs[i].orb_type.name() + "] "@ + state_label(orbs[i]) + " p"@ + decimal(
            orbs[i].priority as nat,
        ) + " "@ + orbs[i].title,
{
}

/// A priority is shown as its number, with its name in brackets behind it.
pub proof fn law_priority_shown(priority: u8)
    ensures
        priority_shown(priority) == decimal(priority as nat) + " ("@ + priority_label(priority)
            + ")"@,
{
}

/// What is shown of an orb that was written: its title, type, state and priority, and its labels
/// if it has any.
pub proof fn law_summary(orb: OrbView)
    ensures
        summary_shown(orb).len() == if orb.labels.len() > 0 {
            5int
        } else {
            4
        },
        summary_shown(orb)[0] == "  title:    "@ + orb.title,
        summary_shown(orb)[1] == "  type:     "@ + orb.orb_type.name(),
        summary_shown(orb)[2] == "  state:    "@ + state_label(orb),
        summary_shown(orb)[3] == "  priority: "@ + priority_shown(orb.priority),
        orb.labels.len() > 0 ==> summary_shown(orb)[4] == "  labels:   "@ + joined(
            orb.labels,
            ", "@,
        ),
{
}

/// Of one orb all that it has is shown: six lines always, then its labels, parent and root, the
/// times, what it came to, and whether it was deleted and why, each where there is any.
pub proof fn law_detail(
    orb: OrbView,
    created: Seq<char>,
    updated: Seq<char>,
    closed: Option<Seq<char>>,
    confidence: Option<Seq<char>>,
)
    ensures
        ({
            let r = detail_shown(orb, created, updated, closed, confidence);
            let n = 6 + (if orb.labels.len() > 0 {
                1int
            } else {
                0
            }) + (if orb.parent_id is Some {
                1int
            } else {
                0
            }) + (if orb.root_id is Some {
                1int
            } else {
                0
            });
            let m = n + 2 + (if closed is Some {
                1int
            } else {
                0
            });
            let k = m + (if orb.result is Some {
                1int
            } else {
                0
            }) + (if confidence is Some {
                1int
            } else {
                0
            });
            &&& r[0] == "Orb:         "@ + orb.id
            &&& r[1] == "Title:       "@ + orb.title
            &&& r[2] == "Description: "@ + orb.description
            &&& r[3] == "Type:        "@ + orb.orb_type.name()
            &&& r[4] == "State:       "@ + state_label(orb)
            &&& r[5] == "Priority:    "@ + priority_shown(orb.priority)
            &&& orb.labels.len() > 0 ==> r[6] == "Labels:      "@ + joined(orb.labels, ", "@)
            &&& orb.root_id matches Some(root) ==> r[n - 1] == "Root:        "@ + root
            &&& orb.parent_id matches Some(parent) ==> r[n - 1 - (if orb.root_id is Some {
                1int
            } else {
                0
            })] == "Parent:      "@ + parent
            &&& r[n] == "Created:     "@ + created
            &&& r[n + 1] == "Updated:     "@ + updated
            &&& closed matches Some(c) ==> r[n + 2] == "Closed:      "@ + c
            &&& orb.result matches Some(result) ==> r[m] == "Result:      "@ + result
            &&& confidence matches Some(c) ==> r[k - 1] == "Confidence:  "@ + c
            &&& !orb.is_tombstoned() ==> r.len() == k
            &&& orb.is_tombstoned() ==> r[k] == "Deleted:     yes"@
            &&& orb.is_tombstoned() && orb.delete_reason is None ==> r.len() == k + 1
            &&& orb.is_tombstoned() && orb.delete_reason is Some ==> r.len() == k + 2 && r[k + 1]
                == "Reason:      "@ + orb.delete_reason->0
        }),
{
}

/// Edges are shown one on a line, in order, with where they start, their type and where they end.
pub proof fn law_edge_lines(edges: Seq<DepEdgeView>, i: int)
    ensures
        edges.len() == 0 ==> edges_shown(edges) == seq!["No deps"@],
        edges.len() > 0 ==> edges_shown(edges).len() == edges.len(),
        0 <= i < edges.len() ==> edges_shown(edges)[i] == edges[i].from + " -"@ + edge_name(
            edges[i].edge_type,
        ) + "-> "@ + edges[i].to,
{
}

/// An answer has one line for each identifier, in order, with the title where there is such an
/// orb.
pub proof fn law_answer_lines(store: OrbStoreView, ids: Seq<Seq<char>>, i: int)
    ensures
        ids.len() == 0 ==> answer_shown(store, ids) == seq!["No orbs"@],
        ids.len() > 0 ==> answer_shown(store, ids).len() == ids.len(),
        0 <= i < ids.len() ==> {
            &&& store.find(ids[i]) matches Some(o) ==> answer_shown(store, ids)[i] == o.id + " "@
                + o.title
            &&& store.find(ids[i]) is None ==> answer_shown(store, ids)[i] == ids[i]
        },
{
}

/// A line of a tree starts with two spaces for each step down, and then has the identifier, the
/// state and the title of the orb.
pub proof fn law_tree_line(orb: OrbView, depth: nat)
    ensures
        indent(depth).len() == 2 * depth,
        forall|i: int| 0 <= i < 2 * depth ==> #[trigger] indent(depth)[i] == ' ',
        tree_line(orb, depth) == indent(depth) + (orb.id + " ["@ + state_label(orb) + "] "@
            + orb.title),
    decreases depth,
{
    reveal_strlit("  ");
    if depth > 0 {
        law_tree_line(orb, (depth - 1) as nat);
    }
    assert(tree_line(orb, depth) =~= indent(depth) + (orb.id + " ["@ + state_label(orb) + "] "@
        + orb.title));
}

/// What is shown when a store is set up: its directory, and the paths of its three files.
pub proof fn law_init_lines(dir: Seq<char>)
    ensures
        init_shown(dir).len() == 4,
        init_shown(dir)[0] == "Initialized "@ + dir,
        init_shown(dir)[1] == "  "@ + joined_path(dir, "orbs.jsonl"@),
        init_shown(dir)[2] == "  "@ + joined_path(dir, "deps.jsonl"@),
        init_shown(dir)[3] == "  "@ + joined_path(dir, "events.jsonl"@),
{
}

} // verus!
