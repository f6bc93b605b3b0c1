//! Properties of user objects: the elements of a small XML document.
use vstd::prelude::*;

use crate::text;

verus! {

/// One node of a parsed document.
#[derive(Debug)]
pub struct XmlNode {
    /// Index of the parent node; the document node has none.
    pub parent: Option<usize>,
    pub is_element: bool,
    /// Local tag name of an element.
    pub name: String,
    /// The text that a text node holds or that an element starts with.
    pub text: Option<String>,
}

/// A node: its parent, whether it is an element, its name and its text.
pub type NodeView = (Option<usize>, bool, Seq<char>, Option<Seq<char>>);

impl View for XmlNode {
    type V = NodeView;

    open spec fn view(&self) -> NodeView {
        (self.parent, self.is_element, self.name@, text::opt_text(self.text))
    }
}

pub open spec fn node_views(nodes: Seq<XmlNode>) -> Seq<NodeView> {
    Seq::new(nodes.len(), |i: int| nodes[i]@)
}

/// The nodes that `roxmltree::Document::parse` finds in a text, in document
/// order; nothing if the text is not well formed.
pub uninterp spec fn xml_document(xml: Seq<char>) -> Option<
    Seq<(Option<usize>, bool, Seq<char>, Option<Seq<char>>)>,
>;

/// `roxmltree::Document::parse`, with the document's nodes copied out in document
/// order: for each node the index of its parent, whether it is an element, its
/// local tag name and its `text()`. What the parser accepts and how it splits a
/// text into nodes is named [`xml_document`].
#[verifier::external_body]
fn read_document(xml: &str) -> (r: Option<Vec<XmlNode>>)
    ensures
        match r {
            Some(nodes) => xml_document(xml@) == Some(node_views(nodes@)),
            None => xml_document(xml@) is None,
        },
{
    let doc = roxmltree::Document::parse(xml).ok()?;
    let nodes = doc.descendants().map(
        |n| XmlNode {
            parent: n.parent().map(|p| p.id().get_usize()),
            is_element: n.is_element(),
            name: n.tag_name().name().to_string(),
            text: n.text().map(|t| t.to_string()),
        },
    );
    Some(nodes.collect())
}

/// A leaf value with the dotted path of tags that leads to it.
#[derive(Debug, Clone)]
pub struct SpaceUserObjectPropertyValue {
    pub path: String,
    pub value: String,
}

pub open spec fn value_views(s: Seq<SpaceUserObjectPropertyValue>) -> Seq<(Seq<char>, Seq<char>)> {
    Seq::new(s.len(), |i: int| (s[i].path@, s[i].value@))
}

/// Whether node `i` is an element whose parent is `p`.
pub open spec fn is_child_element(nodes: Seq<NodeView>, i: int, p: int) -> bool {
    nodes[i].1 && nodes[i].0 == Some(p as usize) && 0 <= p <= usize::MAX
}

/// Whether `r` is the root element: the first element below the document node.
pub open spec fn is_root_element(nodes: Seq<NodeView>, r: int) -> bool {
    &&& 0 <= r < nodes.len()
    &&& is_child_element(nodes, r, 0)
    &&& forall|i: int| 0 <= i < r ==> !#[trigger] is_child_element(nodes, i, 0)
}

/// The tags from below the root element down to element `i`, joined with dots.
/// Nodes that are not elements below the root element have none.
pub open spec fn dotted_path(nodes: Seq<NodeView>, root: int, i: int) -> Option<Seq<char>>
    decreases i,
{
    if i < 0 || !nodes[i].1 || nodes[i].0 is None {
        None
    } else if nodes[i].0 == Some(root as usize) {
        Some(nodes[i].2)
    } else if nodes[i].0->0 >= i {
        None
    } else {
        match dotted_path(nodes, root, nodes[i].0->0 as int) {
            Some(p) => Some(p + "."@ + nodes[i].2),
            None => None,
        }
    }
}

/// Whether no element is a child of node `i`.
pub open spec fn is_leaf(nodes: Seq<NodeView>, i: int) -> bool {
    forall|j: int| 0 <= j < nodes.len() ==> !#[trigger] is_child_element(nodes, j, i)
}

/// The tags of the elements below the root element among the first `n` nodes, each
/// once, in document order.
pub open spec fn tags_before(nodes: Seq<NodeView>, root: int, n: int) -> Seq<Seq<char>>
    decreases n,
{
    if n <= 0 {
        Seq::empty()
    } else {
        let rest = tags_before(nodes, root, n - 1);
        if dotted_path(nodes, root, n - 1) is Some && !rest.contains(nodes[n - 1].2) {
            rest.push(nodes[n - 1].2)
        } else {
            rest
        }
    }
}

/// Whether node `i` is a leaf element below the root element that holds more than
/// white space.
pub open spec fn has_value(nodes: Seq<NodeView>, root: int, i: int) -> bool {
    &&& dotted_path(nodes, root, i) is Some
    &&& is_leaf(nodes, i)
    &&& nodes[i].3 is Some
    &&& text::trimmed(nodes[i].3->0).len() > 0
}

/// The values among the first `n` nodes, in document order.
pub open spec fn values_before(nodes: Seq<NodeView>, root: int, n: int) -> Seq<
    (Seq<char>, Seq<char>),
>
    decreases n,
{
    if n <= 0 {
        Seq::empty()
    } else if has_value(nodes, root, n - 1) {
        values_before(nodes, root, n - 1).push(
            (dotted_path(nodes, root, n - 1)->0, text::trimmed(nodes[n - 1].3->0)),
        )
    } else {
        values_before(nodes, root, n - 1)
    }
}

/// The tags of a document without root element are none.
pub open spec fn document_tags(nodes: Seq<NodeView>) -> Seq<Seq<char>> {
    if exists|r: int| is_root_element(nodes, r) {
        tags_before(
            nodes,
            choose|r: int| is_root_element(nodes, r),
            nodes.len() as int,
        )
    } else {
        Seq::empty()
    }
}

/// The values of a document without root element are none.
pub open spec fn document_values(nodes: Seq<NodeView>) -> Seq<(Seq<char>, Seq<char>)> {
    if exists|r: int| is_root_element(nodes, r) {
        values_before(
            nodes,
            choose|r: int| is_root_element(nodes, r),
            nodes.len() as int,
        )
    } else {
        Seq::empty()
    }
}

/// Index of the root element.
fn find_root(nodes: &Vec<XmlNode>) -> (r: Option<usize>)
    ensures
        match r {
            Some(i) => is_root_element(node_views(nodes@), i as int),
            None => forall|i: int| !is_root_element(node_views(nodes@), i),
        },
{
    let ghost views = node_views(nodes@);
    let mut i: usize = 0;
    while i < nodes.len()
        invariant
            i <= nodes.len(),
            views == node_views(nodes@),
            forall|k: int| 0 <= k < i ==> !#[trigger] is_child_element(views, k, 0),
        decreases nodes.len() - i,
    {
        assert(views[i as int] == nodes@[i as int]@);
        if nodes[i].is_element {
            if let Some(p) = nodes[i].parent {
                if p == 0 {
                    return Some(i);
                }
            }
        }
        i += 1;
    }
    None
}

/// For each node whether some element is its child.
fn mark_parents(nodes: &Vec<XmlNode>) -> (r: Vec<bool>)
    ensures
        r@.len() == nodes@.len(),
        forall|i: int|
            0 <= i < r@.len() ==> #[trigger] r@[i] == !is_leaf(node_views(nodes@), i),
{
    let ghost views = node_views(nodes@);
    let n: usize = nodes.len();
    let mut out: Vec<bool> = Vec::new();
    let mut i: usize = 0;
    while i < n
        invariant
            i <= n,
            out@.len() == i,
            forall|k: int| 0 <= k < i ==> #[trigger] out@[k] == false,
        decreases n - i,
    {
        out.push(false);
        i += 1;
    }
    let mut j: usize = 0;
    while j < n
        invariant
            j <= n,
            n == nodes@.len(),
            views == node_views(nodes@),
            out@.len() == n,
            forall|k: int|
                0 <= k < n ==> #[trigger] out@[k] == exists|m: int|
                    0 <= m < j && #[trigger] is_child_element(views, m, k),
        decreases n - j,
    {
        assert(views[j as int] == nodes@[j as int]@);
        let ghost before = out@;
        if nodes[j].is_element {
            if let Some(p) = nodes[j].parent {
                if p < n {
                    out[p] = true;
                }
            }
        }
        assert forall|k: int| 0 <= k < n implies #[trigger] out@[k] == exists|m: int|
            0 <= m < j + 1 && #[trigger] is_child_element(views, m, k) by {
            if before[k] {
                let m = choose|m: int| 0 <= m < j && #[trigger] is_child_element(views, m, k);
                assert(is_child_element(views, m, k));
            }
            if is_child_element(views, j as int, k) {
                assert(out@[k]);
            }
        }
        j += 1;
    }
    out
}

/// The path of node `i`, given the paths of the nodes before it.
fn path_of(nodes: &Vec<XmlNode>, root: usize, i: usize, paths: &Vec<Option<String>>) -> (r: Option<
    String,
>)
    requires
        i < nodes@.len(),
        paths@.len() == i,
        forall|k: int|
            0 <= k < i ==> text::opt_text(#[trigger] paths@[k]) == dotted_path(
                node_views(nodes@),
                root as int,
                k,
            ),
    ensures
        text::opt_text(r) == dotted_path(node_views(nodes@), root as int, i as int),
{
    assert(node_views(nodes@)[i as int] == nodes@[i as int]@);
    let node = &nodes[i];
    if !node.is_element {
        return None;
    }
    match node.parent {
        None => None,
        Some(p) => {
            if p == root {
                Some(text::copy(node.name.as_str()))
            } else if p >= i {
                None
            } else {
                match &paths[p] {
                    Some(head) => Some(
                        text::concat3(head.as_str(), ".", node.name.as_str()),
                    ),
                    None => None,
                }
            }
        },
    }
}

/// Collects the tags and the leaf values of a parsed document.
pub fn collect_properties(nodes: &Vec<XmlNode>) -> (r: (
    Vec<String>,
    Vec<SpaceUserObjectPropertyValue>,
))
    ensures
        text::texts(r.0@) == document_tags(node_views(nodes@)),
        value_views(r.1@) == document_values(node_views(nodes@)),
{
    let mut tags: Vec<String> = Vec::new();
    let mut values: Vec<SpaceUserObjectPropertyValue> = Vec::new();
    let ghost views = node_views(nodes@);
    assert(text::texts(tags@) =~= Seq::empty());
    assert(value_views(values@) =~= Seq::empty());
    let root: usize = match find_root(nodes) {
        Some(root) => root,
        None => {
            return (tags, values);
        },
    };
    proof {
        let r = choose|r: int| is_root_element(views, r);
        assert(is_root_element(views, r));
        assert(r == root) by {
            if r < root {
                assert(is_child_element(views, r, 0));
            }
            if root < r {
                assert(is_child_element(views, root as int, 0));
            }
        }
    }
    let parents = mark_parents(nodes);
    let mut paths: Vec<Option<String>> = Vec::new();
    let mut i: usize = 0;
    while i < nodes.len()
        invariant
            i <= nodes.len(),
            views == node_views(nodes@),
            paths@.len() == i,
            forall|k: int|
                0 <= k < i ==> text::opt_text(#[trigger] paths@[k]) == dotted_path(
                    views,
                    root as int,
                    k,
                ),
            parents@.len() == nodes@.len(),
            forall|k: int|
                0 <= k < parents@.len() ==> #[trigger] parents@[k] == !is_leaf(views, k),
            text::texts(tags@) == tags_before(views, root as int, i as int),
            value_views(values@) == values_before(views, root as int, i as int),
        decreases nodes.len() - i,
    {
        assert(views[i as int] == nodes@[i as int]@);
        let path = path_of(nodes, root, i, &paths);
        let ghost tags_so_far = text::texts(tags@);
        let ghost values_so_far = value_views(values@);
        if let Some(p) = &path {
            let name = nodes[i].name.as_str();
            if !text::contains_text(&tags, name) {
                tags.push(text::copy(name));
                assert(text::texts(tags@) =~= tags_so_far.push(name@));
            }
            if !parents[i] {
                if let Some(t) = &nodes[i].text {
                    let value = text::trim(t.as_str());
                    if !value.as_str().is_empty() {
                        values.push(
                            SpaceUserObjectPropertyValue { path: text::copy(p.as_str()), value },
                        );
                        assert(value_views(values@) =~= values_so_far.push(
                            (p@, text::trimmed(t@)),
                        ));
                    }
                }
            }
        }
        paths.push(path);
        i += 1;
    }
    (tags, values)
}

/// Reads the properties of a user object: whether they are well-formed XML, the
/// tags that occur below the root element and the values of its leaf elements.
pub fn parse_user_object_properties(xml: &str) -> (r: (
    bool,
    Vec<String>,
    Vec<SpaceUserObjectPropertyValue>,
))
    ensures
        r.0 == xml_document(xml@) is Some,
        match xml_document(xml@) {
            Some(nodes) => text::texts(r.1@) == document_tags(nodes) && value_views(r.2@)
                == document_values(nodes),
            None => r.1@.len() == 0 && r.2@.len() == 0,
        },
{
    match read_document(xml) {
        None => (false, Vec::new(), Vec::new()),
        Some(nodes) => {
            let (tags, values) = collect_properties(&nodes);
            (true, tags, values)
        },
    }
}

/// The path of an element below the root is its own name; that of any other is the path of
/// its parent, a dot and its name.
pub proof fn paths_lead_through_the_parents(nodes: Seq<NodeView>, root: int, i: int)
    requires
        0 <= i < nodes.len(),
        0 <= root <= usize::MAX,
        nodes[i].1,
        nodes[i].0 is Some,
    ensures
        nodes[i].0->0 == root ==> dotted_path(nodes, root, i) == Some(nodes[i].2),
        nodes[i].0->0 != root && nodes[i].0->0 < i ==> dotted_path(nodes, root, i) == match
            dotted_path(nodes, root, nodes[i].0->0 as int) {
            Some(p) => Some(p + "."@ + nodes[i].2),
            None => None,
        },
{
}

/// The tags of a document are those of the elements below its root, each once.
pub proof fn tags_stand_once(nodes: Seq<NodeView>, root: int, n: int, i: int)
    requires
        0 <= i < n <= nodes.len(),
    ensures
        tags_before(nodes, root, n).no_duplicates(),
        dotted_path(nodes, root, i) is Some ==> tags_before(nodes, root, n).contains(nodes[i].2),
    decreases n,
{
    let now = tags_before(nodes, root, n);
    let before = tags_before(nodes, root, n - 1);
    if n > 1 {
        let j = if i < n - 1 {
            i
        } else {
            0
        };
        tags_stand_once(nodes, root, n - 1, j);
    }
    if dotted_path(nodes, root, i) is Some {
        if before.contains(nodes[i].2) {
            let k = choose|k: int| 0 <= k < before.len() && before[k] == nodes[i].2;
            assert(now[k] == nodes[i].2);
        } else {
            assert(i == n - 1);
            assert(now[before.len() as int] == nodes[i].2);
        }
    }
}

/// The values of a document are the texts of its leaves without white space around them,
/// under their paths; a leaf without text has none.
pub proof fn leaves_have_values(nodes: Seq<NodeView>, root: int, n: int, i: int)
    requires
        0 <= i < n <= nodes.len(),
    ensures
        has_value(nodes, root, i) ==> values_before(nodes, root, n).contains(
            (dotted_path(nodes, root, i)->0, text::trimmed(nodes[i].3->0)),
        ),
        !has_value(nodes, root, i) ==> values_before(nodes, root, i + 1) == values_before(
            nodes,
            root,
            i,
        ),
    decreases n,
{
    if has_value(nodes, root, i) {
        let v = (dotted_path(nodes, root, i)->0, text::trimmed(nodes[i].3->0));
        let now = values_before(nodes, root, n);
        let before = values_before(nodes, root, n - 1);
        if i < n - 1 {
            leaves_have_values(nodes, root, n - 1, i);
            let k = choose|k: int| 0 <= k < before.len() && before[k] == v;
            assert(now[k] == v);
        } else {
            assert(now[before.len() as int] == v);
        }
    }
}

/// Only leaves have values: an element with a child element has none, nor has one whose text
/// is all white, or one that is not below the root.
pub proof fn only_leaves_have_values(nodes: Seq<NodeView>, root: int, i: int, j: int)
    requires
        0 <= i < nodes.len(),
        0 <= j < nodes.len(),
    ensures
        nodes[j].1 && nodes[j].0 == Some(i as usize) && i <= usize::MAX ==> !has_value(nodes, root, i),
        nodes[i].3 is None ==> !has_value(nodes, root, i),
        nodes[i].3 matches Some(t) ==> (text::trimmed(t).len() == 0 ==> !has_value(nodes, root, i)),
        !nodes[i].1 || nodes[i].0 is None ==> !has_value(nodes, root, i),
{
    if nodes[j].1 && nodes[j].0 == Some(i as usize) && i <= usize::MAX {
        assert(is_child_element(nodes, j, i));
    }
}

} // verus!
