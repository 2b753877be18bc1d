//! The registry's XML document as a list of nodes in document order, read
//! with `roxmltree`, and the navigation the parsers use on it.
use crate::parse::registry::{opt_view};
use crate::text::{str_eq};
use vstd::prelude::*;

verus! {

broadcast use vstd::string::group_string_axioms;

/// One node of an XML document.
pub struct XmlNode {
    /// Position of the parent node in the document's node list.
    pub parent: Option<usize>,
    pub is_element: bool,
    /// The local tag name; empty for nodes that are not elements.
    pub tag: String,
    /// For an element its first child's text when that child is a text
    /// node; for a text or comment node its own text.
    pub text: Option<String>,
    /// The attributes, by local name, in document order.
    pub attrs: Vec<(String, String)>,
}

/// A node as the contracts see it.
pub struct NodeModel {
    pub parent: Option<usize>,
    pub is_element: bool,
    pub tag: Seq<char>,
    pub text: Option<Seq<char>>,
    pub attrs: Seq<(Seq<char>, Seq<char>)>,
}

impl View for XmlNode {
    type V = NodeModel;

    open spec fn view(&self) -> NodeModel {
        NodeModel {
            parent: self.parent,
            is_element: self.is_element,
            tag: self.tag@,
            text: opt_view(self.text),
            attrs: self.attrs@.map_values(|a: (String, String)| (a.0@, a.1@)),
        }
    }
}

/// The nodes `roxmltree` reads from `text`, in document order, or `None`
/// when `text` is not well-formed XML.
pub uninterp spec fn xml_node_list(text: Seq<char>) -> Option<Seq<NodeModel>>;

/// `roxmltree::Document::parse`, then every node of the document in
/// document order (`Document::descendants`), each converted to an
/// [`XmlNode`] with `Node::parent`'s `NodeId`, `Node::is_element`,
/// `Node::tag_name`, `Node::text` and `Node::attributes`. A `NodeId` is
/// the node's position in document order, so the parent is a position in
/// the list. The result is only named: it depends on `text` alone.
#[verifier::external_body]
fn read_nodes(text: &str) -> (r: Option<Vec<XmlNode>>)
    ensures
        match r {
            Some(v) => xml_node_list(text@) == Some(v@.map_values(|n: XmlNode| n@)),
            None => xml_node_list(text@) is None,
        },
{
    let doc = roxmltree::Document::parse(text).ok()?;
    Some(
        doc.descendants().map(|n| XmlNode {
            parent: n.parent().map(|p| p.id().get_usize()),
            is_element: n.is_element(),
            tag: n.tag_name().name().to_string(),
            text: n.text().map(|t| t.to_string()),
            attrs: n.attributes().map(|a| (a.name().to_string(), a.value().to_string())).collect(),
        }).collect(),
    )
}

/// The positions, in increasing order and below `k`, of the nodes whose
/// parent is `p`.
pub open spec fn children_upto(nodes: Seq<NodeModel>, p: int, k: int) -> Seq<int>
    decreases k,
{
    if k <= 0 {
        Seq::empty()
    } else {
        let prev = children_upto(nodes, p, k - 1);
        if k - 1 < nodes.len() && nodes[k - 1].parent == Some(p as usize) {
            prev.push(k - 1)
        } else {
            prev
        }
    }
}

/// The children of node `p`, in document order.
pub open spec fn children_of(nodes: Seq<NodeModel>, p: int) -> Seq<int> {
    children_upto(nodes, p, nodes.len() as int)
}

/// The children found below `k` are positions below `k`.
pub proof fn lemma_children_upto_bounds(nodes: Seq<NodeModel>, p: int, k: int)
    requires
        k <= nodes.len(),
    ensures
        forall|m: int|
            0 <= m < children_upto(nodes, p, k).len() ==> 0 <= #[trigger] children_upto(nodes, p, k)[m] < k,
    decreases k,
{
    if k > 0 {
        lemma_children_upto_bounds(nodes, p, k - 1);
        let prev = children_upto(nodes, p, k - 1);
        assert forall|m: int|
            0 <= m < children_upto(nodes, p, k).len() implies 0 <= #[trigger] children_upto(nodes, p, k)[m] < k by {
            if m < prev.len() {
                assert(children_upto(nodes, p, k)[m] == prev[m]);
            }
        }
    }
}

/// The value of the first attribute named `name`.
pub open spec fn attr_from(attrs: Seq<(Seq<char>, Seq<char>)>, name: Seq<char>, i: int) -> Option<Seq<char>>
    decreases attrs.len() - i,
{
    if i < 0 || i >= attrs.len() {
        None
    } else if attrs[i].0 == name {
        Some(attrs[i].1)
    } else {
        attr_from(attrs, name, i + 1)
    }
}

/// `Node::attribute`.
pub open spec fn attr(n: NodeModel, name: Seq<char>) -> Option<Seq<char>> {
    attr_from(n.attrs, name, 0)
}

/// `Node::has_tag_name`.
pub open spec fn has_tag(n: NodeModel, name: Seq<char>) -> bool {
    n.is_element && n.tag == name
}

/// The first element among the positions `kids`.
pub open spec fn first_element(nodes: Seq<NodeModel>, kids: Seq<int>) -> Option<int>
    decreases kids.len(),
{
    if kids.len() == 0 {
        None
    } else if 0 <= kids[0] < nodes.len() && nodes[kids[0]].is_element {
        Some(kids[0])
    } else {
        first_element(nodes, kids.drop_first())
    }
}

/// A parsed XML document.
pub struct XmlDocument {
    nodes: Vec<XmlNode>,
    children: Vec<Vec<usize>>,
}

impl View for XmlDocument {
    type V = Seq<NodeModel>;

    closed spec fn view(&self) -> Seq<NodeModel> {
        self.nodes@.map_values(|n: XmlNode| n@)
    }
}

impl XmlDocument {
    #[verifier::type_invariant]
    closed spec fn inv(self) -> bool {
        &&& self.children@.len() == self.nodes@.len()
        &&& forall|p: int|
            0 <= p < self.children@.len() ==> (#[trigger] self.children@[p])@.map_values(|j: usize| j as int)
                == children_of(self@, p)
    }

    /// A document made of `nodes`, the children of each node found from the
    /// parents.
    pub fn from_nodes(nodes: Vec<XmlNode>) -> (d: XmlDocument)
        ensures
            d@ == nodes@.map_values(|n: XmlNode| n@),
    {
        let ghost model = nodes@.map_values(|n: XmlNode| n@);
        let n = nodes.len();
        let mut children: Vec<Vec<usize>> = Vec::new();
        let mut i: usize = 0;
        while i < n
            invariant
                i <= n,
                children@.len() == i,
                forall|p: int| 0 <= p < i ==> (#[trigger] children@[p])@.len() == 0,
            decreases n - i,
        {
            children.push(Vec::new());
            i += 1;
        }
        let mut j: usize = 0;
        assert forall|p: int| 0 <= p < n implies (#[trigger] children@[p])@.map_values(|x: usize| x as int)
            == children_upto(model, p, 0) by {
            assert(children@[p]@.map_values(|x: usize| x as int) =~= Seq::<int>::empty());
        }
        while j < n
            invariant
                j <= n,
                n == nodes@.len(),
                model == nodes@.map_values(|n: XmlNode| n@),
                children@.len() == n,
                forall|p: int|
                    0 <= p < n ==> (#[trigger] children@[p])@.map_values(|x: usize| x as int) == children_upto(
                        model,
                        p,
                        j as int,
                    ),
            decreases n - j,
        {
            assert(model[j as int] == nodes@[j as int]@);
            match nodes[j].parent {
                Some(p) => {
                    if p < n {
                        let mut c = children[p].clone();
                        let ghost c0 = children@[p as int]@;
                        assert(c@ =~= c0);
                        c.push(j);
                        children.set(p, c);
                        assert forall|q: int| 0 <= q < n implies (#[trigger] children@[q])@.map_values(
                            |x: usize| x as int,
                        ) == children_upto(model, q, j + 1) by {
                            if q == p {
                                assert(children@[q]@.map_values(|x: usize| x as int) =~= c0.map_values(
                                    |x: usize| x as int,
                                ).push(j as int));
                            }
                        }
                    } else {
                        assert forall|q: int| 0 <= q < n implies (#[trigger] children@[q])@.map_values(
                            |x: usize| x as int,
                        ) == children_upto(model, q, j + 1) by {}
                    }
                },
                None => {
                    assert forall|q: int| 0 <= q < n implies (#[trigger] children@[q])@.map_values(
                        |x: usize| x as int,
                    ) == children_upto(model, q, j + 1) by {}
                },
            }
            j += 1;
        }
        let d = XmlDocument { nodes, children };
        d
    }

    /// Parses `text` as XML; `None` when it is not well-formed.
    pub fn parse(text: &str) -> (d: Option<XmlDocument>)
        ensures
            match d {
                Some(doc) => xml_node_list(text@) == Some(doc@),
                None => xml_node_list(text@) is None,
            },
    {
        match read_nodes(text) {
            Some(nodes) => Some(XmlDocument::from_nodes(nodes)),
            None => None,
        }
    }

    /// The number of nodes.
    pub fn len(&self) -> (r: usize)
        ensures
            r == self@.len(),
    {
        self.nodes.len()
    }

    /// The children of node `n`, in document order.
    pub fn children(&self, n: usize) -> (r: &Vec<usize>)
        requires
            n < self@.len(),
        ensures
            r@.map_values(|j: usize| j as int) == children_of(self@, n as int),
            forall|m: int| 0 <= m < r@.len() ==> (#[trigger] r@[m]) < self@.len(),
    {
        proof {
            use_type_invariant(self);
            lemma_children_upto_bounds(self@, n as int, self@.len() as int);
        }
        let r = &self.children[n];
        assert forall|m: int| 0 <= m < r@.len() implies (#[trigger] r@[m]) < self@.len() by {
            assert(r@.map_values(|j: usize| j as int)[m] == r@[m] as int);
        }
        r
    }

    /// Whether node `n` is an element.
    pub fn is_element(&self, n: usize) -> (r: bool)
        requires
            n < self@.len(),
        ensures
            r == self@[n as int].is_element,
    {
        self.nodes[n].is_element
    }

    /// The tag name of node `n`; empty when it is not an element.
    pub fn tag_name(&self, n: usize) -> (r: &str)
        requires
            n < self@.len(),
        ensures
            r@ == self@[n as int].tag,
    {
        self.nodes[n].tag.as_str()
    }

    /// Whether node `n` is an element named `name`.
    pub fn has_tag_name(&self, n: usize, name: &str) -> (r: bool)
        requires
            n < self@.len(),
        ensures
            r == has_tag(self@[n as int], name@),
    {
        self.nodes[n].is_element && str_eq(self.nodes[n].tag.as_str(), name)
    }

    /// The text of node `n`.
    pub fn text(&self, n: usize) -> (r: Option<&str>)
        requires
            n < self@.len(),
        ensures
            match r {
                Some(t) => self@[n as int].text == Some(t@),
                None => self@[n as int].text is None,
            },
    {
        match &self.nodes[n].text {
            Some(t) => Some(t.as_str()),
            None => None,
        }
    }

    /// The value of attribute `name` of node `n`.
    pub fn attribute(&self, n: usize, name: &str) -> (r: Option<&str>)
        requires
            n < self@.len(),
        ensures
            match r {
                Some(v) => attr(self@[n as int], name@) == Some(v@),
                None => attr(self@[n as int], name@) is None,
            },
    {
        let node = &self.nodes[n];
        let ghost m = self@[n as int];
        assert(m == node@);
        let mut i: usize = 0;
        while i < node.attrs.len()
            invariant
                i <= node.attrs.len(),
                n < self@.len(),
                m == self@[n as int],
                m == node@,
                attr(m, name@) == attr_from(m.attrs, name@, i as int),
            decreases node.attrs.len() - i,
        {
            assert(m.attrs[i as int] == (node.attrs@[i as int].0@, node.attrs@[i as int].1@));
            if str_eq(node.attrs[i].0.as_str(), name) {
                let v = node.attrs[i].1.as_str();
                assert(attr_from(m.attrs, name@, i as int) == Some(v@));
                return Some(v);
            }
            i += 1;
        }
        None
    }

    /// The first element child of the document's root node: the root element.
    pub fn root_element(&self) -> (r: Option<usize>)
        ensures
            match r {
                Some(e) => self@.len() > 0 && e < self@.len() && first_element(self@, children_of(self@, 0))
                    == Some(e as int),
                None => self@.len() == 0 || first_element(self@, children_of(self@, 0)) is None,
            },
    {
        if self.nodes.len() == 0 {
            return None;
        }
        let c = self.children(0);
        let ghost ks = children_of(self@, 0);
        let mut k: usize = 0;
        assert(ks.skip(0) =~= ks);
        while k < c.len()
            invariant
                k <= c.len(),
                self@.len() > 0,
                ks == children_of(self@, 0),
                c@.map_values(|j: usize| j as int) == ks,
                forall|m: int| 0 <= m < c@.len() ==> (#[trigger] c@[m]) < self@.len(),
                first_element(self@, ks) == first_element(self@, ks.skip(k as int)),
            decreases c.len() - k,
        {
            assert(ks[k as int] == c@[k as int] as int);
            assert(ks.skip(k as int)[0] == c@[k as int] as int);
            assert(ks.skip(k as int).drop_first() =~= ks.skip(k + 1));
            if self.is_element(c[k]) {
                return Some(c[k]);
            }
            k += 1;
        }
        assert(ks.skip(k as int) =~= Seq::<int>::empty());
        None
    }
}

} // verus!
