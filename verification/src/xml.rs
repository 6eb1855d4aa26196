//! The part of an XML document that a model description is read from: the
//! nodes with their tag names and attributes, as a tree.

use vstd::prelude::*;

verus! {

/// The mathematical content of an [`Attribute`].
pub struct AttributeView {
    pub namespace: Option<Seq<char>>,
    pub name: Seq<char>,
    pub value: Seq<char>,
}

/// One attribute of an element.
#[derive(Debug, PartialEq, Eq)]
pub struct Attribute {
    /// The namespace that the attribute's name belongs to, if it has one.
    pub namespace: Option<String>,
    /// The attribute's name, without any prefix.
    pub name: String,
    /// The attribute's value.
    pub value: String,
}

impl View for Attribute {
    type V = AttributeView;

    open spec fn view(&self) -> AttributeView {
        AttributeView {
            namespace: match self.namespace {
                Some(n) => Some(n@),
                None => None,
            },
            name: self.name@,
            value: self.value@,
        }
    }
}

impl Clone for Attribute {
    fn clone(&self) -> (r: Self)
        ensures
            r@ == self@,
    {
        Attribute {
            namespace: match &self.namespace {
                Some(n) => Some(n.clone()),
                None => None,
            },
            name: self.name.clone(),
            value: self.value.clone(),
        }
    }
}

/// A copy of a run of attributes.
fn copy_attributes(attributes: &Vec<Attribute>) -> (r: Vec<Attribute>)
    ensures
        attribute_views(r@) == attribute_views(attributes@),
{
    let mut out: Vec<Attribute> = Vec::new();
    let mut i: usize = 0;
    while i < attributes.len()
        invariant
            i <= attributes.len(),
            attribute_views(out@) == attribute_views(attributes@).take(i as int),
        decreases attributes.len() - i,
    {
        let a = attributes[i].clone();
        let ghost before = attribute_views(out@);
        out.push(a);
        assert(attribute_views(out@) =~= before.push(attributes@[i as int]@));
        assert(attribute_views(attributes@).take(i + 1) =~= attribute_views(attributes@).take(
            i as int,
        ).push(attributes@[i as int]@));
        i += 1;
    }
    assert(attribute_views(attributes@).take(i as int) =~= attribute_views(attributes@));
    out
}

/// The contents of a run of attributes.
pub open spec fn attribute_views(s: Seq<Attribute>) -> Seq<AttributeView> {
    Seq::new(s.len(), |i: int| s[i]@)
}

/// The mathematical content of an [`Element`].
pub struct ElementView {
    pub tag: Seq<char>,
    pub attributes: Seq<AttributeView>,
    pub children: Seq<ElementView>,
}

/// A node of a document with the nodes below it. A node that is no element (a
/// text, a comment) has the empty tag and no attributes.
#[derive(Debug, PartialEq, Eq)]
pub struct Element {
    /// The node's tag name, without any prefix.
    pub tag: String,
    /// The node's attributes, in the order of the document.
    pub attributes: Vec<Attribute>,
    /// The nodes directly below this one, in the order of the document.
    pub children: Vec<Element>,
}

/// The content of an element: its tag, its attributes and the contents of its
/// children.
pub open spec fn element_view(e: Element) -> ElementView
    decreases e,
{
    ElementView {
        tag: e.tag@,
        attributes: attribute_views(e.attributes@),
        children: Seq::new(
            e.children@.len(),
            |i: int|
                if 0 <= i < e.children@.len() {
                    element_view(e.children@[i])
                } else {
                    arbitrary()
                },
        ),
    }
}

impl View for Element {
    type V = ElementView;

    open spec fn view(&self) -> ElementView {
        element_view(*self)
    }
}

/// The contents of a run of elements.
pub open spec fn element_views(s: Seq<Element>) -> Seq<ElementView> {
    Seq::new(s.len(), |i: int| s[i]@)
}

/// The children of an element's content are the contents of its children.
pub proof fn lemma_children_views(e: &Element)
    ensures
        e@.children == element_views(e.children@),
        e@.children.len() == e.children@.len(),
        e@.tag == e.tag@,
        e@.attributes == attribute_views(e.attributes@),
{
    assert(e@.children =~= element_views(e.children@));
}

impl Clone for Element {
    fn clone(&self) -> (r: Self)
        ensures
            r@ == self@,
        decreases self,
    {
        let mut children: Vec<Element> = Vec::new();
        let mut i: usize = 0;
        while i < self.children.len()
            invariant
                i <= self.children.len(),
                element_views(children@) == element_views(self.children@).take(i as int),
            decreases self.children.len() - i,
        {
            let child = self.children[i].clone();
            let ghost before = element_views(children@);
            children.push(child);
            assert(element_views(children@) =~= before.push(self.children@[i as int]@));
            assert(element_views(self.children@).take(i + 1) =~= element_views(
                self.children@,
            ).take(i as int).push(self.children@[i as int]@));
            i += 1;
        }
        assert(element_views(self.children@).take(i as int) =~= element_views(self.children@));
        let element = Element {
            tag: self.tag.clone(),
            attributes: copy_attributes(&self.attributes),
            children,
        };
        proof {
            lemma_children_views(&element);
            lemma_children_views(self);
        }
        element
    }
}

/// The position of the first attribute at or after `from` that has no
/// namespace and the name `name`, or the number of attributes if there is none.
pub open spec fn attribute_index(attributes: Seq<AttributeView>, name: Seq<char>, from: int) -> int
    decreases attributes.len() - from,
{
    if from < 0 || from >= attributes.len() || (attributes[from].namespace is None
        && attributes[from].name == name) {
        from
    } else {
        attribute_index(attributes, name, from + 1)
    }
}

/// The value of the first attribute that has no namespace and the name
/// `name`, if there is one.
pub open spec fn attribute_value(attributes: Seq<AttributeView>, name: Seq<char>) -> Option<
    Seq<char>,
> {
    let at = attribute_index(attributes, name, 0);
    if at < attributes.len() {
        Some(attributes[at].value)
    } else {
        None
    }
}

/// The position of the first element at or after `from` that has the tag
/// `tag`, or the number of elements if there is none.
pub open spec fn tag_index(elements: Seq<ElementView>, tag: Seq<char>, from: int) -> int
    decreases elements.len() - from,
{
    if from < 0 || from >= elements.len() || elements[from].tag == tag {
        from
    } else {
        tag_index(elements, tag, from + 1)
    }
}

/// The first of `elements` that has the tag `tag`, if there is one.
pub open spec fn first_with_tag(elements: Seq<ElementView>, tag: Seq<char>) -> Option<
    ElementView,
> {
    let at = tag_index(elements, tag, 0);
    if at < elements.len() {
        Some(elements[at])
    } else {
        None
    }
}

impl Element {
    /// The value of the first attribute that has no namespace and the name
    /// `name`, if there is one.
    pub fn attribute(&self, name: &str) -> (r: Option<&str>)
        ensures
            match r {
                Some(v) => attribute_value(self@.attributes, name@) == Some(v@),
                None => attribute_value(self@.attributes, name@) is None,
            },
    {
        let wanted: String = name.to_owned();
        let ghost attributes = self@.attributes;
        let mut i: usize = 0;
        while i < self.attributes.len()
            invariant
                i <= self.attributes.len(),
                attributes == attribute_views(self.attributes@),
                wanted@ == name@,
                attribute_index(attributes, name@, 0) == attribute_index(
                    attributes,
                    name@,
                    i as int,
                ),
            decreases self.attributes.len() - i,
        {
            let a = &self.attributes[i];
            assert(attributes[i as int] == a@);
            if a.namespace.is_none() && a.name == wanted {
                return Some(a.value.as_str());
            }
            i += 1;
        }
        None
    }

    /// The first child that has the tag `tag`, if there is one.
    pub fn child(&self, tag: &str) -> (r: Option<&Element>)
        ensures
            match r {
                Some(c) => first_with_tag(self@.children, tag@) == Some(c@),
                None => first_with_tag(self@.children, tag@) is None,
            },
    {
        let wanted: String = tag.to_owned();
        let ghost children = self@.children;
        proof {
            lemma_children_views(self);
        }
        let mut i: usize = 0;
        while i < self.children.len()
            invariant
                i <= self.children.len(),
                children == element_views(self.children@),
                children == self@.children,
                wanted@ == tag@,
                tag_index(children, tag@, 0) == tag_index(children, tag@, i as int),
            decreases self.children.len() - i,
        {
            let c = &self.children[i];
            assert(children[i as int] == c@);
            proof {
                lemma_children_views(c);
            }
            if c.tag == wanted {
                return Some(c);
            }
            i += 1;
        }
        None
    }
}

/// The mathematical content of an [`XmlNode`].
pub struct XmlNodeView {
    pub parent: Option<nat>,
    pub tag: Seq<char>,
    pub attributes: Seq<AttributeView>,
}

/// One node of a document, as an entry of the list of all its nodes: the
/// entries stand in the order of the document, and each names its parent by
/// the parent's place in the list.
#[derive(Debug, PartialEq, Eq)]
pub struct XmlNode {
    /// The place of the node's parent in the list; the first entry has none.
    pub parent: Option<usize>,
    /// The node's tag name, without any prefix; empty if the node is no element.
    pub tag: String,
    /// The node's attributes, in the order of the document.
    pub attributes: Vec<Attribute>,
}

impl View for XmlNode {
    type V = XmlNodeView;

    open spec fn view(&self) -> XmlNodeView {
        XmlNodeView {
            parent: match self.parent {
                Some(p) => Some(p as nat),
                None => None,
            },
            tag: self.tag@,
            attributes: attribute_views(self.attributes@),
        }
    }
}

impl Clone for XmlNode {
    fn clone(&self) -> (r: Self)
        ensures
            r@ == self@,
    {
        XmlNode {
            parent: self.parent,
            tag: self.tag.clone(),
            attributes: copy_attributes(&self.attributes),
        }
    }
}

/// The contents of a run of nodes.
pub open spec fn node_views(s: Seq<XmlNode>) -> Seq<XmlNodeView> {
    Seq::new(s.len(), |i: int| s[i]@)
}

/// Whether `nodes` lists a tree: there is a first entry, it has no parent,
/// and every other entry has a parent that stands before it.
pub open spec fn is_listing(nodes: Seq<XmlNodeView>) -> bool {
    &&& nodes.len() > 0
    &&& nodes[0].parent is None
    &&& forall|i: int|
        0 < i < nodes.len() ==> (#[trigger] nodes[i]).parent is Some && nodes[i].parent->0 < i
}

/// The tree below the entry at `at`: the entry's tag and attributes, and as
/// children the trees below the later entries that name `at` as their parent,
/// in their order.
pub open spec fn tree_at(nodes: Seq<XmlNodeView>, at: int) -> ElementView
    recommends
        0 <= at < nodes.len(),
    decreases nodes.len() - at, 0int,
{
    if 0 <= at < nodes.len() {
        ElementView {
            tag: nodes[at].tag,
            attributes: nodes[at].attributes,
            children: children_in(nodes, at, at + 1),
        }
    } else {
        ElementView { tag: Seq::empty(), attributes: Seq::empty(), children: Seq::empty() }
    }
}

/// The trees below those entries from position `from` on that name `parent`
/// as their parent, in their order.
pub open spec fn children_in(nodes: Seq<XmlNodeView>, parent: int, from: int) -> Seq<ElementView>
    decreases nodes.len() - from, 1int,
{
    if from < 0 || from >= nodes.len() {
        Seq::empty()
    } else if nodes[from].parent == Some(parent as nat) {
        seq![tree_at(nodes, from)] + children_in(nodes, parent, from + 1)
    } else {
        children_in(nodes, parent, from + 1)
    }
}

/// Whether `nodes` lists a tree.
pub fn check_listing(nodes: &Vec<XmlNode>) -> (r: bool)
    ensures
        r == is_listing(node_views(nodes@)),
{
    if nodes.len() == 0 {
        return false;
    }
    if nodes[0].parent.is_some() {
        return false;
    }
    let ghost all = node_views(nodes@);
    let mut i: usize = 1;
    while i < nodes.len()
        invariant
            1 <= i <= nodes.len(),
            all == node_views(nodes@),
            forall|j: int| 0 < j < i ==> (#[trigger] all[j]).parent is Some && all[j].parent->0 < j,
        decreases nodes.len() - i,
    {
        assert(all[i as int] == nodes@[i as int]@);
        match nodes[i].parent {
            Some(p) => {
                if p >= i {
                    return false;
                }
            },
            None => {
                return false;
            },
        }
        i += 1;
    }
    true
}

/// Whether `stack` holds the elements of `trees`, the last one first.
pub open spec fn holds_reversed(stack: Seq<Element>, trees: Seq<ElementView>) -> bool {
    &&& stack.len() == trees.len()
    &&& forall|j: int| 0 <= j < stack.len() ==> (#[trigger] stack[j])@ == trees[trees.len() - 1 - j]
}

/// Takes the elements off `stack`, the last one first.
fn unstack(stack: Vec<Element>, Ghost(trees): Ghost<Seq<ElementView>>) -> (r: Vec<Element>)
    requires
        holds_reversed(stack@, trees),
    ensures
        element_views(r@) == trees,
{
    let mut stack = stack;
    let mut out: Vec<Element> = Vec::new();
    while stack.len() > 0
        invariant
            out@.len() + stack@.len() == trees.len(),
            forall|j: int| 0 <= j < out@.len() ==> (#[trigger] out@[j])@ == trees[j],
            forall|j: int|
                0 <= j < stack@.len() ==> (#[trigger] stack@[j])@ == trees[trees.len() - 1 - j],
        decreases stack@.len(),
    {
        let top = stack.pop().unwrap();
        out.push(top);
    }
    assert(element_views(out@) =~= trees);
    out
}

/// Builds the tree below the entry at `root` of a list of nodes.
pub fn build_tree(nodes: Vec<XmlNode>, root: usize) -> (r: Element)
    requires
        is_listing(node_views(nodes@)),
        root < nodes.len(),
    ensures
        r@ == tree_at(node_views(nodes@), root as int),
{
    let ghost all = node_views(nodes@);
    let mut nodes = nodes;
    let n: usize = nodes.len();
    let mut stacks: Vec<Vec<Element>> = Vec::new();
    let mut k: usize = root;
    while k < n
        invariant
            root <= k <= n,
            stacks@.len() == k - root,
            forall|j: int| 0 <= j < stacks@.len() ==> (#[trigger] stacks@[j])@.len() == 0,
        decreases n - k,
    {
        stacks.push(Vec::new());
        k += 1;
    }
    let mut i: usize = n;
    let mut found: Option<Element> = None;
    while i > root
        invariant
            root <= i <= n,
            n == all.len(),
            is_listing(all),
            nodes@.len() == i,
            node_views(nodes@) == all.take(i as int),
            stacks@.len() == i - root,
            forall|j: int|
                root <= j < i ==> holds_reversed(
                    (#[trigger] stacks@[j - root])@,
                    children_in(all, j, i as int),
                ),
            i == root ==> (found matches Some(e) && e@ == tree_at(all, root as int)),
        decreases i,
    {
        i -= 1;
        let ghost stacked = stacks@;
        let node = nodes.pop().unwrap();
        let stack = stacks.pop().unwrap();
        assert(stack == stacked[i - root]);
        assert(node@ == all[i as int]) by {
            assert(all.take(i + 1)[i as int] == all[i as int]);
        }
        assert(holds_reversed(stack@, children_in(all, i as int, i + 1)));
        let children = unstack(stack, Ghost(children_in(all, i as int, i + 1)));
        let parent = node.parent;
        let element = Element { tag: node.tag, attributes: node.attributes, children };
        proof {
            lemma_children_views(&element);
            assert(element@ == tree_at(all, i as int));
            assert(node_views(nodes@) =~= all.take(i as int));
            assert forall|j: int| root <= j < i implies (#[trigger] children_in(all, j, i as int))
                == (if all[i as int].parent == Some(j as nat) {
                seq![element@] + children_in(all, j, i + 1)
            } else {
                children_in(all, j, i + 1)
            }) by {}
        }
        if i == root {
            found = Some(element);
        } else {
            match parent {
                Some(p) => {
                    if p >= root {
                        let ghost before = stacks@;
                        let ghost old_trees = children_in(all, p as int, i + 1);
                        stacks[p - root].push(element);
                        proof {
                            let new_trees = children_in(all, p as int, i as int);
                            assert(new_trees =~= seq![element@] + old_trees);
                            assert(holds_reversed(before[p - root]@, old_trees));
                            assert forall|j: int| root <= j < i implies holds_reversed(
                                (#[trigger] stacks@[j - root])@,
                                children_in(all, j, i as int),
                            ) by {
                                if j == p {
                                    let stack = stacks@[j - root]@;
                                    assert(stack =~= before[p - root]@.push(element));
                                    assert forall|m: int| 0 <= m < stack.len() implies (
                                    #[trigger] stack[m])@ == new_trees[new_trees.len() - 1 - m] by {
                                        if m < stack.len() - 1 {
                                            assert(stack[m] == before[p - root]@[m]);
                                            assert(new_trees[new_trees.len() - 1 - m]
                                                == old_trees[old_trees.len() - 1 - m]);
                                        }
                                    }
                                } else {
                                    assert(stacks@[j - root] == before[j - root]);
                                }
                            }
                        }
                    }
                },
                None => {},
            }
        }
    }
    found.unwrap()
}

} // verus!
