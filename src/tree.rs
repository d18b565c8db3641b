use vstd::prelude::*;

verus! {

/// The mathematical value of an element: its tag, its attributes in the
/// order in which their names first appeared, and its children in source order.
pub struct Element {
    pub tag: Seq<char>,
    pub attributes: Seq<(Seq<char>, Seq<char>)>,
    pub children: Seq<Element>,
}

/// One element of a markup tree.
#[derive(Debug)]
pub struct TreeNode {
    pub element: String,
    pub attributes: Vec<(String, String)>,
    pub children: Vec<TreeNode>,
}

pub open spec fn attributes_view(a: Seq<(String, String)>) -> Seq<(Seq<char>, Seq<char>)> {
    a.map_values(|p: (String, String)| (p.0@, p.1@))
}

impl View for TreeNode {
    type V = Element;

    open spec fn view(&self) -> Element
        decreases self,
    {
        Element {
            tag: self.element@,
            attributes: attributes_view(self.attributes@),
            children: Seq::new(
                self.children@.len(),
                |i: int|
                    if 0 <= i < self.children@.len() {
                        self.children@[i].view()
                    } else {
                        Element { tag: Seq::empty(), attributes: Seq::empty(), children: Seq::empty() }
                    },
            ),
        }
    }
}

/// The values of a sequence of nodes.
pub open spec fn views(v: Seq<TreeNode>) -> Seq<Element> {
    Seq::new(v.len(), |i: int| v[i]@)
}

/// No attribute name occurs twice.
pub open spec fn unique_names(a: Seq<(Seq<char>, Seq<char>)>) -> bool {
    forall|i: int, j: int| 0 <= i < j < a.len() ==> a[i].0 != a[j].0
}

/// Tags are non-empty and attribute names unique, in this element and in all
/// its descendants.
pub open spec fn element_wf(e: Element) -> bool
    decreases e,
{
    &&& e.tag.len() > 0
    &&& unique_names(e.attributes)
    &&& forall|i: int| 0 <= i < e.children.len() ==> element_wf(#[trigger] e.children[i])
}

/// Every element of the forest is well formed.
pub open spec fn forest_wf(es: Seq<Element>) -> bool {
    forall|i: int| 0 <= i < es.len() ==> element_wf(#[trigger] es[i])
}

impl TreeNode {
    /// A node with the given tag, no attributes and no children.
    pub fn new(element: String) -> (r: TreeNode)
        ensures
            r@ == (Element { tag: element@, attributes: Seq::empty(), children: Seq::empty() }),
            element@.len() > 0 ==> element_wf(r@),
    {
        let r = TreeNode { element, attributes: Vec::new(), children: Vec::new() };
        assert(r@.attributes =~= Seq::empty());
        assert(r@.children =~= Seq::empty());
        r
    }
}

/// `d` tab characters.
pub open spec fn tabs(d: nat) -> Seq<char>
    decreases d,
{
    if d == 0 {
        Seq::empty()
    } else {
        tabs((d - 1) as nat).push('\t')
    }
}

/// `name="value"` for each attribute, with nothing between them. Names and
/// values are written as they are, without escaping.
pub open spec fn attributes_text(a: Seq<(Seq<char>, Seq<char>)>) -> Seq<char>
    decreases a.len(),
{
    if a.len() == 0 {
        Seq::empty()
    } else {
        attributes_text(a.drop_last()) + a.last().0 + seq!['=', '"'] + a.last().1 + seq!['"']
    }
}

/// `<tag>`, or `<tag ATTRS>` where there are attributes.
pub open spec fn opening_tag(e: Element) -> Seq<char> {
    if e.attributes.len() == 0 {
        seq!['<'] + e.tag + seq!['>']
    } else {
        seq!['<'] + e.tag + seq![' '] + attributes_text(e.attributes) + seq!['>']
    }
}

/// `</tag>`.
pub open spec fn closing_tag(e: Element) -> Seq<char> {
    seq!['<', '/'] + e.tag + seq!['>']
}

/// The rendering of `e` with its tag lines indented by `ind`: the opening tag
/// line, the children indented one tab further, and the closing tag on a line
/// of its own.
pub open spec fn render_at(e: Element, ind: Seq<char>) -> Seq<char>
    decreases e,
{
    ind + opening_tag(e) + seq!['\n'] + render_forest_at(e.children, ind.push('\t')) + seq!['\n']
        + ind + closing_tag(e)
}

/// The renderings of the elements of `es`, joined by single line feeds.
pub open spec fn render_forest_at(es: Seq<Element>, ind: Seq<char>) -> Seq<char>
    decreases es,
{
    if es.len() == 0 {
        Seq::empty()
    } else if es.len() == 1 {
        render_at(es[0], ind)
    } else {
        render_forest_at(es.drop_last(), ind) + seq!['\n'] + render_at(es.last(), ind)
    }
}

/// The rendering of `e` at depth `d`.
pub open spec fn render(e: Element, d: nat) -> Seq<char> {
    render_at(e, tabs(d))
}

/// The rendering of the forest `es` at depth `d`.
pub open spec fn render_forest(es: Seq<Element>, d: nat) -> Seq<char> {
    render_forest_at(es, tabs(d))
}

} // verus!
