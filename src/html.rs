use vstd::prelude::*;
use vstd::string::StringExecFns;
use crate::tree::{
    attributes_text, attributes_view, opening_tag, closing_tag, render, render_at, render_forest,
    render_forest_at, tabs, views, Element, TreeNode,
};

verus! {

/// Appends `name="value"` for each attribute.
fn write_attributes(attributes: &Vec<(String, String)>, out: &mut String)
    ensures
        final(out)@ == old(out)@ + attributes_text(attributes_view(attributes@)),
{
    let ghost start = out@;
    let mut i: usize = 0;
    while i < attributes.len()
        invariant
            i <= attributes.len(),
            out@ == start + attributes_text(attributes_view(attributes@.subrange(0, i as int))),
        decreases attributes.len() - i,
    {
        let ghost a = attributes_view(attributes@.subrange(0, i + 1));
        proof {
            assert(a.drop_last() =~= attributes_view(attributes@.subrange(0, i as int)));
            assert(a.last() == (attributes@[i as int].0@, attributes@[i as int].1@));
        }
        out.append(attributes[i].0.as_str());
        out.append("=\"");
        out.append(attributes[i].1.as_str());
        out.append("\"");
        i = i + 1;
        proof {
            reveal_strlit("=\"");
            reveal_strlit("\"");
            assert(out@ =~= start + attributes_text(a));
        }
    }
    proof {
        assert(attributes@.subrange(0, i as int) =~= attributes@);
    }
}

/// Appends the rendering of `tree` with its tag lines indented by `ind`.
fn write_node(tree: &TreeNode, ind: &String, out: &mut String)
    ensures
        final(out)@ == old(out)@ + render_at(tree@, ind@),
    decreases tree,
{
    let ghost start = out@;
    proof {
        reveal_strlit("<");
        reveal_strlit(">");
        reveal_strlit(" ");
        reveal_strlit("\n");
        reveal_strlit("</");
        reveal_strlit("\t");
    }
    out.append(ind.as_str());
    out.append("<");
    out.append(tree.element.as_str());
    if tree.attributes.len() > 0 {
        out.append(" ");
        write_attributes(&tree.attributes, out);
    }
    out.append(">");
    assert(out@ =~= start + ind@ + opening_tag(tree@));
    out.append("\n");
    let mut inner = ind.clone();
    inner.append("\t");
    assert(inner@ =~= ind@.push('\t'));
    assert(tree@.children =~= views(tree.children@));
    write_forest(&tree.children, &inner, out);
    out.append("\n");
    out.append(ind.as_str());
    out.append("</");
    out.append(tree.element.as_str());
    out.append(">");
    assert(out@ =~= start + render_at(tree@, ind@));
}

/// Appends the renderings of `nodes`, joined by single line feeds.
fn write_forest(nodes: &Vec<TreeNode>, ind: &String, out: &mut String)
    ensures
        final(out)@ == old(out)@ + render_forest_at(views(nodes@), ind@),
    decreases nodes,
{
    let ghost start = out@;
    let mut i: usize = 0;
    while i < nodes.len()
        invariant
            i <= nodes.len(),
            out@ == start + render_forest_at(views(nodes@.subrange(0, i as int)), ind@),
        decreases nodes.len() - i,
    {
        let ghost es = views(nodes@.subrange(0, i + 1));
        proof {
            assert(es.drop_last() =~= views(nodes@.subrange(0, i as int)));
            assert(es.last() == nodes@[i as int]@);
            reveal_strlit("\n");
        }
        if i > 0 {
            out.append("\n");
        }
        write_node(&nodes[i], ind, out);
        i = i + 1;
        proof {
            if i == 1 {
                assert(views(nodes@.subrange(0, 0)) =~= Seq::<Element>::empty());
            }
            assert(out@ =~= start + render_forest_at(es, ind@));
        }
    }
    proof {
        assert(nodes@.subrange(0, i as int) =~= nodes@);
    }
}

/// `level` tab characters.
fn indent(level: usize) -> (r: String)
    ensures
        r@ == tabs(level as nat),
{
    let mut r = String::new();
    let mut i: usize = 0;
    while i < level
        invariant
            i <= level,
            r@ == tabs(i as nat),
        decreases level - i,
    {
        proof {
            reveal_strlit("\t");
        }
        r.append("\t");
        i = i + 1;
        assert(r@ =~= tabs(i as nat));
    }
    r
}

/// Renders the forest `nodes` at depth `ident_level`.
pub fn treenodes_to_html(nodes: &Vec<TreeNode>, ident_level: usize) -> (r: String)
    ensures
        r@ == render_forest(views(nodes@), ident_level as nat),
{
    let ind = indent(ident_level);
    let mut out = String::new();
    write_forest(nodes, &ind, &mut out);
    assert(out@ =~= render_forest(views(nodes@), ident_level as nat));
    out
}

/// Renders `tree` at depth `ident_level`: each tag line is indented by
/// `ident_level` tabs, and the children one tab further. Every element gets a
/// closing tag `</tag>` on a line of its own, and its attributes come in the
/// order in which their names first appeared.
pub fn treenode_to_html(tree: &TreeNode, ident_level: usize) -> (r: String)
    ensures
        r@ == render(tree@, ident_level as nat),
{
    let ind = indent(ident_level);
    let mut out = String::new();
    write_node(tree, &ind, &mut out);
    assert(out@ =~= render(tree@, ident_level as nat));
    out
}

} // verus!
