use vstd::prelude::*;
use crate::parse::{parse_spec, parse_forest_spec, parse_element_spec, parse_attributes_spec, insert_attribute, AttrState};
use crate::token::{lex, lex_prefix, Tok};
use crate::tree::{opening_tag, render, render_at, render_forest, render_forest_at, tabs, Element};

verus! {

/// An element with a tag and nothing else.
pub open spec fn leaf(tag: Seq<char>) -> Element {
    Element { tag, attributes: Seq::empty(), children: Seq::empty() }
}

/// An element without attributes or children renders as its opening tag,
/// an empty line, and its closing tag, both tag lines indented by the depth.
pub proof fn lemma_leaf_rendering(tag: Seq<char>, d: nat)
    ensures
        render(leaf(tag), d) == tabs(d) + seq!['<'] + tag + seq!['>', '\n', '\n'] + tabs(d)
            + seq!['<', '/'] + tag + seq!['>'],
{
    let e = leaf(tag);
    assert(render_forest_at(e.children, tabs(d).push('\t')) =~= Seq::<char>::empty());
    assert(render(e, d) =~= tabs(d) + seq!['<'] + tag + seq!['>', '\n', '\n'] + tabs(d)
        + seq!['<', '/'] + tag + seq!['>']);
}

/// Empty text tokenizes to no tokens, parses to an empty forest, and the
/// empty forest renders as empty text.
pub proof fn lemma_empty_input()
    ensures
        lex(Seq::empty()) == Ok::<Seq<Tok>, crate::error::MarkupError>(Seq::empty()),
        parse_spec(Seq::empty()) == Ok::<Seq<Element>, crate::error::MarkupError>(Seq::empty()),
        render_forest(Seq::empty(), 0) == Seq::<char>::empty(),
{
    assert(lex_prefix(Seq::<char>::empty(), 0) == Ok::<(Seq<Tok>, crate::token::Pending), crate::error::MarkupError>((Seq::<Tok>::empty(), crate::token::Pending::Nothing)));
}

/// When an attribute list names the same attribute twice, the element keeps
/// one attribute of that name, with the value given last.
pub proof fn lemma_last_value_wins(tag: Seq<char>, a: Seq<char>, v1: Seq<char>, v2: Seq<char>)
    ensures
        parse_spec(
            seq![
                Tok::Identifier(tag),
                Tok::OpenParen,
                Tok::Identifier(a),
                Tok::Equals,
                Tok::StringLiteral(v1),
                Tok::Identifier(a),
                Tok::Equals,
                Tok::StringLiteral(v2),
                Tok::CloseParen,
            ],
        ) == Ok::<Seq<Element>, crate::error::MarkupError>(
            seq![Element { tag, attributes: seq![(a, v2)], children: Seq::empty() }],
        ),
{
    let toks = seq![
        Tok::Identifier(tag),
        Tok::OpenParen,
        Tok::Identifier(a),
        Tok::Equals,
        Tok::StringLiteral(v1),
        Tok::Identifier(a),
        Tok::Equals,
        Tok::StringLiteral(v2),
        Tok::CloseParen,
    ];
    let empty = Seq::<(Seq<char>, Seq<char>)>::empty();
    let one = insert_attribute(empty, a, v1);
    assert(one =~= seq![(a, v1)]);
    let two = insert_attribute(one, a, v2);
    assert(one[0].0 == a);
    assert(two =~= seq![(a, v2)]);
    assert(parse_attributes_spec(toks, 8, AttrState::Idle, two) == Ok::<(Seq<(Seq<char>, Seq<char>)>, int), crate::error::MarkupError>((two, 9)));
    assert(parse_attributes_spec(toks, 7, AttrState::Assigning(a), one) == parse_attributes_spec(toks, 8, AttrState::Idle, two));
    assert(parse_attributes_spec(toks, 6, AttrState::Named(a), one) == parse_attributes_spec(toks, 7, AttrState::Assigning(a), one));
    assert(parse_attributes_spec(toks, 5, AttrState::Idle, one) == parse_attributes_spec(toks, 6, AttrState::Named(a), one));
    assert(parse_attributes_spec(toks, 4, AttrState::Assigning(a), empty) == parse_attributes_spec(toks, 5, AttrState::Idle, one));
    assert(parse_attributes_spec(toks, 3, AttrState::Named(a), empty) == parse_attributes_spec(toks, 4, AttrState::Assigning(a), empty));
    assert(parse_attributes_spec(toks, 2, AttrState::Idle, empty) == Ok::<(Seq<(Seq<char>, Seq<char>)>, int), crate::error::MarkupError>((two, 9)));
    let e = Element { tag, attributes: seq![(a, v2)], children: Seq::empty() };
    assert(parse_element_spec(toks, 0) == Ok::<(Element, int), crate::error::MarkupError>((e, 9)));
    assert(parse_forest_spec(toks, 9, false) == Ok::<(Seq<Element>, int), crate::error::MarkupError>((Seq::empty(), 9)));
    assert(seq![e] + Seq::<Element>::empty() =~= seq![e]);
}

/// Leaf children keep their source order: `p { c1 c2 c3 }` parses to one
/// element whose children are the three leaves in that order, and the
/// rendering shows them one after another, each one level deeper.
pub proof fn lemma_children_in_order(p: Seq<char>, c1: Seq<char>, c2: Seq<char>, c3: Seq<char>)
    ensures
        parse_spec(
            seq![
                Tok::Identifier(p),
                Tok::OpenBracket,
                Tok::Identifier(c1),
                Tok::Identifier(c2),
                Tok::Identifier(c3),
                Tok::CloseBracket,
            ],
        ) == Ok::<Seq<Element>, crate::error::MarkupError>(
            seq![Element { tag: p, attributes: Seq::empty(), children: seq![leaf(c1), leaf(c2), leaf(c3)] }],
        ),
        render_forest(
            seq![Element { tag: p, attributes: Seq::empty(), children: seq![leaf(c1), leaf(c2), leaf(c3)] }],
            0,
        ) == seq!['<'] + p + seq!['>', '\n'] + render(leaf(c1), 1) + seq!['\n'] + render(leaf(c2), 1)
            + seq!['\n'] + render(leaf(c3), 1) + seq!['\n', '<', '/'] + p + seq!['>'],
{
    let toks = seq![
        Tok::Identifier(p),
        Tok::OpenBracket,
        Tok::Identifier(c1),
        Tok::Identifier(c2),
        Tok::Identifier(c3),
        Tok::CloseBracket,
    ];
    let none = Seq::<Element>::empty();
    assert(parse_forest_spec(toks, 5, true) == Ok::<(Seq<Element>, int), crate::error::MarkupError>((none, 6)));
    assert(parse_element_spec(toks, 4) == Ok::<(Element, int), crate::error::MarkupError>((leaf(c3), 5)));
    assert(seq![leaf(c3)] + none =~= seq![leaf(c3)]);
    assert(parse_forest_spec(toks, 4, true) == Ok::<(Seq<Element>, int), crate::error::MarkupError>((seq![leaf(c3)], 6)));
    assert(parse_element_spec(toks, 3) == Ok::<(Element, int), crate::error::MarkupError>((leaf(c2), 4)));
    assert(seq![leaf(c2)] + seq![leaf(c3)] =~= seq![leaf(c2), leaf(c3)]);
    assert(parse_forest_spec(toks, 3, true) == Ok::<(Seq<Element>, int), crate::error::MarkupError>((seq![leaf(c2), leaf(c3)], 6)));
    assert(parse_element_spec(toks, 2) == Ok::<(Element, int), crate::error::MarkupError>((leaf(c1), 3)));
    let kids = seq![leaf(c1), leaf(c2), leaf(c3)];
    assert(seq![leaf(c1)] + seq![leaf(c2), leaf(c3)] =~= kids);
    assert(parse_forest_spec(toks, 2, true) == Ok::<(Seq<Element>, int), crate::error::MarkupError>((kids, 6)));
    let e = Element { tag: p, attributes: Seq::empty(), children: kids };
    assert(parse_element_spec(toks, 0) == Ok::<(Element, int), crate::error::MarkupError>((e, 6)));
    assert(parse_forest_spec(toks, 6, false) == Ok::<(Seq<Element>, int), crate::error::MarkupError>((none, 6)));
    assert(seq![e] + none =~= seq![e]);

    let ind = tabs(1);
    assert(tabs(0) =~= Seq::<char>::empty());
    assert(ind =~= Seq::<char>::empty().push('\t'));
    assert(kids.drop_last() =~= seq![leaf(c1), leaf(c2)]);
    assert(kids.drop_last().drop_last() =~= seq![leaf(c1)]);
    assert(render_forest_at(seq![leaf(c1)], ind) == render(leaf(c1), 1));
    assert(render_forest_at(seq![leaf(c1), leaf(c2)], ind) == render(leaf(c1), 1) + seq!['\n'] + render(leaf(c2), 1));
    assert(render_forest_at(kids, ind) == render(leaf(c1), 1) + seq!['\n'] + render(leaf(c2), 1)
        + seq!['\n'] + render(leaf(c3), 1));
    assert(render_forest(seq![e], 0) == render_at(e, tabs(0)));
    assert(render_forest(seq![e], 0) =~= seq!['<'] + p + seq!['>', '\n'] + render(leaf(c1), 1) + seq!['\n']
        + render(leaf(c2), 1) + seq!['\n'] + render(leaf(c3), 1) + seq!['\n', '<', '/'] + p + seq!['>']);
}

/// Elements nested one inside the next, with the tags `tags` from the
/// outermost in, and no attributes.
pub open spec fn chain(tags: Seq<Seq<char>>) -> Element
    decreases tags.len(),
{
    if tags.len() <= 1 {
        leaf(tags[0])
    } else {
        Element { tag: tags[0], attributes: Seq::empty(), children: seq![chain(tags.drop_first())] }
    }
}

/// The tokens of `t0 { t1 { ... tn } }` for the tags `tags`.
pub open spec fn chain_tokens(tags: Seq<Seq<char>>) -> Seq<Tok>
    decreases tags.len(),
{
    if tags.len() <= 1 {
        seq![Tok::Identifier(tags[0])]
    } else {
        seq![Tok::Identifier(tags[0]), Tok::OpenBracket] + chain_tokens(tags.drop_first()) + seq![Tok::CloseBracket]
    }
}

/// A chain of tokens inside a larger sequence parses to the nested elements,
/// provided that what follows it cannot extend its innermost element.
proof fn lemma_parse_chain_at(toks: Seq<Tok>, pos: int, tags: Seq<Seq<char>>)
    requires
        tags.len() >= 1,
        0 <= pos,
        pos + chain_tokens(tags).len() <= toks.len(),
        toks.subrange(pos, pos + chain_tokens(tags).len()) == chain_tokens(tags),
        pos + chain_tokens(tags).len() == toks.len() || toks[pos + chain_tokens(tags).len()] is CloseBracket,
    ensures
        chain_tokens(tags).len() == 3 * tags.len() - 2,
        parse_element_spec(toks, pos) == Ok::<(Element, int), crate::error::MarkupError>(
            (chain(tags), pos + chain_tokens(tags).len()),
        ),
    decreases tags.len(),
{
    let ct = chain_tokens(tags);
    let end = pos + ct.len();
    assert(toks[pos] == ct[0]);
    if tags.len() > 1 {
        let rest = tags.drop_first();
        let inner = chain_tokens(rest);
        let k: int = inner.len() as int;
        assert(toks[pos + 1] == ct[1]);
        assert(toks.subrange(pos + 2, pos + 2 + inner.len()) =~= ct.subrange(2, 2 + k));
        assert(ct.subrange(2, 2 + k) =~= inner);
        assert(toks[pos + 2 + inner.len()] == ct[2 + k]);
        lemma_parse_chain_at(toks, pos + 2, rest);
        let q = pos + 2 + inner.len();
        assert(parse_forest_spec(toks, q, true) == Ok::<(Seq<Element>, int), crate::error::MarkupError>((Seq::empty(), q + 1)));
        assert(seq![chain(rest)] + Seq::<Element>::empty() =~= seq![chain(rest)]);
        assert(parse_forest_spec(toks, pos + 2, true) == Ok::<(Seq<Element>, int), crate::error::MarkupError>((seq![chain(rest)], end)));
    }
}

/// Text nested `n` levels deep renders its innermost opening tag after
/// exactly `n` more tabs than the outermost one, at the start of a line.
/// The result is the text before and after that tag.
pub proof fn lemma_nesting_depth(tags: Seq<Seq<char>>, d: nat) -> (r: (Seq<char>, Seq<char>))
    requires
        tags.len() >= 1,
    ensures
        parse_spec(chain_tokens(tags)) == Ok::<Seq<Element>, crate::error::MarkupError>(seq![chain(tags)]),
        render(chain(tags), d) == r.0 + tabs((d + tags.len() - 1) as nat) + opening_tag(leaf(tags.last())) + r.1,
        r.0.len() == 0 || r.0.last() == '\n',
    decreases tags.len(),
{
    let toks = chain_tokens(tags);
    assert(toks.subrange(0, toks.len() as int) =~= toks);
    lemma_parse_chain_at(toks, 0, tags);
    assert(parse_forest_spec(toks, toks.len() as int, false) == Ok::<(Seq<Element>, int), crate::error::MarkupError>((Seq::empty(), toks.len() as int)));
    assert(seq![chain(tags)] + Seq::<Element>::empty() =~= seq![chain(tags)]);
    let e = chain(tags);
    if tags.len() == 1 {
        let after = seq!['\n'] + render_forest_at(e.children, tabs(d).push('\t')) + seq!['\n'] + tabs(d)
            + crate::tree::closing_tag(e);
        assert(render(e, d) =~= Seq::<char>::empty() + tabs(d) + opening_tag(leaf(tags.last())) + after);
        (Seq::empty(), after)
    } else {
        let rest = tags.drop_first();
        let inner = lemma_nesting_depth(rest, d + 1);
        assert(rest.last() == tags.last());
        assert(tabs(d).push('\t') == tabs(d + 1));
        assert(render_forest_at(e.children, tabs(d + 1)) == render(chain(rest), d + 1));
        let before = tabs(d) + opening_tag(e) + seq!['\n'] + inner.0;
        let after = inner.1 + seq!['\n'] + tabs(d) + crate::tree::closing_tag(e);
        assert(render(e, d) =~= before + tabs((d + tags.len() - 1) as nat) + opening_tag(leaf(tags.last())) + after);
        (before, after)
    }
}

} // verus!
