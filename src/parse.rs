use vstd::prelude::*;
use crate::error::MarkupError;
use crate::token::{identifiers_nonempty, toks_of, Tok, Token};
use crate::tree::{attributes_view, element_wf, forest_wf, unique_names, views, Element, TreeNode};

verus! {

/// Attribute list `a` after `name="value"`: the value replaces that of an
/// attribute of the same name, where there is one, and is appended otherwise.
pub open spec fn insert_attribute(
    a: Seq<(Seq<char>, Seq<char>)>,
    name: Seq<char>,
    value: Seq<char>,
) -> Seq<(Seq<char>, Seq<char>)> {
    if exists|i: int| 0 <= i < a.len() && a[i].0 == name {
        a.update(choose|i: int| 0 <= i < a.len() && a[i].0 == name, (name, value))
    } else {
        a.push((name, value))
    }
}

/// What an attribute list has seen of the attribute being read.
pub enum AttrState {
    /// No attribute is being read.
    Idle,
    /// A name has been read.
    Named(Seq<char>),
    /// A name and `=` have been read.
    Assigning(Seq<char>),
}

/// The attributes of a list whose `(` lies before `pos`, having read `acc`
/// so far and being in state `st`, with the position after its `)`.
pub open spec fn parse_attributes_spec(
    toks: Seq<Tok>,
    pos: int,
    st: AttrState,
    acc: Seq<(Seq<char>, Seq<char>)>,
) -> Result<(Seq<(Seq<char>, Seq<char>)>, int), MarkupError>
    decreases toks.len() - pos,
{
    if pos < 0 || pos >= toks.len() {
        Err(MarkupError::UnterminatedBlock)
    } else {
        match (st, toks[pos]) {
            (AttrState::Idle, Tok::Identifier(n)) => parse_attributes_spec(toks, pos + 1, AttrState::Named(n), acc),
            (AttrState::Named(n), Tok::Equals) => parse_attributes_spec(toks, pos + 1, AttrState::Assigning(n), acc),
            (AttrState::Assigning(n), Tok::StringLiteral(v)) => parse_attributes_spec(
                toks,
                pos + 1,
                AttrState::Idle,
                insert_attribute(acc, n, v),
            ),
            (AttrState::Idle, Tok::CloseParen) => Ok((acc, pos + 1)),
            (AttrState::Idle, Tok::Equals) => Err(MarkupError::AttributeNameRequired),
            (AttrState::Idle, Tok::StringLiteral(_)) => Err(MarkupError::AttributeNameRequired),
            (AttrState::Named(_), Tok::StringLiteral(_)) => Err(MarkupError::EqualsSignRequired),
            (AttrState::Assigning(_), Tok::Equals) => Err(MarkupError::DuplicateEquals),
            (AttrState::Named(_), Tok::CloseParen) => Err(MarkupError::IncompleteAttribute),
            (AttrState::Assigning(_), Tok::CloseParen) => Err(MarkupError::IncompleteAttribute),
            _ => Err(MarkupError::InvalidPosition),
        }
    }
}

/// An attribute list ends after the position where it is read.
pub proof fn lemma_attributes_advance(
    toks: Seq<Tok>,
    pos: int,
    st: AttrState,
    acc: Seq<(Seq<char>, Seq<char>)>,
)
    ensures
        parse_attributes_spec(toks, pos, st, acc) matches Ok((_, p)) ==> pos < p <= toks.len(),
    decreases toks.len() - pos,
{
    if 0 <= pos < toks.len() {
        match (st, toks[pos]) {
            (AttrState::Idle, Tok::Identifier(n)) => lemma_attributes_advance(toks, pos + 1, AttrState::Named(n), acc),
            (AttrState::Named(n), Tok::Equals) => lemma_attributes_advance(toks, pos + 1, AttrState::Assigning(n), acc),
            (AttrState::Assigning(n), Tok::StringLiteral(v)) => lemma_attributes_advance(
                toks,
                pos + 1,
                AttrState::Idle,
                insert_attribute(acc, n, v),
            ),
            _ => {},
        }
    }
}

/// The element whose tag is at `pos`, with the position after it: the tag,
/// an optional attribute list, and an optional children block.
pub open spec fn parse_element_spec(toks: Seq<Tok>, pos: int) -> Result<(Element, int), MarkupError>
    decreases toks.len() - pos, 0int,
{
    if pos < 0 || pos >= toks.len() {
        Err(MarkupError::UnnamedElement)
    } else {
        match toks[pos] {
            Tok::Identifier(tag) => {
                let attrs = if pos + 1 < toks.len() && toks[pos + 1] is OpenParen {
                    parse_attributes_spec(toks, pos + 2, AttrState::Idle, Seq::empty())
                } else {
                    Ok((Seq::empty(), pos + 1))
                };
                match attrs {
                    Err(e) => Err(e),
                    Ok((attributes, p)) => {
                        if p < toks.len() && toks[p] is OpenBracket {
                            proof {
                                lemma_attributes_advance(toks, pos + 2, AttrState::Idle, Seq::empty());
                            }
                            match parse_forest_spec(toks, p + 1, true) {
                                Err(e) => Err(e),
                                Ok((children, q)) => Ok(
                                    (Element { tag, attributes, children }, q),
                                ),
                            }
                        } else {
                            Ok((Element { tag, attributes, children: Seq::empty() }, p))
                        }
                    },
                }
            },
            _ => Err(MarkupError::UnnamedElement),
        }
    }
}

/// The elements from `pos` to the end of the scope, with the position after
/// it. A nested scope ends after its `}`; the top level at the end of input.
pub open spec fn parse_forest_spec(toks: Seq<Tok>, pos: int, nested: bool) -> Result<(Seq<Element>, int), MarkupError>
    decreases toks.len() - pos, 1int,
{
    if pos < 0 || pos >= toks.len() {
        if nested {
            Err(MarkupError::UnterminatedBlock)
        } else {
            Ok((Seq::empty(), pos))
        }
    } else {
        match toks[pos] {
            Tok::CloseBracket => if nested {
                Ok((Seq::empty(), pos + 1))
            } else {
                Err(MarkupError::InvalidPosition)
            },
            Tok::CloseParen => Err(MarkupError::InvalidPosition),
            Tok::Identifier(_) => match parse_element_spec(toks, pos) {
                Err(e) => Err(e),
                Ok((e, p)) => {
                    // an element takes at least its tag, so `p > pos` always holds
                    if pos < p <= toks.len() {
                        match parse_forest_spec(toks, p, nested) {
                            Err(err) => Err(err),
                            Ok((es, q)) => Ok((seq![e] + es, q)),
                        }
                    } else {
                        Err(MarkupError::InvalidPosition)
                    }
                },
            },
            _ => Err(MarkupError::UnnamedElement),
        }
    }
}

/// The forest of a whole token sequence, or the first grammar violation in it.
pub open spec fn parse_spec(toks: Seq<Tok>) -> Result<Seq<Element>, MarkupError> {
    match parse_forest_spec(toks, 0, false) {
        Ok((es, _)) => Ok(es),
        Err(e) => Err(e),
    }
}

/// The value of the executable attribute state `(mode, name)`.
pub open spec fn attr_state_of(mode: u8, name: Seq<char>) -> AttrState {
    if mode == 1 {
        AttrState::Named(name)
    } else if mode == 2 {
        AttrState::Assigning(name)
    } else {
        AttrState::Idle
    }
}

/// `r` with the elements `acc` put before its forest.
pub open spec fn prepend(acc: Seq<Element>, r: Result<(Seq<Element>, int), MarkupError>) -> Result<(Seq<Element>, int), MarkupError> {
    match r {
        Ok((es, q)) => Ok((acc + es, q)),
        Err(e) => Err(e),
    }
}

/// Sets the attribute `name` to `value`, in place where it exists.
fn insert_attribute_into(attrs: &mut Vec<(String, String)>, name: String, value: String)
    requires
        unique_names(attributes_view(old(attrs)@)),
    ensures
        attributes_view(final(attrs)@) == insert_attribute(attributes_view(old(attrs)@), name@, value@),
        unique_names(attributes_view(final(attrs)@)),
{
    let ghost a = attributes_view(attrs@);
    let ghost entry = (name@, value@);
    let mut i: usize = 0;
    while i < attrs.len()
        invariant
            i <= attrs.len(),
            a == attributes_view(attrs@),
            a == attributes_view(old(attrs)@),
            entry == (name@, value@),
            unique_names(a),
            forall|j: int| 0 <= j < i ==> a[j].0 != name@,
        decreases attrs.len() - i,
    {
        if attrs[i].0 == name {
            proof {
                assert(a[i as int].0 == attrs@[i as int].0@);
                let k = choose|k: int| 0 <= k < a.len() && a[k].0 == name@;
                assert(a[i as int].0 == name@);
                assert(k == i);
                assert(insert_attribute(a, name@, value@) == a.update(i as int, (name@, value@)));
            }
            attrs.set(i, (name, value));
            proof {
                assert(attributes_view(attrs@) =~= a.update(i as int, entry));
            }
            return;
        }
        i = i + 1;
    }
    attrs.push((name, value));
    proof {
        assert(attributes_view(attrs@) =~= a.push((name@, value@)));
    }
}

/// Reads an attribute list whose `(` lies just before `start`.
fn parse_attributes(tokens: &Vec<Token>, start: usize) -> (r: Result<(Vec<(String, String)>, usize), MarkupError>)
    requires
        start <= tokens.len(),
    ensures
        match (r, parse_attributes_spec(toks_of(tokens@), start as int, AttrState::Idle, Seq::empty())) {
            (Ok((a, p)), Ok((sa, sp))) => attributes_view(a@) == sa && p == sp && unique_names(sa),
            (Err(e), Err(f)) => e == f,
            _ => false,
        },
{
    let ghost toks = toks_of(tokens@);
    let mut attrs: Vec<(String, String)> = Vec::new();
    let mut mode: u8 = 0;
    let mut name = String::new();
    let mut pos: usize = start;
    assert(attributes_view(attrs@) =~= Seq::empty());
    loop
        invariant
            pos <= tokens.len(),
            mode <= 2,
            toks == toks_of(tokens@),
            unique_names(attributes_view(attrs@)),
            parse_attributes_spec(toks, start as int, AttrState::Idle, Seq::empty())
                == parse_attributes_spec(toks, pos as int, attr_state_of(mode, name@), attributes_view(attrs@)),
        decreases tokens.len() - pos,
    {
        if pos >= tokens.len() {
            return Err(MarkupError::UnterminatedBlock);
        }
        assert(toks[pos as int] == tokens@[pos as int]@);
        match &tokens[pos] {
            Token::Identifier(n) => {
                if mode != 0 {
                    proof {
                        if mode == 1 {
                            assert(attr_state_of(mode, name@) is Named);
                        } else {
                            assert(attr_state_of(mode, name@) is Assigning);
                        }
                    }
                    return Err(MarkupError::InvalidPosition);
                }
                name = n.clone();
                mode = 1;
            },
            Token::Equals => {
                if mode == 0 {
                    return Err(MarkupError::AttributeNameRequired);
                } else if mode == 2 {
                    return Err(MarkupError::DuplicateEquals);
                }
                mode = 2;
            },
            Token::StringLiteral(v) => {
                if mode == 0 {
                    return Err(MarkupError::AttributeNameRequired);
                } else if mode == 1 {
                    return Err(MarkupError::EqualsSignRequired);
                }
                insert_attribute_into(&mut attrs, name.clone(), v.clone());
                mode = 0;
            },
            Token::CloseParen => {
                if mode != 0 {
                    proof {
                        if mode == 1 {
                            assert(attr_state_of(mode, name@) is Named);
                        } else {
                            assert(attr_state_of(mode, name@) is Assigning);
                        }
                    }
                    return Err(MarkupError::IncompleteAttribute);
                }
                return Ok((attrs, pos + 1));
            },
            _ => {
                return Err(MarkupError::InvalidPosition);
            },
        }
        pos = pos + 1;
    }
}

/// Whether `t` is `(`.
fn is_open_paren(t: &Token) -> (r: bool)
    ensures
        r == (t@ is OpenParen),
{
    match t {
        Token::OpenParen => true,
        _ => false,
    }
}

/// Whether `t` is `{`.
fn is_open_bracket(t: &Token) -> (r: bool)
    ensures
        r == (t@ is OpenBracket),
{
    match t {
        Token::OpenBracket => true,
        _ => false,
    }
}

/// Reads the element whose tag is at `pos`.
fn parse_element(tokens: &Vec<Token>, pos: usize) -> (r: Result<(TreeNode, usize), MarkupError>)
    requires
        pos <= tokens.len(),
    ensures
        match (r, parse_element_spec(toks_of(tokens@), pos as int)) {
            (Ok((t, p)), Ok((e, q))) => t@ == e && p == q && pos < p <= tokens.len()
                && (identifiers_nonempty(toks_of(tokens@)) ==> element_wf(e)),
            (Err(e), Err(f)) => e == f,
            _ => false,
        },
    decreases tokens.len() - pos, 0int,
{
    let ghost toks = toks_of(tokens@);
    if pos >= tokens.len() {
        return Err(MarkupError::UnnamedElement);
    }
    assert(toks[pos as int] == tokens@[pos as int]@);
    let tag = match &tokens[pos] {
        Token::Identifier(n) => n.clone(),
        _ => {
            return Err(MarkupError::UnnamedElement);
        },
    };
    let mut node = TreeNode::new(tag);
    let mut p: usize = pos + 1;
    if p < tokens.len() && is_open_paren(&tokens[p]) {
        assert(toks[p as int] == tokens@[p as int]@);
        match parse_attributes(tokens, p + 1) {
            Err(e) => {
                return Err(e);
            },
            Ok((a, q)) => {
                proof {
                    lemma_attributes_advance(toks, pos + 2, AttrState::Idle, Seq::empty());
                }
                node.attributes = a;
                p = q;
            },
        }
    } else {
        assert(p < tokens.len() ==> toks[p as int] == tokens@[p as int]@);
    }
    if p < tokens.len() && is_open_bracket(&tokens[p]) {
        assert(toks[p as int] == tokens@[p as int]@);
        match parse_elements(tokens, p + 1, true) {
            Err(e) => {
                return Err(e);
            },
            Ok((cs, q)) => {
                node.children = cs;
                p = q;
                assert(node@.children =~= views(node.children@));
            },
        }
    } else {
        assert(p < tokens.len() ==> toks[p as int] == tokens@[p as int]@);
        assert(node@.children =~= Seq::empty());
    }
    assert(identifiers_nonempty(toks) ==> element_wf(node@));
    Ok((node, p))
}

/// Reads elements from `start` to the end of the scope.
fn parse_elements(tokens: &Vec<Token>, start: usize, nested: bool) -> (r: Result<(Vec<TreeNode>, usize), MarkupError>)
    requires
        start <= tokens.len(),
    ensures
        match (r, parse_forest_spec(toks_of(tokens@), start as int, nested)) {
            (Ok((v, p)), Ok((es, q))) => views(v@) == es && p == q && start <= p <= tokens.len()
                && (identifiers_nonempty(toks_of(tokens@)) ==> forest_wf(es)),
            (Err(e), Err(f)) => e == f,
            _ => false,
        },
    decreases tokens.len() - start, 1int,
{
    let ghost toks = toks_of(tokens@);
    let mut elements: Vec<TreeNode> = Vec::new();
    let mut pos: usize = start;
    assert(views(elements@) =~= Seq::empty());
    assert(prepend(Seq::empty(), parse_forest_spec(toks, start as int, nested)) == parse_forest_spec(toks, start as int, nested)) by {
        match parse_forest_spec(toks, start as int, nested) {
            Ok((es, q)) => { assert(Seq::<Element>::empty() + es =~= es); },
            Err(_) => {},
        }
    }
    loop
        invariant
            start <= pos <= tokens.len(),
            toks == toks_of(tokens@),
            identifiers_nonempty(toks) ==> forest_wf(views(elements@)),
            parse_forest_spec(toks, start as int, nested)
                == prepend(views(elements@), parse_forest_spec(toks, pos as int, nested)),
        decreases tokens.len() - pos,
    {
        if pos >= tokens.len() {
            if nested {
                return Err(MarkupError::UnterminatedBlock);
            }
            assert(views(elements@) + Seq::empty() =~= views(elements@));
            return Ok((elements, pos));
        }
        assert(toks[pos as int] == tokens@[pos as int]@);
        match &tokens[pos] {
            Token::CloseBracket => {
                if !nested {
                    return Err(MarkupError::InvalidPosition);
                }
                assert(views(elements@) + Seq::empty() =~= views(elements@));
                return Ok((elements, pos + 1));
            },
            Token::CloseParen => {
                return Err(MarkupError::InvalidPosition);
            },
            Token::Identifier(_) => {
                match parse_element(tokens, pos) {
                    Err(e) => {
                        return Err(e);
                    },
                    Ok((node, p)) => {
                        let ghost acc = views(elements@);
                        let ghost e = node@;
                        elements.push(node);
                        pos = p;
                        proof {
                            assert(views(elements@) =~= acc.push(e));
                            match parse_forest_spec(toks, pos as int, nested) {
                                Ok((es, q)) => {
                                    assert(acc + (seq![e] + es) =~= acc.push(e) + es);
                                },
                                Err(_) => {},
                            }
                        }
                    },
                }
            },
            _ => {
                return Err(MarkupError::UnnamedElement);
            },
        }
    }
}

/// Builds the forest of a token sequence.
pub fn parse(tokens: &Vec<Token>) -> (r: Result<Vec<TreeNode>, MarkupError>)
    ensures
        match (r, parse_spec(toks_of(tokens@))) {
            (Ok(v), Ok(es)) => views(v@) == es && (identifiers_nonempty(toks_of(tokens@)) ==> forest_wf(es)),
            (Err(e), Err(f)) => e == f,
            _ => false,
        },
{
    match parse_elements(tokens, 0, false) {
        Ok((v, _)) => Ok(v),
        Err(e) => Err(e),
    }
}

} // verus!
