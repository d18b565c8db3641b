use markup::error::MarkupError;
use markup::html::{treenode_to_html, treenodes_to_html};
use markup::markup_text_to_html;
use markup::parse::parse;
use markup::token::{tokenize, Token};
use markup::tree::TreeNode;

fn html(text: &str) -> Result<String, MarkupError> {
    markup_text_to_html(text)
}

#[test]
fn nested_element_with_attributes() {
    let tokens = tokenize("div(class=\"flex\") { p(text=\"Hello\") }").unwrap();
    let forest = parse(&tokens).unwrap();
    assert_eq!(forest.len(), 1);
    let div = &forest[0];
    assert_eq!(div.element, "div");
    assert_eq!(div.attributes, vec![("class".to_string(), "flex".to_string())]);
    assert_eq!(div.children.len(), 1);
    let p = &div.children[0];
    assert_eq!(p.element, "p");
    assert_eq!(p.attributes, vec![("text".to_string(), "Hello".to_string())]);
    assert!(p.children.is_empty());
    assert_eq!(
        html("div(class=\"flex\") { p(text=\"Hello\") }").unwrap(),
        "<div class=\"flex\">\n\t<p text=\"Hello\">\n\n\t</p>\n</div>"
    );
}

#[test]
fn leaf_renders_open_blank_close() {
    assert_eq!(html("br").unwrap(), "<br>\n\n</br>");
    let node = TreeNode::new("br".to_string());
    assert_eq!(treenode_to_html(&node, 0), "<br>\n\n</br>");
    assert_eq!(treenode_to_html(&node, 2), "\t\t<br>\n\n\t\t</br>");
}

#[test]
fn repeated_attribute_keeps_last_value() {
    let tokens = tokenize("tag(a=\"1\" a=\"2\")").unwrap();
    let forest = parse(&tokens).unwrap();
    assert_eq!(forest.len(), 1);
    assert_eq!(forest[0].attributes, vec![("a".to_string(), "2".to_string())]);
    assert_eq!(html("tag(a=\"1\" a=\"2\")").unwrap(), "<tag a=\"2\">\n\n</tag>");
}

#[test]
fn repeated_attribute_keeps_first_position() {
    let forest = parse(&tokenize("t(a=\"1\" b=\"2\" a=\"3\")").unwrap()).unwrap();
    assert_eq!(
        forest[0].attributes,
        vec![("a".to_string(), "3".to_string()), ("b".to_string(), "2".to_string())]
    );
}

#[test]
fn children_keep_source_order() {
    let out = html("parent { one two three }").unwrap();
    assert_eq!(
        out,
        "<parent>\n\t<one>\n\n\t</one>\n\t<two>\n\n\t</two>\n\t<three>\n\n\t</three>\n</parent>"
    );
    let a = out.find("<one>").unwrap();
    let b = out.find("<two>").unwrap();
    let c = out.find("<three>").unwrap();
    assert!(a < b && b < c);
}

#[test]
fn digits_in_identifiers_are_rejected() {
    assert_eq!(html("parent { c1 c2 c3 }"), Err(MarkupError::UnrecognizedCharacter('1')));
}

#[test]
fn nesting_depth_sets_indent() {
    let out = html("a { b { c } }").unwrap();
    assert_eq!(out, "<a>\n\t<b>\n\t\t<c>\n\n\t\t</c>\n\t</b>\n</a>");
    assert!(out.contains("\n\t\t<c>"));
    let deep = html("a { b { c { d { e } } } }").unwrap();
    assert!(deep.contains("\n\t\t\t\t<e>\n"));
}

#[test]
fn empty_input_gives_empty_output() {
    let tokens = tokenize("").unwrap();
    assert!(tokens.is_empty());
    let forest = parse(&tokens).unwrap();
    assert!(forest.is_empty());
    assert_eq!(treenodes_to_html(&forest, 0), "");
    assert_eq!(html("").unwrap(), "");
    assert_eq!(html(" \n ").unwrap(), "");
}

#[test]
fn siblings_join_with_one_line_feed() {
    assert_eq!(html("a b").unwrap(), "<a>\n\n</a>\n<b>\n\n</b>");
}

#[test]
fn attributes_are_written_without_separator() {
    assert_eq!(html("a(x=\"1\" y=\"2\")").unwrap(), "<a x=\"1\"y=\"2\">\n\n</a>");
}

#[test]
fn empty_attribute_list_and_block() {
    assert_eq!(html("a()").unwrap(), "<a>\n\n</a>");
    assert_eq!(html("a {}").unwrap(), "<a>\n\n</a>");
    assert_eq!(html("a() {}").unwrap(), "<a>\n\n</a>");
}

#[test]
fn literal_text_is_kept_verbatim() {
    assert_eq!(
        html("a(t=\"x y{}()=1\")").unwrap(),
        "<a t=\"x y{}()=1\">\n\n</a>"
    );
}

#[test]
fn non_ascii_letters_form_identifiers() {
    assert_eq!(html("été").unwrap(), "<été>\n\n</été>");
}

#[test]
fn tokenizer_emits_each_kind() {
    let tokens = tokenize("a(b=\"c\") {}").unwrap();
    assert_eq!(tokens.len(), 8);
    assert!(matches!(&tokens[0], Token::Identifier(s) if s == "a"));
    assert!(matches!(tokens[1], Token::OpenParen));
    assert!(matches!(&tokens[2], Token::Identifier(s) if s == "b"));
    assert!(matches!(tokens[3], Token::Equals));
    assert!(matches!(&tokens[4], Token::StringLiteral(s) if s == "c"));
    assert!(matches!(tokens[5], Token::CloseParen));
    assert!(matches!(tokens[6], Token::OpenBracket));
    assert!(matches!(tokens[7], Token::CloseBracket));
}

#[test]
fn identifier_at_end_of_input_is_emitted() {
    let tokens = tokenize("ab").unwrap();
    assert_eq!(tokens.len(), 1);
    assert!(matches!(&tokens[0], Token::Identifier(s) if s == "ab"));
}

#[test]
fn rejects_unrecognized_character() {
    assert_eq!(html("div;"), Err(MarkupError::UnrecognizedCharacter(';')));
}

#[test]
fn rejects_unterminated_string() {
    assert_eq!(html("div(a=\"x"), Err(MarkupError::UnterminatedString));
}

#[test]
fn rejects_unnamed_element() {
    assert_eq!(html("\"x\""), Err(MarkupError::UnnamedElement));
    assert_eq!(html("{ a }"), Err(MarkupError::UnnamedElement));
}

#[test]
fn rejects_duplicate_equals() {
    assert_eq!(html("div(a==\"x\")"), Err(MarkupError::DuplicateEquals));
}

#[test]
fn rejects_missing_attribute_name() {
    assert_eq!(html("div(=)"), Err(MarkupError::AttributeNameRequired));
    assert_eq!(html("div(\"x\")"), Err(MarkupError::AttributeNameRequired));
}

#[test]
fn rejects_missing_equals_sign() {
    assert_eq!(html("div(a \"x\")"), Err(MarkupError::EqualsSignRequired));
}

#[test]
fn rejects_incomplete_attribute() {
    assert_eq!(html("div(a)"), Err(MarkupError::IncompleteAttribute));
    assert_eq!(html("div(a=)"), Err(MarkupError::IncompleteAttribute));
}

#[test]
fn rejects_token_in_invalid_position() {
    assert_eq!(html("div }"), Err(MarkupError::InvalidPosition));
    assert_eq!(html(")"), Err(MarkupError::InvalidPosition));
    assert_eq!(html("div(a b)"), Err(MarkupError::InvalidPosition));
}

#[test]
fn rejects_unterminated_block() {
    assert_eq!(html("div {"), Err(MarkupError::UnterminatedBlock));
    assert_eq!(html("div { p"), Err(MarkupError::UnterminatedBlock));
    assert_eq!(html("div(a=\"x\""), Err(MarkupError::UnterminatedBlock));
}
