//! The PHP grammar (tree-sitter-php) run over PHP text, its tree handed to
//! the PHP readers as plain values.
use vstd::prelude::*;
use crate::php::{tagged_block, tagged_block_spec, Attributed};
use crate::php_syntax::{attributed, attributed_view, collect_spec, normalize_tree, normalized_spec, SyntaxNode};

verus! {

#[verifier::external_type_specification]
#[verifier::external_body]
pub struct ExTreeSitterNode<'tree>(tree_sitter::Node<'tree>);

/// The tree tree-sitter-php's grammar gives a PHP text, as plain values.
pub uninterp spec fn php_tree(source: Seq<char>) -> SyntaxNode;

/// Copies a node of tree-sitter's tree and the nodes beneath it into plain
/// values: `Node::kind`, the field its parent holds it under
/// (`field_name_for_child`), `is_named`, `has_error`, the text it spans
/// (`utf8_text`), its start row and its children in order. Nothing is
/// stated of the copy: `php_syntax` names the whole tree.
#[verifier::external_body]
fn syntax_of(node: tree_sitter::Node, field: Option<&str>, src: &[u8]) -> SyntaxNode {
    let mut cursor = node.walk();
    let children = node
        .children(&mut cursor)
        .enumerate()
        .map(|(i, c)| syntax_of(c, node.field_name_for_child(i as u32), src))
        .collect();
    SyntaxNode {
        kind: node.kind().to_owned(),
        field: field.map(str::to_owned),
        named: node.is_named(),
        has_error: node.has_error(),
        text: node.utf8_text(src).unwrap_or_default().to_owned(),
        row: node.start_position().row,
        children,
    }
}

/// Runs `tree_sitter::Parser::parse` with tree-sitter-php's `LANGUAGE_PHP`
/// over a PHP text and copies the tree. The grammar's ABI (15) is one the
/// binding accepts, so `Parser::set_language` succeeds, and `parse` with a
/// language set gives a tree for every text (an erroneous text gives a tree
/// whose nodes mark the error): the result is always `Some`, the tree named
/// by `php_tree`.
#[verifier::external_body]
fn php_syntax(source: &str) -> (r: Option<SyntaxNode>)
    ensures
        r == Some(php_tree(source@)),
{
    let mut parser = tree_sitter::Parser::new();
    if parser.set_language(&tree_sitter_php::LANGUAGE_PHP.into()).is_err() {
        return None;
    }
    match parser.parse(source, None) {
        Some(t) => Some(syntax_of(t.root_node(), None, source.as_bytes())),
        None => None,
    }
}

/// The `#[Spec(...)]` declarations of a PHP source: those of the tree the
/// grammar gives it.
pub fn attributed_source(source: &str) -> (v: Vec<Attributed>)
    ensures
        v@.map_values(|a: Attributed| attributed_view(a)) == collect_spec(php_tree(source@)),
{
    match php_syntax(source) {
        Some(t) => match attributed(Some(&t)) {
            Ok(v) => v,
            Err(_) => Vec::new(),
        },
        None => Vec::new(),
    }
}

/// The normalized signature of a PHP signature block: the declarations of
/// the grammar's tree of the block as `tagged_block` tags it, or why there
/// is none.
pub fn normalize_php(block: &str) -> (r: Result<String, String>)
    ensures
        match r {
            Ok(s) => normalized_spec(Some(php_tree(tagged_block_spec(block@)))) == Ok::<
                Seq<char>,
                Seq<char>,
            >(s@),
            Err(e) => normalized_spec(Some(php_tree(tagged_block_spec(block@)))) == Err::<
                Seq<char>,
                Seq<char>,
            >(e@),
        },
{
    let tagged = tagged_block(block);
    match php_syntax(tagged.as_str()) {
        Some(t) => normalize_tree(Some(&t)),
        None => Err(String::new()),
    }
}

} // verus!
