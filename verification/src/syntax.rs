//! The syntax tree of an mq script, as far as the routes in it are concerned.

use std::rc::Rc;

use vstd::prelude::*;

use crate::text;

verus! {

/// The kinds of syntax nodes that tell routes apart.
#[derive(Clone, Copy, Debug, PartialEq, Eq, Structural)]
pub enum SyntaxKind {
    /// A qualified access such as `http::route(...)`.
    QualifiedAccess,
    /// An identifier.
    Ident,
    /// A literal.
    Literal,
    /// An anonymous function.
    Fn,
    /// A call by name.
    Call,
    /// Any other node.
    Other,
}

/// A syntax node: its kind, the text of its token, the content of its token where that is a
/// string literal, and its children.
#[derive(Debug)]
pub struct SyntaxNode {
    pub kind: SyntaxKind,
    pub token: Option<String>,
    pub literal: Option<String>,
    pub children: Vec<SyntaxNode>,
}

/// The model of a [`SyntaxNode`].
pub ghost struct SyntaxView {
    pub kind: SyntaxKind,
    pub token: Option<Seq<char>>,
    pub literal: Option<Seq<char>>,
    pub children: Seq<SyntaxView>,
}

/// What a syntax node holds, all the way down.
pub open spec fn node_view(node: SyntaxNode) -> SyntaxView
    decreases node,
{
    SyntaxView {
        kind: node.kind,
        token: text::option_view(node.token),
        literal: text::option_view(node.literal),
        children: Seq::new(
            node.children@.len(),
            |i: int|
                if 0 <= i < node.children@.len() {
                    node_view(node.children@[i])
                } else {
                    arbitrary()
                },
        ),
    }
}

impl View for SyntaxNode {
    type V = SyntaxView;

    open spec fn view(&self) -> SyntaxView {
        node_view(*self)
    }
}

/// What a list of syntax nodes holds.
pub open spec fn node_views(nodes: Seq<SyntaxNode>) -> Seq<SyntaxView> {
    nodes.map_values(|n: SyntaxNode| n@)
}

/// The children of a node's model are the models of its children.
pub proof fn lemma_children(node: SyntaxNode)
    ensures
        node@.children == node_views(node.children@),
{
    reveal_with_fuel(node_view, 2);
    assert(node@.children =~= node_views(node.children@));
}

/// A node of the concrete syntax tree that `mq_lang` builds.
#[verifier::external_type_specification]
#[verifier::external_body]
pub struct ExCstNode(mq_lang::CstNode);

/// What a node of the concrete syntax tree holds, all the way down.
pub uninterp spec fn cst_view(node: mq_lang::CstNode) -> SyntaxView;

/// The tree that `mq_lang::parse_recovery` makes of a text.
pub uninterp spec fn parsed_forest(code: Seq<char>) -> Seq<SyntaxView>;

/// What a list of concrete syntax nodes holds.
pub open spec fn cst_views(nodes: Seq<Rc<mq_lang::CstNode>>) -> Seq<SyntaxView> {
    nodes.map_values(|n: Rc<mq_lang::CstNode>| cst_view(*n))
}

/// A script with a comment line behind it that ends in `{`.
///
/// A comment makes no node, so the line adds nothing to the tree. An interpolated string that the
/// script leaves open stops at the `{`.
pub open spec fn closed(script: Seq<char>) -> Seq<char> {
    script + "\n#{"@
}

/// Whether a text is some script with a comment line behind it that ends in `{`.
pub open spec fn is_closed(code: Seq<char>) -> bool {
    "\n#{"@.is_suffix_of(code)
}

/// `mq_lang::parse_recovery` parses a text; what it cannot parse it reports and skips. On a text
/// that runs out inside an interpolated string it does not return. A comment line that ends in `{`
/// rules that out: such a string goes no further than the `{`, at which it is given up. The nodes
/// that it returns depend on the text alone. The errors that it reports are not kept.
#[verifier::external_body]
fn parse_recovery(code: &str) -> (nodes: Vec<Rc<mq_lang::CstNode>>)
    requires
        is_closed(code@),
    ensures
        cst_views(nodes@) == parsed_forest(code@),
{
    mq_lang::parse_recovery(code).0
}

/// The field `kind` of `mq_lang::CstNode`, with the kinds that tell no route apart taken
/// together.
#[verifier::external_body]
fn cst_kind(node: &mq_lang::CstNode) -> (kind: SyntaxKind)
    ensures
        kind == cst_view(*node).kind,
{
    match node.kind {
        mq_lang::CstNodeKind::QualifiedAccess => SyntaxKind::QualifiedAccess,
        mq_lang::CstNodeKind::Ident => SyntaxKind::Ident,
        mq_lang::CstNodeKind::Literal => SyntaxKind::Literal,
        mq_lang::CstNodeKind::Fn => SyntaxKind::Fn,
        mq_lang::CstNodeKind::Call => SyntaxKind::Call,
        _ => SyntaxKind::Other,
    }
}

/// The field `token` of `mq_lang::CstNode`, printed by its `Display`.
#[verifier::external_body]
fn cst_token(node: &mq_lang::CstNode) -> (token: Option<String>)
    ensures
        text::option_view(token) == cst_view(*node).token,
{
    node.token.as_ref().map(|token| token.to_string())
}

/// The content of the token of a `mq_lang::CstNode` where that token is a string literal.
#[verifier::external_body]
fn cst_literal(node: &mq_lang::CstNode) -> (literal: Option<String>)
    ensures
        text::option_view(literal) == cst_view(*node).literal,
{
    node.token.as_ref().and_then(|token| match &token.kind {
        mq_lang::TokenKind::StringLiteral(content) => Some(content.clone()),
        _ => None,
    })
}

/// The field `children` of `mq_lang::CstNode`.
#[verifier::external_body]
fn cst_children(node: &mq_lang::CstNode) -> (children: Vec<Rc<mq_lang::CstNode>>)
    ensures
        cst_views(children@) == cst_view(*node).children,
{
    node.children.clone()
}

/// Copy a node with all that is below it.
fn copy_node(node: &mq_lang::CstNode) -> (copy: SyntaxNode)
    ensures
        copy@ == cst_view(*node),
    decreases cst_view(*node),
{
    let nodes = cst_children(node);
    let ghost views = cst_view(*node).children;
    let mut children: Vec<SyntaxNode> = Vec::new();
    let mut i: usize = 0;
    while i < nodes.len()
        invariant
            i <= nodes@.len(),
            cst_views(nodes@) == views,
            views == cst_view(*node).children,
            children@.len() == i,
            forall|j: int| 0 <= j < i ==> #[trigger] children@[j]@ == views[j],
        decreases nodes@.len() - i,
    {
        assert(cst_view(*nodes@[i as int]) == views[i as int]);
        children.push(copy_node(&nodes[i]));
        i += 1;
    }
    proof {
        assert(node_views(children@) =~= views);
    }
    let copy = SyntaxNode {
        kind: cst_kind(node),
        token: cst_token(node),
        literal: cst_literal(node),
        children,
    };
    proof {
        lemma_children(copy);
    }
    copy
}

/// Parse a script into its syntax nodes. What cannot be parsed is left out.
pub fn parse_nodes(code: &str) -> (nodes: Vec<SyntaxNode>)
    ensures
        node_views(nodes@) == parsed_forest(closed(code@)),
{
    let mut whole = code.to_owned();
    whole.append("\n#{");
    proof {
        assert("\n#{"@ =~= whole@.subrange(code@.len() as int, whole@.len() as int));
    }
    let forest = parse_recovery(whole.as_str());
    let mut nodes: Vec<SyntaxNode> = Vec::new();
    let mut i: usize = 0;
    while i < forest.len()
        invariant
            i <= forest@.len(),
            nodes@.len() == i,
            forall|j: int| 0 <= j < i ==> #[trigger] nodes@[j]@ == cst_views(forest@)[j],
        decreases forest@.len() - i,
    {
        nodes.push(copy_node(&forest[i]));
        i += 1;
    }
    proof {
        assert(node_views(nodes@) =~= cst_views(forest@));
    }
    nodes
}

/// A script is closed by a line feed, a hash sign and an opening brace behind it, and is left as it
/// is itself.
pub proof fn law_closed(script: Seq<char>)
    ensures
        closed(script) == script + seq!['\n', '#', '{'],
        is_closed(closed(script)),
{
    reveal_strlit("\n#{");
    assert("\n#{"@ =~= seq!['\n', '#', '{']);
    let whole = closed(script);
    assert("\n#{"@ =~= whole.subrange(script.len() as int, whole.len() as int));
}

/// What a syntax node holds is what its parts hold, all the way down.
pub proof fn law_node_view(node: SyntaxNode, i: int)
    ensures
        node@.kind == node.kind,
        node@.token == text::option_view(node.token),
        node@.literal == text::option_view(node.literal),
        node@.children.len() == node.children@.len(),
        0 <= i < node.children@.len() ==> node@.children[i] == node.children@[i]@,
{
    lemma_children(node);
}

} // verus!
