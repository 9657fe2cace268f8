//! The routes that a script declares with `http::get_route(...)`, `http::route(...)` and the like.

use vstd::prelude::*;

use crate::nesting;
use crate::nesting::Nesting;
use crate::syntax;
use crate::syntax::{parse_nodes, SyntaxKind, SyntaxNode};
use crate::text;
use crate::text::{chars_of, is_text, lines, text_of, trim, Trim};

verus! {

/// A route found in a script: method, path, and the name of the function that handles it.
pub ghost struct RouteView {
    pub method: Seq<char>,
    pub path: Seq<char>,
    pub handler: Option<Seq<char>>,
}

/// What a triple of method, path and handler holds.
pub open spec fn route_view(route: (String, String, Option<String>)) -> RouteView {
    RouteView {
        method: route.0@,
        path: route.1@,
        handler: text::option_view(route.2),
    }
}

/// What a list of routes holds.
pub open spec fn route_views(list: Seq<(String, String, Option<String>)>) -> Seq<RouteView> {
    list.map_values(|r: (String, String, Option<String>)| route_view(r))
}

/// Where the lines so far lead, and what they become.
pub ghost struct Piping {
    pub place: nesting::NestingView,
    pub out: Seq<char>,
}

/// Whether a line is an `end` that leaves nothing open of what was open in front of it.
pub open spec fn is_top_level_end(place: nesting::NestingView, line: Seq<char>) -> bool {
    &&& text::trimmed(line, Trim::White) == "end"@
    &&& place.open.len() > 0
    &&& nesting::after_line(place, line).open.len() == 0
}

/// What one more line does: it is kept, and a pipe follows it where it is a top-level `end`.
pub open spec fn pipe_line(state: Piping, line: Seq<char>) -> Piping {
    let kept = state.out + line + "\n"@;
    Piping {
        place: nesting::after_line(state.place, line),
        out: if is_top_level_end(state.place, line) {
            kept + "|\n"@
        } else {
            kept
        },
    }
}

/// Where the lines lead from the start.
pub open spec fn pipe_lines(lines: Seq<Seq<char>>) -> Piping
    decreases lines.len(),
{
    if lines.len() == 0 {
        Piping { place: nesting::outermost(), out: seq![] }
    } else {
        pipe_line(pipe_lines(lines.drop_last()), lines.last())
    }
}

/// A script with a pipe after each top-level `end`.
pub open spec fn piped(script: Seq<char>) -> Seq<char> {
    pipe_lines(text::lines_of(script)).out
}

/// Insert `|` after each top-level `end`, so that `def ... end` blocks and a route expression
/// behind them are connected without the script having to say so.
pub fn inject_pipe_after_top_level_end(content: &str) -> (result: String)
    ensures
        result@ == piped(content@),
{
    let script = chars_of(content);
    let list = lines(script.as_slice());
    let ghost all = text::lines_of(content@);
    let mut place = Nesting::new();
    let mut result = String::new();
    let mut i: usize = 0;
    proof {
        assert(all.take(0) =~= Seq::<Seq<char>>::empty());
    }
    while i < list.len()
        invariant
            i <= list@.len(),
            all == text::slice_views(list@),
            place@ == pipe_lines(all.take(i as int)).place,
            result@ == pipe_lines(all.take(i as int)).out,
        decreases list@.len() - i,
    {
        let line = list[i];
        proof {
            assert(all.take(i + 1).drop_last() =~= all.take(i as int));
            assert(all.take(i + 1).last() == line@);
        }
        let was_inside = place.depth() > 0;
        place.read_line(line);
        result.append(text_of(line).as_str());
        result.append("\n");
        if is_text(trim(line, Trim::White), "end") && was_inside && place.depth() == 0 {
            result.append("|\n");
        }
        i += 1;
    }
    proof {
        assert(all.take(list@.len() as int) =~= all);
    }
    result
}

/// The text of the first identifier among the nodes; none where that identifier has no token.
pub open spec fn first_ident(nodes: Seq<syntax::SyntaxView>) -> Option<Seq<char>>
    decreases nodes.len(),
{
    if nodes.len() == 0 {
        None
    } else if nodes[0].kind == SyntaxKind::Ident {
        nodes[0].token
    } else {
        first_ident(nodes.drop_first())
    }
}

/// The contents of the string literals among the nodes, in order.
pub open spec fn string_literals(nodes: Seq<syntax::SyntaxView>) -> Seq<Seq<char>>
    decreases nodes.len(),
{
    if nodes.len() == 0 {
        seq![]
    } else {
        let before = string_literals(nodes.drop_last());
        let last = nodes.last();
        if last.kind == SyntaxKind::Literal && last.literal is Some {
            before.push(last.literal->0)
        } else {
            before
        }
    }
}

/// The name of the first call below `node`, its children taken in order and each before what is
/// below it; none where that call has no token.
pub open spec fn first_call(node: syntax::SyntaxView) -> Option<Seq<char>>
    decreases node, node.children.len() + 1,
{
    first_call_from(node, 0)
}

/// The same for the children from `i` on.
pub open spec fn first_call_from(node: syntax::SyntaxView, i: nat) -> Option<Seq<char>>
    decreases node, node.children.len() - i,
{
    if i >= node.children.len() {
        None
    } else {
        let child = node.children[i as int];
        if child.kind == SyntaxKind::Call {
            child.token
        } else if first_call(child) is Some {
            first_call(child)
        } else {
            first_call_from(node, i + 1)
        }
    }
}

/// The name of the function that the first anonymous function among the nodes calls.
pub open spec fn handler_name(nodes: Seq<syntax::SyntaxView>) -> Option<Seq<char>>
    decreases nodes.len(),
{
    if nodes.len() == 0 {
        None
    } else if nodes[0].kind == SyntaxKind::Fn {
        first_call(nodes[0])
    } else {
        handler_name(nodes.drop_first())
    }
}

/// The method that a shorthand such as `get_route` stands for.
pub open spec fn shorthand_method(func: Seq<char>) -> Option<Seq<char>> {
    if func == "get_route"@ {
        Some("GET"@)
    } else if func == "post_route"@ {
        Some("POST"@)
    } else if func == "put_route"@ {
        Some("PUT"@)
    } else if func == "patch_route"@ {
        Some("PATCH"@)
    } else if func == "delete_route"@ {
        Some("DELETE"@)
    } else {
        None
    }
}

/// The route that the node itself declares, if it declares one: a shorthand needs a path, and
/// `http::route` a method and a path.
pub open spec fn own_route(node: syntax::SyntaxView) -> Option<RouteView> {
    let strings = string_literals(node.children);
    let handler = handler_name(node.children);
    if node.kind == SyntaxKind::QualifiedAccess && node.token == Some("http"@) {
        match first_ident(node.children) {
            None => None,
            Some(func) => match shorthand_method(func) {
                Some(method) => if strings.len() >= 1 {
                    Some(RouteView { method, path: strings[0], handler })
                } else {
                    None
                },
                None => if func == "route"@ && strings.len() >= 2 {
                    Some(RouteView { method: strings[0], path: strings[1], handler })
                } else {
                    None
                },
            },
        }
    } else {
        None
    }
}

/// The routes of a node and of all that is below it, each node before its children.
pub open spec fn routes_in(node: syntax::SyntaxView) -> Seq<RouteView>
    decreases node, node.children.len() + 1,
{
    let own = match own_route(node) {
        Some(route) => seq![route],
        None => seq![],
    };
    own + routes_below(node, node.children.len())
}

/// The routes below the first `n` children of a node.
pub open spec fn routes_below(node: syntax::SyntaxView, n: nat) -> Seq<RouteView>
    decreases node, n,
{
    if n == 0 || n > node.children.len() {
        seq![]
    } else {
        routes_below(node, (n - 1) as nat) + routes_in(node.children[n - 1])
    }
}

/// The routes of a script's nodes, in order.
pub open spec fn routes_of(nodes: Seq<syntax::SyntaxView>) -> Seq<RouteView>
    decreases nodes.len(),
{
    if nodes.len() == 0 {
        seq![]
    } else {
        routes_of(nodes.drop_last()) + routes_in(nodes.last())
    }
}

/// The text of the first identifier among the nodes.
fn find_ident(nodes: &Vec<SyntaxNode>) -> (ident: Option<String>)
    ensures
        text::option_view(ident) == first_ident(syntax::node_views(nodes@)),
{
    let ghost views = syntax::node_views(nodes@);
    let mut i: usize = 0;
    proof {
        assert(views.skip(0) =~= views);
    }
    while i < nodes.len()
        invariant
            i <= nodes@.len(),
            views == syntax::node_views(nodes@),
            first_ident(views.skip(i as int)) == first_ident(views),
        decreases nodes@.len() - i,
    {
        proof {
            assert(views.skip(i as int)[0] == nodes@[i as int]@);
            assert(views.skip(i as int).drop_first() =~= views.skip(i + 1));
        }
        if nodes[i].kind == SyntaxKind::Ident {
            return nodes[i].token.clone();
        }
        i += 1;
    }
    None
}

/// The contents of the string literals among the nodes, in order.
fn find_strings(nodes: &Vec<SyntaxNode>) -> (strings: Vec<String>)
    ensures
        text::string_views(strings@) == string_literals(syntax::node_views(nodes@)),
{
    let ghost views = syntax::node_views(nodes@);
    let mut strings: Vec<String> = Vec::new();
    let mut i: usize = 0;
    proof {
        assert(views.take(0) =~= Seq::<syntax::SyntaxView>::empty());
        assert(text::string_views(strings@) =~= Seq::<Seq<char>>::empty());
    }
    while i < nodes.len()
        invariant
            i <= nodes@.len(),
            views == syntax::node_views(nodes@),
            text::string_views(strings@) == string_literals(views.take(i as int)),
        decreases nodes@.len() - i,
    {
        let ghost before = strings@;
        proof {
            assert(views.take(i + 1).last() == nodes@[i as int]@);
            assert(views.take(i + 1).drop_last() =~= views.take(i as int));
        }
        if let Some(content) = extract_string_literal(&nodes[i]) {
            strings.push(content);
            proof {
                assert(text::string_views(strings@) =~= text::string_views(before).push(content@));
            }
        }
        i += 1;
    }
    proof {
        assert(views.take(nodes@.len() as int) =~= views);
    }
    strings
}

/// The content of a node that is a string literal.
pub fn extract_string_literal(node: &SyntaxNode) -> (content: Option<String>)
    ensures
        text::option_view(content) == (if node@.kind == SyntaxKind::Literal {
            node@.literal
        } else {
            None
        }),
{
    if node.kind == SyntaxKind::Literal {
        node.literal.clone()
    } else {
        None
    }
}

/// The name of the first call below `node`.
pub fn find_first_call_name(node: &SyntaxNode) -> (name: Option<String>)
    ensures
        text::option_view(name) == first_call(node@),
    decreases node,
{
    let mut i: usize = 0;
    proof {
        syntax::lemma_children(*node);
    }
    while i < node.children.len()
        invariant
            i <= node.children@.len(),
            node@.children == syntax::node_views(node.children@),
            first_call(node@) == first_call_from(node@, i as nat),
        decreases node.children@.len() - i,
    {
        let child = &node.children[i];
        assert(node@.children[i as int] == child@);
        if child.kind == SyntaxKind::Call {
            return child.token.clone();
        }
        if let Some(name) = find_first_call_name(child) {
            return Some(name);
        }
        i += 1;
    }
    None
}

/// The name of the function that the first anonymous function among the nodes calls.
fn find_handler(nodes: &Vec<SyntaxNode>) -> (handler: Option<String>)
    ensures
        text::option_view(handler) == handler_name(syntax::node_views(nodes@)),
{
    let ghost views = syntax::node_views(nodes@);
    let mut i: usize = 0;
    proof {
        assert(views.skip(0) =~= views);
    }
    while i < nodes.len()
        invariant
            i <= nodes@.len(),
            views == syntax::node_views(nodes@),
            handler_name(views.skip(i as int)) == handler_name(views),
        decreases nodes@.len() - i,
    {
        proof {
            assert(views.skip(i as int)[0] == nodes@[i as int]@);
            assert(views.skip(i as int).drop_first() =~= views.skip(i + 1));
        }
        if nodes[i].kind == SyntaxKind::Fn {
            return find_first_call_name(&nodes[i]);
        }
        i += 1;
    }
    None
}

/// The method that a shorthand such as `get_route` stands for.
fn find_shorthand(func: &str) -> (method: Option<String>)
    ensures
        text::option_view(method) == shorthand_method(func@),
{
    if *func == *"get_route" {
        Some("GET".to_owned())
    } else if *func == *"post_route" {
        Some("POST".to_owned())
    } else if *func == *"put_route" {
        Some("PUT".to_owned())
    } else if *func == *"patch_route" {
        Some("PATCH".to_owned())
    } else if *func == *"delete_route" {
        Some("DELETE".to_owned())
    } else {
        None
    }
}

/// The route that the node itself declares, if it declares one.
fn find_own_route(node: &SyntaxNode) -> (route: Option<(String, String, Option<String>)>)
    ensures
        match route {
            Some(r) => own_route(node@) == Some(route_view(r)),
            None => own_route(node@) is None,
        },
{
    proof {
        syntax::lemma_children(*node);
    }
    let in_http = match &node.token {
        Some(token) => *token.as_str() == *"http",
        None => false,
    };
    if node.kind != SyntaxKind::QualifiedAccess || !in_http {
        return None;
    }
    let func = match find_ident(&node.children) {
        Some(func) => func,
        None => return None,
    };
    let strings = find_strings(&node.children);
    let handler = find_handler(&node.children);
    assert(forall|j: int|
        0 <= j < strings@.len() ==> text::string_views(strings@)[j] == (#[trigger] strings@[j])@);
    match find_shorthand(func.as_str()) {
        Some(method) => {
            if strings.len() >= 1 {
                Some((method, strings[0].clone(), handler))
            } else {
                None
            }
        },
        None => {
            if *func.as_str() == *"route" && strings.len() >= 2 {
                Some((strings[0].clone(), strings[1].clone(), handler))
            } else {
                None
            }
        },
    }
}

/// Append the routes of a node and of all that is below it.
pub fn collect_routes(node: &SyntaxNode, routes: &mut Vec<(String, String, Option<String>)>)
    ensures
        route_views(final(routes)@) == route_views(old(routes)@) + routes_in(node@),
    decreases node,
{
    let ghost start = route_views(routes@);
    let ghost own = match own_route(node@) {
        Some(route) => seq![route],
        None => seq![],
    };
    proof {
        syntax::lemma_children(*node);
    }
    if let Some(route) = find_own_route(node) {
        routes.push(route);
    }
    proof {
        assert(route_views(routes@) =~= start + own);
        assert(routes_below(node@, 0) =~= Seq::<RouteView>::empty());
        assert(route_views(routes@) =~= start + own + routes_below(node@, 0));
    }
    let mut i: usize = 0;
    while i < node.children.len()
        invariant
            i <= node.children@.len(),
            node@.children == syntax::node_views(node.children@),
            route_views(routes@) == start + own + routes_below(node@, i as nat),
        decreases node.children@.len() - i,
    {
        assert(node@.children[i as int] == node.children@[i as int]@);
        collect_routes(&node.children[i], routes);
        proof {
            assert(route_views(routes@) =~= start + own + routes_below(node@, (i + 1) as nat));
        }
        i += 1;
    }
    proof {
        assert(route_views(routes@) =~= start + routes_in(node@));
    }
}

/// The routes of a script's syntax nodes, in order.
pub fn routes_of_nodes(nodes: &Vec<SyntaxNode>) -> (routes: Vec<(String, String, Option<String>)>)
    ensures
        route_views(routes@) == routes_of(syntax::node_views(nodes@)),
{
    let ghost views = syntax::node_views(nodes@);
    let mut routes: Vec<(String, String, Option<String>)> = Vec::new();
    let mut i: usize = 0;
    proof {
        assert(views.take(0) =~= Seq::<syntax::SyntaxView>::empty());
        assert(route_views(routes@) =~= Seq::<RouteView>::empty());
    }
    while i < nodes.len()
        invariant
            i <= nodes@.len(),
            views == syntax::node_views(nodes@),
            route_views(routes@) == routes_of(views.take(i as int)),
        decreases nodes@.len() - i,
    {
        collect_routes(&nodes[i], &mut routes);
        proof {
            assert(views.take(i + 1).last() == nodes@[i as int]@);
            assert(views.take(i + 1).drop_last() =~= views.take(i as int));
        }
        i += 1;
    }
    proof {
        assert(views.take(nodes@.len() as int) =~= views);
    }
    routes
}

/// Extract the routes from a script.
///
/// Handles:
/// - `http::get_route(r, "/path", fn(r): handler(r);)`
/// - `http::route(r, "GET", "/path", fn(r): handler(r);)`
pub fn extract_routes(content: &str) -> (routes: Vec<(String, String, Option<String>)>)
    ensures
        route_views(routes@) == routes_of(syntax::parsed_forest(syntax::closed(piped(content@)))),
{
    let preprocessed = inject_pipe_after_top_level_end(content);
    let nodes = parse_nodes(preprocessed.as_str());
    routes_of_nodes(&nodes)
}

/// A line that holds nothing but `end` is kept, and a pipe follows it exactly where it is not in a
/// string and closes a block around which nothing is open.
pub proof fn law_pipe_after_outermost_end(before: Seq<Seq<char>>, line: Seq<char>)
    requires
        text::trimmed(line, Trim::White) == "end"@,
    ensures
        pipe_lines(before.push(line)).out == pipe_lines(before).out + line + "\n"@ + (
        if pipe_lines(before).place.reading == nesting::Reading::Code && nesting::without_block(
            pipe_lines(before).place.open,
        ) == Some(Seq::<nesting::Open>::empty()) {
            "|\n"@
        } else {
            seq![]
        }),
{
    let state = pipe_lines(before);
    assert(before.push(line).drop_last() =~= before);
    if before.len() > 0 {
        nesting::law_line_begins(pipe_lines(before.drop_last()).place, before.last());
    }
    if state.place.reading == nesting::Reading::Code {
        nesting::law_end_closes_innermost(state.place, line);
    } else {
        nesting::law_end_in_string_closes_nothing(state.place, line);
    }
    match nesting::without_block(state.place.open) {
        Some(around) => {
            if around.len() == 0 {
                assert(around =~= Seq::<nesting::Open>::empty());
            }
        },
        None => {},
    }
    assert(state.out + line + "\n"@ + seq![] =~= state.out + line + "\n"@);
}

/// The lines, each with its end, and those that are marked with a pipe below them.
pub open spec fn with_pipes(lines: Seq<Seq<char>>, marked: Seq<bool>) -> Seq<char>
    decreases lines.len(),
{
    if lines.len() == 0 {
        seq![]
    } else {
        with_pipes(lines.drop_last(), marked.drop_last()) + lines.last() + "\n"@ + (
        if marked.last() {
            "|\n"@
        } else {
            seq![]
        })
    }
}

/// Which lines a pipe follows.
pub open spec fn pipe_marks(lines: Seq<Seq<char>>) -> Seq<bool> {
    Seq::new(
        lines.len(),
        |i: int| is_top_level_end(pipe_lines(lines.take(i)).place, lines[i]),
    )
}

/// The lines of a script are kept in their order and as they stand, and nothing but pipes is put
/// between them: each below a line that holds nothing but `end`, in front of which something is
/// open, and behind which nothing is.
pub proof fn law_only_pipes_are_added(lines: Seq<Seq<char>>)
    ensures
        pipe_lines(lines).out == with_pipes(lines, pipe_marks(lines)),
        forall|i: int|
            0 <= i < lines.len() && #[trigger] pipe_marks(lines)[i] ==> text::trimmed(
                lines[i],
                Trim::White,
            ) == "end"@,
    decreases lines.len(),
{
    if lines.len() > 0 {
        let before = lines.drop_last();
        law_only_pipes_are_added(before);
        let marks = pipe_marks(lines);
        assert(lines.take(lines.len() - 1) =~= before);
        assert(marks.drop_last() =~= pipe_marks(before)) by {
            assert forall|i: int| 0 <= i < before.len() implies marks[i] == pipe_marks(
                before,
            )[i] by {
                assert(before.take(i) =~= lines.take(i));
            }
        }
        assert(pipe_lines(lines).out =~= with_pipes(lines, marks));
    }
}

/// A script in which no block is open at any `end` only has its line ends evened out.
pub proof fn law_no_block_no_pipe(lines: Seq<Seq<char>>)
    requires
        forall|i: int|
            0 <= i < lines.len() && text::trimmed(#[trigger] lines[i], Trim::White) == "end"@
                ==> nesting::without_block(pipe_lines(lines.take(i)).place.open) is None,
    ensures
        pipe_lines(lines).out == ended(lines),
    decreases lines.len(),
{
    if lines.len() > 0 {
        let before = lines.drop_last();
        assert forall|i: int|
            0 <= i < before.len() && text::trimmed(#[trigger] before[i], Trim::White)
                == "end"@ implies nesting::without_block(
            pipe_lines(before.take(i)).place.open,
        ) is None by {
            assert(before[i] == lines[i]);
            assert(before.take(i) =~= lines.take(i));
        }
        law_no_block_no_pipe(before);
        assert(lines.last() == lines[lines.len() - 1]);
        assert(lines.take(lines.len() - 1) =~= before);
        if text::trimmed(lines.last(), Trim::White) == "end"@ {
            law_pipe_after_outermost_end(before, lines.last());
            assert(before.push(lines.last()) =~= lines);
            assert(ended(before) + lines.last() + "\n"@ + seq![] =~= ended(lines));
        }
    }
}

/// The lines, each with its end.
pub open spec fn ended(lines: Seq<Seq<char>>) -> Seq<char>
    decreases lines.len(),
{
    if lines.len() == 0 {
        seq![]
    } else {
        ended(lines.drop_last()) + lines.last() + "\n"@
    }
}

/// The routes of two lists of nodes are those of the one and then those of the other.
pub proof fn law_routes_follow_nodes(a: Seq<syntax::SyntaxView>, b: Seq<syntax::SyntaxView>)
    ensures
        routes_of(a + b) == routes_of(a) + routes_of(b),
    decreases b.len(),
{
    if b.len() == 0 {
        assert(a + b =~= a);
        assert(routes_of(a) + routes_of(b) =~= routes_of(a));
    } else {
        law_routes_follow_nodes(a, b.drop_last());
        assert((a + b).drop_last() =~= a + b.drop_last());
        assert((a + b).last() == b.last());
        assert(routes_of(a + b) =~= routes_of(a) + routes_of(b));
    }
}

/// What a triple of method, path and handler holds is what its parts hold, and a list of them
/// holds what they do, one by one.
pub proof fn law_route_views(list: Seq<(String, String, Option<String>)>, i: int)
    ensures
        route_views(list).len() == list.len(),
        0 <= i < list.len() ==> route_views(list)[i].method == list[i].0@,
        0 <= i < list.len() ==> route_views(list)[i].path == list[i].1@,
        0 <= i < list.len() ==> match list[i].2 {
            Some(handler) => route_views(list)[i].handler == Some(handler@),
            None => route_views(list)[i].handler is None,
        },
{
}

/// Whether a child is the first identifier of its node.
pub open spec fn is_first_ident(node: syntax::SyntaxView, i: int) -> bool {
    &&& 0 <= i < node.children.len()
    &&& node.children[i].kind == SyntaxKind::Ident
    &&& forall|j: int| 0 <= j < i ==> (#[trigger] node.children[j]).kind != SyntaxKind::Ident
}

/// Whether a child is a string literal.
pub open spec fn is_string(node: syntax::SyntaxView, i: int) -> bool {
    &&& 0 <= i < node.children.len()
    &&& node.children[i].kind == SyntaxKind::Literal
    &&& node.children[i].literal is Some
}

/// Whether a child is the first string literal of its node.
pub open spec fn is_first_string(node: syntax::SyntaxView, i: int) -> bool {
    is_string(node, i) && forall|j: int| 0 <= j < i ==> !#[trigger] is_string(node, j)
}

/// Whether a child is the second string literal of its node, where `i` is the first.
pub open spec fn is_second_string(node: syntax::SyntaxView, i: int, k: int) -> bool {
    is_string(node, k) && i < k && forall|j: int| i < j < k ==> !#[trigger] is_string(node, j)
}

/// Whether a child is the first anonymous function of its node.
pub open spec fn is_first_fn(node: syntax::SyntaxView, i: int) -> bool {
    &&& 0 <= i < node.children.len()
    &&& node.children[i].kind == SyntaxKind::Fn
    &&& forall|j: int| 0 <= j < i ==> (#[trigger] node.children[j]).kind != SyntaxKind::Fn
}

proof fn lemma_first_ident(nodes: Seq<syntax::SyntaxView>, i: int)
    requires
        0 <= i < nodes.len(),
        nodes[i].kind == SyntaxKind::Ident,
        forall|j: int| 0 <= j < i ==> (#[trigger] nodes[j]).kind != SyntaxKind::Ident,
    ensures
        first_ident(nodes) == nodes[i].token,
    decreases nodes.len(),
{
    if i > 0 {
        let rest = nodes.drop_first();
        assert(nodes[0].kind != SyntaxKind::Ident);
        assert(rest[i - 1] == nodes[i]);
        assert forall|j: int| 0 <= j < i - 1 implies (#[trigger] rest[j]).kind
            != SyntaxKind::Ident by {
            assert(rest[j] == nodes[j + 1]);
        }
        lemma_first_ident(rest, i - 1);
    }
}

proof fn lemma_handler(nodes: Seq<syntax::SyntaxView>, i: int)
    ensures
        0 <= i < nodes.len() && nodes[i].kind == SyntaxKind::Fn && (forall|j: int|
            0 <= j < i ==> (#[trigger] nodes[j]).kind != SyntaxKind::Fn) ==> handler_name(nodes)
            == first_call(nodes[i]),
        (forall|j: int| 0 <= j < nodes.len() ==> (#[trigger] nodes[j]).kind != SyntaxKind::Fn)
            ==> handler_name(nodes) is None,
    decreases nodes.len(),
{
    if nodes.len() > 0 {
        let rest = nodes.drop_first();
        lemma_handler(rest, i - 1);
        assert(forall|j: int| 0 <= j < rest.len() ==> (#[trigger] rest[j]) == nodes[j + 1]);
        if 0 < i < nodes.len() {
            assert(rest[i - 1] == nodes[i]);
        }
    }
}

/// The string literals among the first children.
proof fn lemma_strings(node: syntax::SyntaxView, n: int, i: int, k: int)
    requires
        0 <= n <= node.children.len(),
    ensures
        (forall|j: int| 0 <= j < n ==> !#[trigger] is_string(node, j)) ==> string_literals(
            node.children.take(n),
        ).len() == 0,
        is_first_string(node, i) && i < n ==> string_literals(node.children.take(n)).len() > 0
            && string_literals(node.children.take(n))[0] == node.children[i].literal->0,
        is_first_string(node, i) && (forall|j: int| i < j < n ==> !#[trigger] is_string(node, j))
            ==> string_literals(node.children.take(n)).len() <= 1,
        is_first_string(node, i) && is_second_string(node, i, k) && k < n ==> string_literals(
            node.children.take(n),
        ).len() > 1 && string_literals(node.children.take(n))[1] == node.children[k].literal->0,
    decreases n,
{
    if n > 0 {
        let nodes = node.children.take(n);
        lemma_strings(node, n - 1, i, k);
        assert(nodes.drop_last() =~= node.children.take(n - 1));
        assert(nodes.last() == node.children[n - 1]);
        assert(is_string(node, n - 1) == (nodes.last().kind == SyntaxKind::Literal
            && nodes.last().literal is Some));
        if is_first_string(node, i) && i < n {
            if i == n - 1 {
                assert(string_literals(nodes.drop_last()).len() == 0);
            }
            if is_second_string(node, i, k) && k == n - 1 {
                assert(string_literals(nodes.drop_last()).len() == 1);
            }
        }
    }
}

/// A call of a shorthand such as `http::get_route` with a path declares a route of that method:
/// its path is the first string, and its handler the function that its first anonymous function
/// calls first. Without a path it declares none.
pub proof fn law_shorthand_declares_route(
    node: syntax::SyntaxView,
    ident: int,
    path: int,
    func: Seq<char>,
    method: Seq<char>,
)
    requires
        node.kind == SyntaxKind::QualifiedAccess,
        node.token == Some("http"@),
        is_first_ident(node, ident),
        node.children[ident].token == Some(func),
        (func == "get_route"@ && method == "GET"@) || (func == "post_route"@ && method == "POST"@)
            || (func == "put_route"@ && method == "PUT"@) || (func == "patch_route"@ && method
            == "PATCH"@) || (func == "delete_route"@ && method == "DELETE"@),
    ensures
        is_first_string(node, path) ==> (own_route(node) matches Some(route) && route.method
            == method && route.path == node.children[path].literal->0 && route.handler
            == handler_name(node.children)),
        (forall|j: int| 0 <= j < node.children.len() ==> !#[trigger] is_string(node, j))
            ==> own_route(node) is None,
{
    lemma_first_ident(node.children, ident);
    assert(node.children.take(node.children.len() as int) =~= node.children);
    lemma_strings(node, node.children.len() as int, path, path);
    reveal_strlit("get_route");
    reveal_strlit("post_route");
    reveal_strlit("put_route");
    reveal_strlit("patch_route");
    reveal_strlit("delete_route");
    assert("get_route"@.len() == 9 && "put_route"@.len() == 9 && "post_route"@.len() == 10
        && "patch_route"@.len() == 11 && "delete_route"@.len() == 12);
    assert("get_route"@[0] == 'g' && "put_route"@[0] == 'p');
}

/// A call of `http::route` with a method and a path declares a route of them: the method is the
/// first string, and the path the second. With fewer strings it declares none.
pub proof fn law_route_declares_route(
    node: syntax::SyntaxView,
    ident: int,
    method: int,
    path: int,
)
    requires
        node.kind == SyntaxKind::QualifiedAccess,
        node.token == Some("http"@),
        is_first_ident(node, ident),
        node.children[ident].token == Some("route"@),
        is_first_string(node, method),
    ensures
        is_second_string(node, method, path) ==> (own_route(node) matches Some(route)
            && route.method == node.children[method].literal->0 && route.path
            == node.children[path].literal->0 && route.handler == handler_name(node.children)),
        (forall|j: int| method < j < node.children.len() ==> !#[trigger] is_string(node, j))
            ==> own_route(node) is None,
{
    lemma_first_ident(node.children, ident);
    assert(node.children.take(node.children.len() as int) =~= node.children);
    lemma_strings(node, node.children.len() as int, method, path);
    reveal_strlit("get_route");
    reveal_strlit("post_route");
    reveal_strlit("put_route");
    reveal_strlit("patch_route");
    reveal_strlit("delete_route");
    reveal_strlit("route");
    assert("route"@.len() == 5);
    assert("get_route"@.len() == 9 && "put_route"@.len() == 9 && "post_route"@.len() == 10
        && "patch_route"@.len() == 11 && "delete_route"@.len() == 12);
}

/// What is no call into `http` declares no route, nor does a call of another of its functions.
pub proof fn law_other_calls_declare_none(node: syntax::SyntaxView, ident: int)
    ensures
        node.kind != SyntaxKind::QualifiedAccess ==> own_route(node) is None,
        node.token != Some("http"@) ==> own_route(node) is None,
        is_first_ident(node, ident) && node.children[ident].token != Some("get_route"@)
            && node.children[ident].token != Some("post_route"@) && node.children[ident].token
            != Some("put_route"@) && node.children[ident].token != Some("patch_route"@)
            && node.children[ident].token != Some("delete_route"@) && node.children[ident].token
            != Some("route"@) ==> own_route(node) is None,
{
    if is_first_ident(node, ident) {
        lemma_first_ident(node.children, ident);
    }
}

/// The handler of a route is what the first anonymous function calls: of its children the first
/// that is a call or has one below it counts, and the call itself goes before those below it. A
/// function that is not there has no handler.
pub proof fn law_handler_is_first_call(node: syntax::SyntaxView, func: int, i: int)
    ensures
        is_first_fn(node, func) ==> handler_name(node.children) == first_call(node.children[func]),
        (forall|j: int|
            0 <= j < node.children.len() ==> (#[trigger] node.children[j]).kind != SyntaxKind::Fn)
            ==> handler_name(node.children) is None,
        0 <= i < node.children.len() && (forall|j: int|
            0 <= j < i ==> (#[trigger] node.children[j]).kind != SyntaxKind::Call && first_call(
                node.children[j],
            ) is None) && node.children[i].kind == SyntaxKind::Call ==> first_call(node)
            == node.children[i].token,
        0 <= i < node.children.len() && (forall|j: int|
            0 <= j < i ==> (#[trigger] node.children[j]).kind != SyntaxKind::Call && first_call(
                node.children[j],
            ) is None) && node.children[i].kind != SyntaxKind::Call && first_call(
            node.children[i],
        ) is Some ==> first_call(node) == first_call(node.children[i]),
        (forall|j: int|
            0 <= j < node.children.len() ==> (#[trigger] node.children[j]).kind != SyntaxKind::Call
                && first_call(node.children[j]) is None) ==> first_call(node) is None,
{
    lemma_handler(node.children, func);
    if 0 <= i <= node.children.len() && (forall|j: int|
        0 <= j < i ==> (#[trigger] node.children[j]).kind != SyntaxKind::Call && first_call(
            node.children[j],
        ) is None) {
        lemma_first_call_from(node, i as nat);
    }
    if forall|j: int|
        0 <= j < node.children.len() ==> (#[trigger] node.children[j]).kind != SyntaxKind::Call
            && first_call(node.children[j]) is None {
        lemma_first_call_from(node, node.children.len());
    }
}

proof fn lemma_first_call_from(node: syntax::SyntaxView, i: nat)
    requires
        i <= node.children.len(),
        forall|j: int|
            0 <= j < i ==> (#[trigger] node.children[j]).kind != SyntaxKind::Call && first_call(
                node.children[j],
            ) is None,
    ensures
        first_call(node) == first_call_from(node, i),
    decreases i,
{
    if i > 0 {
        lemma_first_call_from(node, (i - 1) as nat);
        assert(node.children[i - 1].kind != SyntaxKind::Call);
    }
}

/// The routes of a node are the one that it declares itself, if it declares one, and behind it
/// those of its children in their order, all of them and no others.
pub proof fn law_routes_of_node(node: syntax::SyntaxView)
    ensures
        routes_in(node) == (match own_route(node) {
            Some(route) => seq![route],
            None => seq![],
        }) + routes_of(node.children),
{
    lemma_routes_below(node, node.children.len());
    assert(node.children.take(node.children.len() as int) =~= node.children);
}

proof fn lemma_routes_below(node: syntax::SyntaxView, n: nat)
    requires
        n <= node.children.len(),
    ensures
        routes_below(node, n) == routes_of(node.children.take(n as int)),
    decreases n,
{
    let nodes = node.children.take(n as int);
    if n > 0 {
        lemma_routes_below(node, (n - 1) as nat);
        assert(nodes.drop_last() =~= node.children.take(n - 1));
        assert(nodes.last() == node.children[n - 1]);
    }
}

/// The routes of one node are those that it has.
pub proof fn law_routes_of_one_node(node: syntax::SyntaxView)
    ensures
        routes_of(seq![node]) == routes_in(node),
        routes_of(seq![]).len() == 0,
{
    assert(seq![node].drop_last() =~= seq![]);
    assert(routes_of(seq![node].drop_last()) =~= seq![]);
    assert(routes_of(seq![node]) =~= routes_in(node));
}

} // verus!
