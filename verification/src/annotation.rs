//! Comment annotations: the `# @...` lines written above a script's `def`s.
//!
//! ```mq
//! # @summary Short description
//! # @description Longer explanation (multiple lines allowed)
//! # @tag tagName
//! # @param name in type required description
//! # @response 200 application/json "Success"
//! # @response 404 "Not found"
//! def handle_something(r):
//!   ...
//! end
//! ```
//!
//! `in` is `query`, `path`, `header` or `cookie`; `type` is `string`, `integer`, `number`,
//! `boolean`, `array` or `object`.

use vstd::hash_map::StringHashMap;
use vstd::prelude::*;
use vstd::slice::slice_subrange;

use crate::text;
use crate::text::{
    begins_with, chars_of, contains, find, is_text, lines, rest_after, split, text_of, trim, Trim,
};

verus! {

/// One `@param` line.
#[derive(Debug)]
pub struct ParamInfo {
    pub name: String,
    pub location: String,
    pub schema_type: String,
    pub required: bool,
    pub description: String,
}

/// One `@response` line.
#[derive(Debug)]
pub struct ResponseInfo {
    pub status: String,
    pub description: String,
    pub content_type: Option<String>,
}

/// What the annotation lines above one function say.
#[derive(Debug)]
pub struct FuncAnnotation {
    pub summary: Option<String>,
    pub description: Vec<String>,
    pub tags: Vec<String>,
    pub params: Vec<ParamInfo>,
    pub responses: Vec<ResponseInfo>,
}

/// The model of a [`ParamInfo`].
pub ghost struct ParamView {
    pub name: Seq<char>,
    pub location: Seq<char>,
    pub schema_type: Seq<char>,
    pub required: bool,
    pub description: Seq<char>,
}

/// The model of a [`ResponseInfo`].
pub ghost struct ResponseView {
    pub status: Seq<char>,
    pub description: Seq<char>,
    pub content_type: Option<Seq<char>>,
}

/// The model of a [`FuncAnnotation`].
#[verifier::ext_equal]
pub ghost struct AnnotationView {
    pub summary: Option<Seq<char>>,
    pub description: Seq<Seq<char>>,
    pub tags: Seq<Seq<char>>,
    pub params: Seq<ParamView>,
    pub responses: Seq<ResponseView>,
}

impl View for ParamInfo {
    type V = ParamView;

    open spec fn view(&self) -> ParamView {
        ParamView {
            name: self.name@,
            location: self.location@,
            schema_type: self.schema_type@,
            required: self.required,
            description: self.description@,
        }
    }
}

impl View for ResponseInfo {
    type V = ResponseView;

    open spec fn view(&self) -> ResponseView {
        ResponseView {
            status: self.status@,
            description: self.description@,
            content_type: text::option_view(self.content_type),
        }
    }
}

/// What a list of parameters holds.
pub open spec fn param_views(list: Seq<ParamInfo>) -> Seq<ParamView> {
    list.map_values(|p: ParamInfo| p@)
}

/// What a list of responses holds.
pub open spec fn response_views(list: Seq<ResponseInfo>) -> Seq<ResponseView> {
    list.map_values(|r: ResponseInfo| r@)
}

impl View for FuncAnnotation {
    type V = AnnotationView;

    open spec fn view(&self) -> AnnotationView {
        AnnotationView {
            summary: text::option_view(self.summary),
            description: text::string_views(self.description@),
            tags: text::string_views(self.tags@),
            params: param_views(self.params@),
            responses: response_views(self.responses@),
        }
    }
}

impl Clone for ParamInfo {
    fn clone(&self) -> (copy: Self)
        ensures
            copy@ == self@,
    {
        ParamInfo {
            name: self.name.clone(),
            location: self.location.clone(),
            schema_type: self.schema_type.clone(),
            required: self.required,
            description: self.description.clone(),
        }
    }
}

impl Clone for ResponseInfo {
    fn clone(&self) -> (copy: Self)
        ensures
            copy@ == self@,
    {
        ResponseInfo {
            status: self.status.clone(),
            description: self.description.clone(),
            content_type: self.content_type.clone(),
        }
    }
}

impl Clone for FuncAnnotation {
    fn clone(&self) -> (copy: Self)
        ensures
            copy@ == self@,
    {
        let copy = FuncAnnotation {
            summary: self.summary.clone(),
            description: self.description.clone(),
            tags: self.tags.clone(),
            params: self.params.clone(),
            responses: self.responses.clone(),
        };
        proof {
            assert(text::string_views(copy.description@) =~= text::string_views(self.description@));
            assert(text::string_views(copy.tags@) =~= text::string_views(self.tags@));
            assert(param_views(copy.params@) =~= param_views(self.params@));
            assert(response_views(copy.responses@) =~= response_views(self.responses@));
        }
        copy
    }
}

/// The annotation that says nothing.
pub open spec fn no_annotation() -> AnnotationView {
    AnnotationView {
        summary: None,
        description: seq![],
        tags: seq![],
        params: seq![],
        responses: seq![],
    }
}

impl Default for FuncAnnotation {
    fn default() -> (blank: Self)
        ensures
            blank@ == no_annotation(),
    {
        let blank = FuncAnnotation {
            summary: None,
            description: Vec::new(),
            tags: Vec::new(),
            params: Vec::new(),
            responses: Vec::new(),
        };
        proof {
            assert(blank@ =~= no_annotation());
        }
        blank
    }
}

/// The word of an annotation line: what stands before its first space.
pub open spec fn line_word(line: Seq<char>) -> Seq<char> {
    line.take(text::first_at(line, ' ') as int)
}

/// What an annotation line says about its word: what follows the first space, trimmed.
pub open spec fn line_rest(line: Seq<char>) -> Seq<char> {
    let n = text::first_at(line, ' ') as int;
    if n < line.len() {
        text::trimmed(line.skip(n + 1), Trim::White)
    } else {
        seq![]
    }
}

/// The `i`-th of `parts`, or `default` where there are not so many.
pub open spec fn part_or(parts: Seq<Seq<char>>, i: int, default: Seq<char>) -> Seq<char> {
    if i < parts.len() {
        parts[i]
    } else {
        default
    }
}

/// `<name> <in> <type> <required> <description>`: the fields are separated by single spaces,
/// the description may hold more of them and may stand in double quotes.
pub open spec fn param_of(rest: Seq<char>) -> ParamView {
    let parts = text::split_at_most(rest, ' ', 5);
    ParamView {
        name: part_or(parts, 0, ""@),
        location: part_or(parts, 1, "query"@),
        schema_type: part_or(parts, 2, "string"@),
        required: part_or(parts, 3, "false"@) == "true"@,
        description: text::trimmed(part_or(parts, 4, ""@), Trim::Quotes),
    }
}

/// `<status> [content-type] ["description"]`.
pub open spec fn response_of(rest: Seq<char>) -> ResponseView {
    let parts = text::split_at_most(rest, ' ', 2);
    let status = part_or(parts, 0, "200"@);
    let remainder = text::trimmed(part_or(parts, 1, ""@), Trim::White);
    let space = text::first_at(remainder, ' ') as int;
    if remainder.len() == 0 {
        ResponseView { status, description: seq![], content_type: None }
    } else if remainder[0] == '"' {
        ResponseView {
            status,
            description: text::trimmed(remainder, Trim::Quotes),
            content_type: None,
        }
    } else if space < remainder.len() {
        ResponseView {
            status,
            description: text::trimmed(
                text::trimmed(remainder.skip(space + 1), Trim::White),
                Trim::Quotes,
            ),
            content_type: Some(remainder.take(space)),
        }
    } else if text::has_part(remainder, "/"@) {
        ResponseView { status, description: seq![], content_type: Some(remainder) }
    } else {
        ResponseView { status, description: remainder, content_type: None }
    }
}

/// What an annotation says with one more line. A line with an unknown word adds nothing.
pub open spec fn with_line(ann: AnnotationView, line: Seq<char>) -> AnnotationView {
    let word = line_word(line);
    let rest = line_rest(line);
    if word == "summary"@ {
        AnnotationView { summary: Some(rest), ..ann }
    } else if word == "description"@ {
        AnnotationView { description: ann.description.push(rest), ..ann }
    } else if word == "tag"@ {
        AnnotationView { tags: ann.tags.push(rest), ..ann }
    } else if word == "param"@ {
        AnnotationView { params: ann.params.push(param_of(rest)), ..ann }
    } else if word == "response"@ {
        AnnotationView { responses: ann.responses.push(response_of(rest)), ..ann }
    } else {
        ann
    }
}

/// What the annotation lines say together, one after another.
pub open spec fn annotation_of(lines: Seq<Seq<char>>) -> AnnotationView
    decreases lines.len(),
{
    if lines.len() == 0 {
        no_annotation()
    } else {
        with_line(annotation_of(lines.drop_last()), lines.last())
    }
}

fn part_text(parts: &Vec<&[char]>, i: usize, default: &str) -> (text: String)
    ensures
        text@ == part_or(text::slice_views(parts@), i as int, default@),
{
    if i < parts.len() {
        text_of(parts[i])
    } else {
        default.to_owned()
    }
}

fn parse_param(rest: &[char]) -> (param: ParamInfo)
    ensures
        param@ == param_of(rest@),
{
    let parts = split(rest, ' ', 5);
    let required = part_text(&parts, 3, "false");
    let description = chars_of(part_text(&parts, 4, "").as_str());
    ParamInfo {
        name: part_text(&parts, 0, ""),
        location: part_text(&parts, 1, "query"),
        schema_type: part_text(&parts, 2, "string"),
        required: *required.as_str() == *"true",
        description: text_of(trim(description.as_slice(), Trim::Quotes)),
    }
}

fn parse_response(rest: &[char]) -> (response: ResponseInfo)
    ensures
        response@ == response_of(rest@),
{
    let parts = split(rest, ' ', 2);
    let status = part_text(&parts, 0, "200");
    let tail = chars_of(part_text(&parts, 1, "").as_str());
    let remainder = trim(tail.as_slice(), Trim::White);
    if remainder.len() == 0 {
        return ResponseInfo { status, description: String::new(), content_type: None };
    }
    if remainder[0] == '"' {
        // @response 404 "Not found"
        let description = text_of(trim(remainder, Trim::Quotes));
        return ResponseInfo { status, description, content_type: None };
    }
    let space = find(remainder, ' ');
    if space < remainder.len() {
        // @response 200 application/json "Description"
        let content_type = slice_subrange(remainder, 0, space);
        assert(content_type@ =~= remainder@.take(space as int));
        let description = trim(rest_after(remainder, space + 1), Trim::White);
        ResponseInfo {
            status,
            description: text_of(trim(description, Trim::Quotes)),
            content_type: Some(text_of(content_type)),
        }
    } else if contains(remainder, "/") {
        // @response 200 application/json
        ResponseInfo {
            status,
            description: String::new(),
            content_type: Some(text_of(remainder)),
        }
    } else {
        ResponseInfo { status, description: text_of(remainder), content_type: None }
    }
}

/// Read a block of annotation lines, each without its leading `# @`.
pub fn build_annotation(lines: &Vec<String>) -> (annotation: FuncAnnotation)
    ensures
        annotation@ == annotation_of(text::string_views(lines@)),
{
    let ghost all = text::string_views(lines@);
    let mut ann = FuncAnnotation::default();
    let mut i: usize = 0;
    proof {
        assert(all.take(0) =~= Seq::<Seq<char>>::empty());
    }
    while i < lines.len()
        invariant
            i <= lines@.len(),
            all == text::string_views(lines@),
            ann@ == annotation_of(all.take(i as int)),
        decreases lines@.len() - i,
    {
        let line = chars_of(lines[i].as_str());
        let n = find(line.as_slice(), ' ');
        let word = slice_subrange(line.as_slice(), 0, n);
        let rest = if n < line.len() {
            trim(rest_after(line.as_slice(), n + 1), Trim::White)
        } else {
            slice_subrange(line.as_slice(), n, n)
        };
        let ghost before = ann@;
        proof {
            assert(word@ =~= line_word(line@));
            assert(rest@ =~= line_rest(line@));
            assert(all.take(i + 1).drop_last() =~= all.take(i as int));
            assert(all.take(i + 1).last() == line@);
        }
        if is_text(word, "summary") {
            ann.summary = Some(text_of(rest));
        } else if is_text(word, "description") {
            ann.description.push(text_of(rest));
        } else if is_text(word, "tag") {
            ann.tags.push(text_of(rest));
        } else if is_text(word, "param") {
            ann.params.push(parse_param(rest));
        } else if is_text(word, "response") {
            ann.responses.push(parse_response(rest));
        }
        proof {
            assert(ann@ =~= with_line(before, line@));
        }
        i += 1;
    }
    proof {
        assert(all.take(lines@.len() as int) =~= all);
    }
    ann
}

/// A reading position in a script: the annotation lines that wait for their `def`, and what has
/// been found above the `def`s so far.
pub ghost struct Scan {
    pub pending: Seq<Seq<char>>,
    pub found: Map<Seq<char>, AnnotationView>,
}

/// The name that a `def` declares, given what follows `def `: all before the first parenthesis
/// or space.
pub open spec fn def_name(rest: Seq<char>) -> Seq<char> {
    let paren = text::first_at(rest, '(') as int;
    let space = text::first_at(rest, ' ') as int;
    text::trimmed(rest.take(if paren < space { paren } else { space }), Trim::White)
}

/// What one more line does. `# @` lines wait, plain comments are passed over, a `def` takes the
/// waiting lines if there are any, and every other line, a blank one too, drops them.
pub open spec fn scan_line(scan: Scan, line: Seq<char>) -> Scan {
    let code = text::trimmed(line, Trim::White);
    if "# @"@.is_prefix_of(code) {
        Scan { pending: scan.pending.push(code.skip(3)), found: scan.found }
    } else if "# "@.is_prefix_of(code) || code == "#"@ {
        scan
    } else if "def "@.is_prefix_of(code) {
        let name = def_name(code.skip(4));
        Scan {
            pending: seq![],
            found: if name.len() > 0 && scan.pending.len() > 0 {
                scan.found.insert(name, annotation_of(scan.pending))
            } else {
                scan.found
            },
        }
    } else {
        Scan { pending: seq![], found: scan.found }
    }
}

/// Where reading `lines` from the start leads.
pub open spec fn scan_lines(lines: Seq<Seq<char>>) -> Scan
    decreases lines.len(),
{
    if lines.len() == 0 {
        Scan { pending: seq![], found: Map::empty() }
    } else {
        scan_line(scan_lines(lines.drop_last()), lines.last())
    }
}

/// The annotations of a script's functions, by function name.
pub open spec fn annotations_of(script: Seq<char>) -> Map<Seq<char>, AnnotationView> {
    scan_lines(text::lines_of(script)).found
}

/// What a table of annotations holds.
pub open spec fn table_view(table: Map<Seq<char>, FuncAnnotation>) -> Map<
    Seq<char>,
    AnnotationView,
> {
    table.map_values(|a: FuncAnnotation| a@)
}

/// The name that a `def` declares, given what follows `def `.
fn parse_def_name(rest: &[char]) -> (name: String)
    ensures
        name@ == def_name(rest@),
{
    let paren = find(rest, '(');
    let space = find(rest, ' ');
    let end: usize = if paren < space {
        paren
    } else {
        space
    };
    let head = slice_subrange(rest, 0, end);
    assert(head@ =~= rest@.take(end as int));
    text_of(trim(head, Trim::White))
}

/// Collect the annotation blocks that stand immediately before `def name(...)` lines.
pub fn parse_func_annotations(content: &str) -> (table: StringHashMap<FuncAnnotation>)
    ensures
        table_view(table@) == annotations_of(content@),
{
    let script = chars_of(content);
    let list = lines(script.as_slice());
    let ghost all = text::lines_of(content@);
    let mut table: StringHashMap<FuncAnnotation> = StringHashMap::new();
    let mut pending: Vec<String> = Vec::new();
    let mut i: usize = 0;
    proof {
        reveal_strlit("# @");
        reveal_strlit("def ");
        assert(all.take(0) =~= Seq::<Seq<char>>::empty());
        assert(table_view(table@) =~= Map::<Seq<char>, AnnotationView>::empty());
        assert(text::string_views(pending@) =~= Seq::<Seq<char>>::empty());
    }
    while i < list.len()
        invariant
            i <= list@.len(),
            all == text::slice_views(list@),
            "# @"@.len() == 3,
            "def "@.len() == 4,
            text::string_views(pending@) == scan_lines(all.take(i as int)).pending,
            table_view(table@) == scan_lines(all.take(i as int)).found,
        decreases list@.len() - i,
    {
        let code = trim(list[i], Trim::White);
        let ghost before = scan_lines(all.take(i as int));
        let ghost old_pending = pending@;
        let ghost old_table = table@;
        proof {
            assert(all.take(i + 1).drop_last() =~= all.take(i as int));
            assert(all.take(i + 1).last() == list@[i as int]@);
        }
        if begins_with(code, "# @") {
            pending.push(text_of(rest_after(code, 3)));
            proof {
                assert(text::string_views(pending@) =~= before.pending.push(code@.skip(3)));
            }
        } else if begins_with(code, "# ") || is_text(code, "#") {
            // A plain comment keeps what has accumulated.
        } else if begins_with(code, "def ") {
            let name = parse_def_name(rest_after(code, 4));
            let named = !name.as_str().is_empty();
            if named && pending.len() > 0 {
                let annotation = build_annotation(&pending);
                table.insert(name, annotation);
                proof {
                    assert(table_view(table@) =~= table_view(old_table).insert(
                        name@,
                        annotation@,
                    ));
                }
            }
            pending.clear();
            proof {
                assert(text::string_views(pending@) =~= Seq::<Seq<char>>::empty());
            }
        } else {
            // Anything else, a blank line too: annotations must be contiguous.
            pending.clear();
            proof {
                assert(text::string_views(pending@) =~= Seq::<Seq<char>>::empty());
            }
        }
        i += 1;
    }
    proof {
        assert(all.take(list@.len() as int) =~= all);
    }
    table
}

/// A blank line parts an annotation block from the `def` below it: the `def` gets nothing.
pub proof fn law_blank_line_separates(before: Seq<Seq<char>>, blank: Seq<char>, def: Seq<char>)
    requires
        text::trimmed(blank, Trim::White).len() == 0,
        "def "@.is_prefix_of(text::trimmed(def, Trim::White)),
    ensures
        scan_lines(before.push(blank).push(def)).found == scan_lines(before).found,
        scan_lines(before.push(blank).push(def)).pending.len() == 0,
{
    reveal_strlit("# @");
    reveal_strlit("# ");
    reveal_strlit("#");
    reveal_strlit("def ");
    let parted = before.push(blank);
    assert(parted.drop_last() =~= before);
    assert(parted.push(def).drop_last() =~= parted);
    assert("# @"@.len() == 3 && "# "@.len() == 2 && "#"@.len() == 1 && "def "@.len() == 4);
    assert(scan_lines(parted) == scan_line(scan_lines(before), blank));
    assert(scan_lines(parted).pending.len() == 0);
    assert(text::trimmed(def, Trim::White)[0] == "def "@[0]);
    assert("# @"@[0] == '#' && "# "@[0] == '#' && "#"@[0] == '#');
}

/// Whether a line is an annotation line.
pub open spec fn is_annotation_line(line: Seq<char>) -> bool {
    "# @"@.is_prefix_of(text::trimmed(line, Trim::White))
}

/// What an annotation line says, without its mark.
pub open spec fn said_by(line: Seq<char>) -> Seq<char> {
    text::trimmed(line, Trim::White).skip(3)
}

/// Annotation lines wait in their order.
proof fn lemma_block_waits(before: Seq<Seq<char>>, block: Seq<Seq<char>>)
    requires
        scan_lines(before).pending.len() == 0,
        forall|i: int| 0 <= i < block.len() ==> is_annotation_line(#[trigger] block[i]),
    ensures
        scan_lines(before + block).pending == block.map_values(|l: Seq<char>| said_by(l)),
        scan_lines(before + block).found == scan_lines(before).found,
    decreases block.len(),
{
    if block.len() == 0 {
        assert(before + block =~= before);
        assert(block.map_values(|l: Seq<char>| said_by(l)) =~= scan_lines(before).pending);
    } else {
        let rest = block.drop_last();
        assert forall|i: int| 0 <= i < rest.len() implies is_annotation_line(
            #[trigger] rest[i],
        ) by {
            assert(rest[i] == block[i]);
        }
        lemma_block_waits(before, rest);
        assert((before + block).drop_last() =~= before + rest);
        assert((before + block).last() == block.last());
        assert(is_annotation_line(block[block.len() - 1]));
        assert(block.map_values(|l: Seq<char>| said_by(l)) =~= rest.map_values(
            |l: Seq<char>| said_by(l),
        ).push(said_by(block.last())));
    }
}

/// A block of annotation lines immediately above a `def` is the annotation of the function that
/// the `def` declares, and of no other.
pub proof fn law_block_belongs_to_def(
    before: Seq<Seq<char>>,
    block: Seq<Seq<char>>,
    def: Seq<char>,
    name: Seq<char>,
)
    requires
        scan_lines(before).pending.len() == 0,
        block.len() > 0,
        forall|i: int| 0 <= i < block.len() ==> is_annotation_line(#[trigger] block[i]),
        "def "@.is_prefix_of(text::trimmed(def, Trim::White)),
        name == def_name(text::trimmed(def, Trim::White).skip(4)),
        name.len() > 0,
    ensures
        scan_lines((before + block).push(def)).found == scan_lines(before).found.insert(
            name,
            annotation_of(block.map_values(|l: Seq<char>| said_by(l))),
        ),
{
    reveal_strlit("# @");
    reveal_strlit("# ");
    reveal_strlit("#");
    reveal_strlit("def ");
    lemma_block_waits(before, block);
    assert((before + block).push(def).drop_last() =~= before + block);
    let code = text::trimmed(def, Trim::White);
    assert(code[0] == "def "@[0]);
    assert("# @"@[0] == '#' && "# "@[0] == '#' && "#"@[0] == '#');
}

/// A plain comment between the lines of a block changes nothing.
pub proof fn law_plain_comment_is_passed_over(scan: Scan, line: Seq<char>)
    requires
        !is_annotation_line(line),
        "# "@.is_prefix_of(text::trimmed(line, Trim::White)) || text::trimmed(line, Trim::White)
            == "#"@,
    ensures
        scan_line(scan, line) == scan,
{
}

/// Whether a line is a comment: a plain one, or an annotation line.
pub open spec fn is_comment(line: Seq<char>) -> bool {
    let code = text::trimmed(line, Trim::White);
    "# "@.is_prefix_of(code) || code == "#"@
}

/// Whether a line declares a function of this name.
pub open spec fn is_def_of(line: Seq<char>, name: Seq<char>) -> bool {
    let code = text::trimmed(line, Trim::White);
    "def "@.is_prefix_of(code) && def_name(code.skip(4)) == name
}

/// The longest run of comments at the end of some lines.
pub open spec fn last_comments(lines: Seq<Seq<char>>) -> Seq<Seq<char>>
    decreases lines.len(),
{
    if lines.len() > 0 && is_comment(lines.last()) {
        last_comments(lines.drop_last()).push(lines.last())
    } else {
        seq![]
    }
}

/// What the annotation lines among some lines say, in their order.
pub open spec fn all_said(lines: Seq<Seq<char>>) -> Seq<Seq<char>>
    decreases lines.len(),
{
    if lines.len() == 0 {
        seq![]
    } else if is_annotation_line(lines.last()) {
        all_said(lines.drop_last()).push(said_by(lines.last()))
    } else {
        all_said(lines.drop_last())
    }
}

/// What the comments directly above a line annotate it with.
pub open spec fn said_above(lines: Seq<Seq<char>>, i: int) -> Seq<Seq<char>> {
    all_said(last_comments(lines.take(i)))
}

/// Whether a line declares a function of this name and is annotated.
pub open spec fn is_annotated_def(lines: Seq<Seq<char>>, i: int, name: Seq<char>) -> bool {
    &&& 0 <= i < lines.len()
    &&& is_def_of(lines[i], name)
    &&& name.len() > 0
    &&& said_above(lines, i).len() > 0
}

/// Whether a line is the last that declares a function of this name and is annotated.
pub open spec fn is_last_annotated_def(lines: Seq<Seq<char>>, i: int, name: Seq<char>) -> bool {
    &&& is_annotated_def(lines, i, name)
    &&& forall|j: int| i < j < lines.len() ==> !#[trigger] is_annotated_def(lines, j, name)
}

/// An annotation line is a comment, and a comment is no `def`.
proof fn lemma_line_kinds(line: Seq<char>)
    ensures
        is_annotation_line(line) ==> is_comment(line),
        is_comment(line) ==> !"def "@.is_prefix_of(text::trimmed(line, Trim::White)),
{
    reveal_strlit("# @");
    reveal_strlit("# ");
    reveal_strlit("#");
    reveal_strlit("def ");
    let code = text::trimmed(line, Trim::White);
    if is_annotation_line(line) {
        assert(code.take(2) =~= "# @"@.take(2));
        assert("# @"@.take(2) =~= "# "@);
    }
    if is_comment(line) && "def "@.is_prefix_of(code) {
        assert(code[0] == "def "@[0]);
        assert("# "@[0] == '#' && "#"@[0] == '#');
    }
}

/// What waits at the end of some lines is what the comments there say.
proof fn lemma_pending(lines: Seq<Seq<char>>)
    ensures
        scan_lines(lines).pending == all_said(last_comments(lines)),
    decreases lines.len(),
{
    if lines.len() > 0 {
        let line = lines.last();
        lemma_pending(lines.drop_last());
        lemma_line_kinds(line);
        let run = last_comments(lines);
        if is_comment(line) {
            assert(run.drop_last() =~= last_comments(lines.drop_last()));
            assert(run.last() == line);
        }
    }
}

/// An annotated `def` stays one with a line more at the end.
proof fn lemma_annotated_before(lines: Seq<Seq<char>>, i: int, name: Seq<char>)
    requires
        lines.len() > 0,
        i < lines.len() - 1,
    ensures
        is_annotated_def(lines, i, name) == is_annotated_def(lines.drop_last(), i, name),
        0 <= i ==> said_above(lines, i) == said_above(lines.drop_last(), i),
{
    if 0 <= i {
        assert(lines.take(i) =~= lines.drop_last().take(i));
    }
}

/// In some lines, a function has an annotation if and only if a `def` of its name is annotated,
/// and the last such `def` counts.
proof fn lemma_last_annotated_def(lines: Seq<Seq<char>>, name: Seq<char>)
    ensures
        scan_lines(lines).found.contains_key(name) <==> exists|i: int| #[trigger]
            is_annotated_def(lines, i, name),
        forall|i: int| #[trigger]
            is_last_annotated_def(lines, i, name) ==> scan_lines(lines).found[name]
                == annotation_of(said_above(lines, i)),
    decreases lines.len(),
{
    if lines.len() > 0 {
        let before = lines.drop_last();
        let n = lines.len() - 1;
        let line = lines.last();
        lemma_last_annotated_def(before, name);
        lemma_pending(before);
        lemma_line_kinds(line);
        assert(lines.take(n) =~= before);
        assert(line == lines[n]);
        assert forall|i: int| i < n implies #[trigger] is_annotated_def(lines, i, name)
            == is_annotated_def(before, i, name) by {
            lemma_annotated_before(lines, i, name);
        }
        if is_annotated_def(lines, n, name) {
            assert(scan_lines(lines).found.contains_key(name));
        } else {
            assert(scan_lines(lines).found.contains_key(name) == scan_lines(
                before,
            ).found.contains_key(name));
            if exists|i: int| is_annotated_def(before, i, name) {
                let i = choose|i: int| is_annotated_def(before, i, name);
                assert(is_annotated_def(lines, i, name));
            }
            if exists|i: int| is_annotated_def(lines, i, name) {
                let i = choose|i: int| is_annotated_def(lines, i, name);
                assert(is_annotated_def(before, i, name));
            }
        }
        assert forall|i: int| #[trigger] is_last_annotated_def(lines, i, name) implies scan_lines(
            lines,
        ).found[name] == annotation_of(said_above(lines, i)) by {
            if i < n {
                lemma_annotated_before(lines, i, name);
                assert(!is_annotated_def(lines, n, name));
                assert forall|j: int| i < j < before.len() implies !#[trigger] is_annotated_def(
                    before,
                    j,
                    name,
                ) by {
                    assert(!is_annotated_def(lines, j, name));
                }
                assert(is_last_annotated_def(before, i, name));
            }
        }
    }
}

/// A function of a script has an annotation if and only if some `def` of its name is annotated:
/// an annotation line stands in the unbroken run of comments directly above it. The annotation is
/// what those lines say above the last such `def`, so a later `def` without annotations changes
/// nothing, and one with annotations replaces what was said before.
pub proof fn law_last_annotated_def_counts(script: Seq<char>, name: Seq<char>)
    ensures
        annotations_of(script).contains_key(name) <==> exists|i: int| #[trigger]
            is_annotated_def(text::lines_of(script), i, name),
        forall|i: int| #[trigger]
            is_last_annotated_def(text::lines_of(script), i, name) ==> annotations_of(script)[name]
                == annotation_of(said_above(text::lines_of(script), i)),
{
    lemma_last_annotated_def(text::lines_of(script), name);
}

/// Where reading `lines` from a position leads.
pub open spec fn scan_from(scan: Scan, lines: Seq<Seq<char>>) -> Scan
    decreases lines.len(),
{
    if lines.len() == 0 {
        scan
    } else {
        scan_line(scan_from(scan, lines.drop_last()), lines.last())
    }
}

/// Reading some lines and then others.
proof fn lemma_scan_both(scan: Scan, a: Seq<Seq<char>>, b: Seq<Seq<char>>)
    ensures
        scan_from(scan, a + b) == scan_from(scan_from(scan, a), b),
    decreases b.len(),
{
    if b.len() == 0 {
        assert(a + b =~= a);
    } else {
        assert((a + b).drop_last() =~= a + b.drop_last());
        assert((a + b).last() == b.last());
        lemma_scan_both(scan, a, b.drop_last());
    }
}

/// Reading from the start.
proof fn lemma_scan_from_start(lines: Seq<Seq<char>>)
    ensures
        scan_lines(lines) == scan_from(Scan { pending: seq![], found: Map::empty() }, lines),
    decreases lines.len(),
{
    if lines.len() > 0 {
        lemma_scan_from_start(lines.drop_last());
    }
}

/// Where nothing waits, what is found further on overrides what was found before.
proof fn lemma_scan_overrides(found: Map<Seq<char>, AnnotationView>, lines: Seq<Seq<char>>)
    ensures
        scan_from(Scan { pending: seq![], found }, lines).pending == scan_lines(lines).pending,
        scan_from(Scan { pending: seq![], found }, lines).found == found.union_prefer_right(
            scan_lines(lines).found,
        ),
    decreases lines.len(),
{
    let start = Scan { pending: seq![], found };
    if lines.len() == 0 {
        assert(found.union_prefer_right(Map::empty()) =~= found);
    } else {
        lemma_scan_overrides(found, lines.drop_last());
    }
    assert(scan_from(start, lines).found =~= found.union_prefer_right(scan_lines(lines).found));
}

/// Lines up to a line end, and those behind it.
proof fn lemma_lines_of_both(a: Seq<char>, b: Seq<char>)
    ensures
        text::lines_of(a + seq!['\n'] + b) == text::lines_of(a + seq!['\n']) + text::lines_of(b),
    decreases a.len(),
{
    let whole = a + seq!['\n'] + b;
    let first = a + seq!['\n'];
    assert(first[a.len() as int] == '\n');
    assert(whole[a.len() as int] == '\n');
    text::lemma_first_at(whole, '\n');
    text::lemma_first_at(first, '\n');
    let n = text::first_at(whole, '\n') as int;
    let m = text::first_at(first, '\n') as int;
    assert(n <= a.len());
    assert(m <= a.len());
    if n < m {
        assert(first[n] == whole[n]);
    }
    if m < n {
        assert(first[m] == whole[m]);
    }
    assert(n == m);
    let line = text::without_return(whole.take(n));
    assert(whole.take(n) =~= first.take(n));
    assert(text::lines_of(whole) == seq![line] + text::lines_of(whole.skip(n + 1)));
    assert(text::lines_of(first) == seq![line] + text::lines_of(first.skip(n + 1)));
    if n < a.len() {
        let rest = a.skip(n + 1);
        lemma_lines_of_both(rest, b);
        assert(whole.skip(n + 1) =~= rest + seq!['\n'] + b);
        assert(first.skip(n + 1) =~= rest + seq!['\n']);
    } else {
        assert(whole.skip(n + 1) =~= b);
        assert(first.skip(n + 1) =~= seq![]);
        assert(text::lines_of(first.skip(n + 1)) =~= seq![]);
    }
    assert(text::lines_of(whole) =~= text::lines_of(first) + text::lines_of(b));
}

/// A character of white space at the end is trimmed off.
proof fn lemma_trim_white_end(s: Seq<char>, c: char)
    requires
        text::is_white(c),
    ensures
        text::trimmed(s.push(c), Trim::White) == text::trimmed(s, Trim::White),
    decreases s.len(),
{
    let all = s.push(c);
    if s.len() == 0 {
        assert(all.drop_first() =~= s);
        assert(text::trimmed_start(all, Trim::White) == text::trimmed_start(s, Trim::White));
    } else if text::is_white(s.first()) {
        assert(all.drop_first() =~= s.drop_first().push(c));
        assert(all.first() == s.first());
        lemma_trim_white_end(s.drop_first(), c);
    } else {
        assert(all.first() == s.first());
        assert(all.drop_last() =~= s);
    }
}

/// A line is read as without a carriage return at its end.
proof fn lemma_return_is_white(line: Seq<char>)
    ensures
        text::trimmed(text::without_return(line), Trim::White) == text::trimmed(
            line,
            Trim::White,
        ),
{
    if line.len() > 0 && line.last() == '\r' {
        assert(line =~= line.drop_last().push('\r'));
        lemma_trim_white_end(line.drop_last(), '\r');
    }
}

/// A line end at the end of a script adds nothing to what is found.
proof fn lemma_ended_script(scan: Scan, script: Seq<char>)
    ensures
        scan_from(scan, text::lines_of(script + seq!['\n'])).found == scan_from(
            scan,
            text::lines_of(script),
        ).found,
    decreases script.len(),
{
    let whole = script + seq!['\n'];
    assert(whole[script.len() as int] == '\n');
    text::lemma_first_at(whole, '\n');
    text::lemma_first_at(script, '\n');
    let n = text::first_at(whole, '\n') as int;
    let head = whole.take(n);
    let line = seq![text::without_return(head)];
    lemma_return_is_white(head);
    assert(line.drop_last() =~= seq![]);
    assert(scan_from(scan, line.drop_last()) == scan);
    assert(scan_from(scan, line) == scan_line(scan, head));
    if n < script.len() {
        let rest = script.skip(n + 1);
        let m = text::first_at(script, '\n') as int;
        assert(whole[n] == script[n]);
        if m < n {
            assert(whole[m] == script[m]);
        }
        assert(m == n);
        assert(script.take(n) =~= head);
        assert(whole.skip(n + 1) =~= rest + seq!['\n']);
        lemma_ended_script(scan_from(scan, line), rest);
        lemma_scan_both(scan, line, text::lines_of(rest + seq!['\n']));
        lemma_scan_both(scan, line, text::lines_of(rest));
    } else {
        assert(head =~= script);
        assert(whole.skip(n + 1) =~= seq![]);
        assert(text::lines_of(whole.skip(n + 1)) =~= seq![]);
        assert(text::lines_of(whole) =~= line);
        if script.len() == 0 {
            reveal_strlit("# @");
            reveal_strlit("# ");
            reveal_strlit("#");
            reveal_strlit("def ");
            assert(text::trimmed(head, Trim::White) =~= seq![]);
            assert("# @"@.len() == 3 && "# "@.len() == 2 && "#"@.len() == 1 && "def "@.len() == 4);
        } else {
            assert(forall|i: int| 0 <= i < script.len() ==> script[i] == whole[i]);
            assert(text::first_at(script, '\n') >= script.len());
            assert(text::lines_of(script) =~= seq![script]);
            assert(seq![script].drop_last() =~= seq![]);
            assert(scan_from(scan, seq![script].drop_last()) == scan);
        }
    }
}

/// Two scripts that a blank line parts have the annotations of the first, overridden by those of
/// the second: nothing is carried over the blank line.
pub proof fn law_blank_line_splits(a: Seq<char>, b: Seq<char>)
    ensures
        annotations_of(a + "\n\n"@ + b) == annotations_of(a).union_prefer_right(
            annotations_of(b),
        ),
{
    let start = Scan { pending: seq![], found: Map::<Seq<char>, AnnotationView>::empty() };
    let lf = seq!['\n'];
    reveal_strlit("\n\n");
    assert("\n\n"@ =~= lf + lf);
    let first = text::lines_of(a + lf);
    let blank = text::lines_of(lf);
    let second = text::lines_of(b);
    assert(a + "\n\n"@ + b =~= a + lf + (lf + b));
    lemma_lines_of_both(a, lf + b);
    assert(seq![] + lf + b =~= lf + b);
    assert(seq![] + lf =~= lf);
    lemma_lines_of_both(seq![], b);
    let all = first + (blank + second);
    lemma_scan_from_start(all);
    lemma_scan_from_start(text::lines_of(a));
    lemma_scan_both(start, first, blank + second);
    let middle = scan_from(start, first);
    lemma_scan_both(middle, blank, second);
    lemma_ended_script(start, a);
    assert(scan_from(middle, blank).pending.len() == 0 && scan_from(middle, blank).found
        == middle.found) by {
        reveal_strlit("# @");
        reveal_strlit("# ");
        reveal_strlit("#");
        reveal_strlit("def ");
        text::lemma_first_at(lf, '\n');
        assert(lf[0] == '\n');
        assert(text::first_at(lf, '\n') == 0);
        assert(lf.skip(1) =~= seq![]);
        assert(lf.take(0) =~= seq![]);
        let line = text::without_return(lf.take(0));
        assert(line =~= seq![]);
        assert(text::lines_of(lf.skip(1)) =~= seq![]);
        assert(blank =~= seq![line]);
        assert(blank.drop_last() =~= seq![]);
        assert(scan_from(middle, blank.drop_last()) == middle);
        assert(text::trimmed(line, Trim::White) =~= seq![]);
        assert("# @"@.len() == 3 && "# "@.len() == 2 && "#"@.len() == 1 && "def "@.len() == 4);
    }
    assert(scan_from(middle, blank).pending =~= seq![]);
    lemma_scan_overrides(middle.found, second);
}

/// No two words of annotation lines are the same, and none has a space.
proof fn lemma_words()
    ensures
        !"summary"@.contains(' '),
        !"description"@.contains(' '),
        !"tag"@.contains(' '),
        !"param"@.contains(' '),
        !"response"@.contains(' '),
        "summary"@.len() == 7,
        "description"@.len() == 11,
        "tag"@.len() == 3,
        "param"@.len() == 5,
        "response"@.len() == 8,
{
    reveal_strlit("summary");
    reveal_strlit("description");
    reveal_strlit("tag");
    reveal_strlit("param");
    reveal_strlit("response");
    assert("summary"@ =~= seq!['s', 'u', 'm', 'm', 'a', 'r', 'y']);
    assert("description"@ =~= seq!['d', 'e', 's', 'c', 'r', 'i', 'p', 't', 'i', 'o', 'n']);
    assert("tag"@ =~= seq!['t', 'a', 'g']);
    assert("param"@ =~= seq!['p', 'a', 'r', 'a', 'm']);
    assert("response"@ =~= seq!['r', 'e', 's', 'p', 'o', 'n', 's', 'e']);
}

/// An annotation line: a word, a space, and what it says, perhaps with white space around it.
pub open spec fn written(
    word: Seq<char>,
    before: Seq<char>,
    said: Seq<char>,
    behind: Seq<char>,
) -> Seq<char> {
    word + seq![' '] + before + said + behind
}

/// A line is read as it was written.
proof fn lemma_written(word: Seq<char>, before: Seq<char>, said: Seq<char>, behind: Seq<char>)
    requires
        !word.contains(' '),
        text::is_all_taken(before, Trim::White),
        text::is_all_taken(behind, Trim::White),
        text::has_clean_ends(said, Trim::White),
    ensures
        line_word(written(word, before, said, behind)) == word,
        line_rest(written(word, before, said, behind)) == said,
{
    let tail = before + said + behind;
    assert(written(word, before, said, behind) =~= word + seq![' '] + tail);
    text::lemma_first_at_join(word, ' ', tail);
    text::law_trim(before, said, behind, Trim::White);
}

/// What an annotation says in front of its last line is kept, and of the five kinds of lines each
/// adds to its own part only.
pub proof fn law_line_adds_to_its_part(lines: Seq<Seq<char>>, line: Seq<char>)
    ensures
        annotation_of(seq![]).summary is None,
        annotation_of(seq![]).description.len() == 0,
        annotation_of(seq![]).tags.len() == 0,
        annotation_of(seq![]).params.len() == 0,
        annotation_of(seq![]).responses.len() == 0,
        !"summary"@.is_prefix_of(line) ==> annotation_of(lines.push(line)).summary
            == annotation_of(lines).summary,
        !"description"@.is_prefix_of(line) ==> annotation_of(lines.push(line)).description
            == annotation_of(lines).description,
        !"tag"@.is_prefix_of(line) ==> annotation_of(lines.push(line)).tags == annotation_of(
            lines,
        ).tags,
        !"param"@.is_prefix_of(line) ==> annotation_of(lines.push(line)).params == annotation_of(
            lines,
        ).params,
        !"response"@.is_prefix_of(line) ==> annotation_of(lines.push(line)).responses
            == annotation_of(lines).responses,
        line.len() > 0 && line.first() == ' ' ==> annotation_of(lines.push(line))
            == annotation_of(lines),
{
    lemma_words();
    assert(lines.push(line).drop_last() =~= lines);
    let word = line_word(line);
    text::lemma_first_at(line, ' ');
    if word == "summary"@ || word == "description"@ || word == "tag"@ || word == "param"@ || word
        == "response"@ {
        assert(word =~= line.subrange(0, word.len() as int));
    }
}

/// A line with a word that is none of the five adds nothing.
pub proof fn law_unknown_word_adds_nothing(
    lines: Seq<Seq<char>>,
    word: Seq<char>,
    said: Seq<char>,
)
    requires
        !word.contains(' '),
        word != "summary"@,
        word != "description"@,
        word != "tag"@,
        word != "param"@,
        word != "response"@,
    ensures
        annotation_of(lines.push(word + seq![' '] + said)) == annotation_of(lines),
        annotation_of(lines.push(word)) == annotation_of(lines),
{
    text::lemma_first_at_join(word, ' ', said);
    text::lemma_first_at_none(word, ' ');
    assert(lines.push(word + seq![' '] + said).drop_last() =~= lines);
    assert(lines.push(word).drop_last() =~= lines);
    assert(word.take(word.len() as int) =~= word);
}

/// A summary, a description or a tag is all that follows its word, with the spaces in it, and
/// without the white space around it. A summary replaces one before it; descriptions and tags
/// come one after another.
pub proof fn law_said_in_full(
    lines: Seq<Seq<char>>,
    before: Seq<char>,
    said: Seq<char>,
    behind: Seq<char>,
)
    requires
        text::is_all_taken(before, Trim::White),
        text::is_all_taken(behind, Trim::White),
        text::has_clean_ends(said, Trim::White),
    ensures
        annotation_of(lines.push(written("summary"@, before, said, behind))).summary == Some(said),
        annotation_of(lines.push(written("description"@, before, said, behind))).description
            == annotation_of(lines).description.push(said),
        annotation_of(lines.push(written("tag"@, before, said, behind))).tags == annotation_of(
            lines,
        ).tags.push(said),
{
    lemma_words();
    lemma_written("summary"@, before, said, behind);
    lemma_written("description"@, before, said, behind);
    lemma_written("tag"@, before, said, behind);
    assert(lines.push(written("summary"@, before, said, behind)).drop_last() =~= lines);
    assert(lines.push(written("description"@, before, said, behind)).drop_last() =~= lines);
    assert(lines.push(written("tag"@, before, said, behind)).drop_last() =~= lines);
}

/// Up to five texts, joined.
proof fn lemma_join_few(
    a: Seq<char>,
    b: Seq<char>,
    c: Seq<char>,
    d: Seq<char>,
    e: Seq<char>,
    sep: Seq<char>,
)
    ensures
        text::joined(seq![a], sep) == a,
        text::joined(seq![a, b], sep) == a + sep + b,
        text::joined(seq![a, b, c], sep) == a + sep + b + sep + c,
        text::joined(seq![a, b, c, d], sep) == a + sep + b + sep + c + sep + d,
        text::joined(seq![a, b, c, d, e], sep) == a + sep + b + sep + c + sep + d + sep + e,
{
    text::law_join(seq![a], b, sep);
    assert(seq![a].push(b) =~= seq![a, b]);
    text::law_join(seq![a, b], c, sep);
    assert(seq![a, b].push(c) =~= seq![a, b, c]);
    text::law_join(seq![a, b, c], d, sep);
    assert(seq![a, b, c].push(d) =~= seq![a, b, c, d]);
    text::law_join(seq![a, b, c, d], e, sep);
    assert(seq![a, b, c, d].push(e) =~= seq![a, b, c, d, e]);
}

/// Whether a text can be a field in the middle of a line: it is not empty and has no white space
/// at its ends and no space in it.
pub open spec fn is_field(field: Seq<char>) -> bool {
    field.len() > 0 && text::has_clean_ends(field, Trim::White) && !field.contains(' ')
}

/// A parameter line gives the name, the place, the type, whether the parameter is required, and
/// the description with all its words, without quotes around it. It is required where the fourth
/// field is `true`, and only then.
pub proof fn law_param_line(
    lines: Seq<Seq<char>>,
    name: Seq<char>,
    location: Seq<char>,
    schema_type: Seq<char>,
    required: Seq<char>,
    opening: Seq<char>,
    description: Seq<char>,
    closing: Seq<char>,
)
    requires
        is_field(name),
        is_field(location),
        is_field(schema_type),
        is_field(required),
        text::is_all_taken(opening, Trim::Quotes),
        text::is_all_taken(closing, Trim::Quotes),
        text::has_clean_ends(description, Trim::Quotes),
        (opening + description + closing).len() > 0,
        !text::is_white((opening + description + closing).last()),
    ensures
        ({
            let line = written(
                "param"@,
                seq![],
                name + seq![' '] + location + seq![' '] + schema_type + seq![' '] + required
                    + seq![' '] + (opening + description + closing),
                seq![],
            );
            let params = annotation_of(lines.push(line)).params;
            &&& params.len() == annotation_of(lines).params.len() + 1
            &&& params.drop_last() == annotation_of(lines).params
            &&& params.last().name == name
            &&& params.last().location == location
            &&& params.last().schema_type == schema_type
            &&& params.last().required <==> required == "true"@
            &&& params.last().description == description
        }),
{
    let quoted = opening + description + closing;
    let parts = seq![name, location, schema_type, required, quoted];
    let said = name + seq![' '] + location + seq![' '] + schema_type + seq![' '] + required
        + seq![' '] + quoted;
    let line = written("param"@, seq![], said, seq![]);
    lemma_words();
    lemma_join_few(name, location, schema_type, required, quoted, seq![' ']);
    text::law_limited_split_undoes_join(parts, ' ', 5);
    assert(said.first() == name.first());
    assert(said.last() == quoted.last());
    lemma_written("param"@, seq![], said, seq![]);
    text::law_trim(opening, description, closing, Trim::Quotes);
    assert(lines.push(line).drop_last() =~= lines);
    let params = annotation_of(lines.push(line)).params;
    assert(params == annotation_of(lines).params.push(param_of(said)));
    assert(params.drop_last() =~= annotation_of(lines).params);
}

/// A parameter line may end early: the parameter is then one of the query, a string, not required,
/// and without a description.
pub proof fn law_short_param_line(
    lines: Seq<Seq<char>>,
    name: Seq<char>,
    location: Seq<char>,
    schema_type: Seq<char>,
    required: Seq<char>,
)
    requires
        is_field(name),
        is_field(location),
        is_field(schema_type),
        is_field(required),
    ensures
        ({
            let one = written("param"@, seq![], name, seq![]);
            let two = written("param"@, seq![], name + seq![' '] + location, seq![]);
            let three = written(
                "param"@,
                seq![],
                name + seq![' '] + location + seq![' '] + schema_type,
                seq![],
            );
            let four = written(
                "param"@,
                seq![],
                name + seq![' '] + location + seq![' '] + schema_type + seq![' '] + required,
                seq![],
            );
            &&& annotation_of(lines.push(one)).params == annotation_of(lines).params.push(
                ParamView {
                    name,
                    location: "query"@,
                    schema_type: "string"@,
                    required: false,
                    description: seq![],
                },
            )
            &&& annotation_of(lines.push(two)).params == annotation_of(lines).params.push(
                ParamView {
                    name,
                    location,
                    schema_type: "string"@,
                    required: false,
                    description: seq![],
                },
            )
            &&& annotation_of(lines.push(three)).params == annotation_of(lines).params.push(
                ParamView { name, location, schema_type, required: false, description: seq![] },
            )
            &&& annotation_of(lines.push(four)).params == annotation_of(lines).params.push(
                ParamView {
                    name,
                    location,
                    schema_type,
                    required: required == "true"@,
                    description: seq![],
                },
            )
        }),
{
    let sp = seq![' '];
    lemma_words();
    reveal_strlit("true");
    reveal_strlit("false");
    reveal_strlit("");
    assert("true"@.len() == 4);
    assert("false"@.len() == 5);
    assert(""@ =~= seq![]);
    lemma_join_few(name, location, schema_type, required, seq![], sp);
    text::law_limited_split_undoes_join(seq![name], ' ', 5);
    text::law_limited_split_undoes_join(seq![name, location], ' ', 5);
    text::law_limited_split_undoes_join(seq![name, location, schema_type], ' ', 5);
    text::law_limited_split_undoes_join(seq![name, location, schema_type, required], ' ', 5);
    let two = name + sp + location;
    let three = two + sp + schema_type;
    let four = three + sp + required;
    assert(two.first() == name.first() && two.last() == location.last());
    assert(three.first() == name.first() && three.last() == schema_type.last());
    assert(four.first() == name.first() && four.last() == required.last());
    lemma_written("param"@, seq![], name, seq![]);
    lemma_written("param"@, seq![], two, seq![]);
    lemma_written("param"@, seq![], three, seq![]);
    lemma_written("param"@, seq![], four, seq![]);
    assert(lines.push(written("param"@, seq![], name, seq![])).drop_last() =~= lines);
    assert(lines.push(written("param"@, seq![], two, seq![])).drop_last() =~= lines);
    assert(lines.push(written("param"@, seq![], three, seq![])).drop_last() =~= lines);
    assert(lines.push(written("param"@, seq![], four, seq![])).drop_last() =~= lines);
    text::law_trim(seq![], seq![], seq![], Trim::Quotes);
    assert(Seq::<char>::empty() + Seq::<char>::empty() + Seq::<char>::empty() =~= seq![]);
}

/// What a response line gives: a status, a type and a description.
pub open spec fn adds_response(
    lines: Seq<Seq<char>>,
    said: Seq<char>,
    status: Seq<char>,
    content_type: Option<Seq<char>>,
    description: Seq<char>,
) -> bool {
    annotation_of(lines.push(written("response"@, seq![], said, seq![]))).responses
        == annotation_of(lines).responses.push(
        ResponseView { status, description, content_type },
    )
}

/// A response line gives a status. A text in quotes behind it is its description; a word behind it
/// is its type where more follows or the word has a slash, and its description otherwise.
pub proof fn law_response_line(
    lines: Seq<Seq<char>>,
    status: Seq<char>,
    word: Seq<char>,
    description: Seq<char>,
)
    requires
        is_field(status),
        is_field(word),
        word.first() != '"',
        text::has_clean_ends(description, Trim::Quotes),
    ensures
        adds_response(lines, status, status, None, seq![]),
        adds_response(
            lines,
            status + seq![' '] + (seq!['"'] + description + seq!['"']),
            status,
            None,
            description,
        ),
        adds_response(
            lines,
            status + seq![' '] + (word + seq![' '] + (seq!['"'] + description + seq!['"'])),
            status,
            Some(word),
            description,
        ),
        word.contains('/') ==> adds_response(
            lines,
            status + seq![' '] + word,
            status,
            Some(word),
            seq![],
        ),
        !word.contains('/') ==> adds_response(
            lines,
            status + seq![' '] + word,
            status,
            None,
            word,
        ),
{
    let sp = seq![' '];
    let quote = seq!['"'];
    let quoted = quote + description + quote;
    let both = word + sp + quoted;
    lemma_words();
    reveal_strlit("");
    reveal_strlit("/");
    assert(""@ =~= seq![]);
    assert("/"@ =~= seq!['/']);
    let none = Seq::<char>::empty();
    assert(none + none + none =~= none);
    text::law_trim(none, none, none, Trim::White);
    text::law_trim(quote, description, quote, Trim::Quotes);
    assert(quoted.first() == '"' && quoted.last() == '"');
    assert(none + quoted + none =~= quoted);
    assert(none + both + none =~= both);
    assert(none + word + none =~= word);
    assert(both.first() == word.first() && both.last() == '"');
    text::law_trim(none, quoted, none, Trim::White);
    text::law_trim(none, both, none, Trim::White);
    text::law_trim(none, word, none, Trim::White);
    text::lemma_first_at_join(word, ' ', quoted);
    text::lemma_first_at_none(word, ' ');
    // The status alone.
    lemma_join_few(status, quoted, none, none, none, sp);
    text::law_limited_split_undoes_join(seq![status], ' ', 2);
    lemma_written("response"@, seq![], status, seq![]);
    assert(lines.push(written("response"@, seq![], status, seq![])).drop_last() =~= lines);
    // A description in quotes.
    text::law_limited_split_undoes_join(seq![status, quoted], ' ', 2);
    let said = status + sp + quoted;
    assert(said.first() == status.first() && said.last() == '"');
    lemma_written("response"@, seq![], said, seq![]);
    assert(lines.push(written("response"@, seq![], said, seq![])).drop_last() =~= lines);
    // A type and a description.
    lemma_join_few(status, both, none, none, none, sp);
    text::law_limited_split_undoes_join(seq![status, both], ' ', 2);
    let said = status + sp + both;
    assert(said.first() == status.first() && said.last() == '"');
    lemma_written("response"@, seq![], said, seq![]);
    assert(lines.push(written("response"@, seq![], said, seq![])).drop_last() =~= lines);
    // A word alone.
    lemma_join_few(status, word, none, none, none, sp);
    text::law_limited_split_undoes_join(seq![status, word], ' ', 2);
    let said = status + sp + word;
    assert(said.first() == status.first() && said.last() == word.last());
    lemma_written("response"@, seq![], said, seq![]);
    assert(lines.push(written("response"@, seq![], said, seq![])).drop_last() =~= lines);
    assert(text::has_part(word, "/"@) == word.contains('/')) by {
        if word.contains('/') {
            let i = choose|i: int| 0 <= i < word.len() && word[i] == '/';
            assert(word.subrange(i, i + 1) =~= "/"@);
        }
        if text::has_part(word, "/"@) {
            let i = choose|i: int|
                0 <= i <= word.len() - 1 && #[trigger] word.subrange(i, i + 1) == "/"@;
            assert(word.subrange(i, i + 1)[0] == word[i]);
        }
    }
}

/// The name of a `def` is what stands before the parenthesis or the space behind it.
pub proof fn law_def_name(name: Seq<char>, rest: Seq<char>)
    requires
        is_field(name),
        !name.contains('('),
    ensures
        def_name(name + seq!['('] + rest) == name,
        def_name(name + seq![' '] + rest) == name,
        def_name(name) == name,
{
    let none = Seq::<char>::empty();
    assert(none + name + none =~= name);
    text::law_trim(none, name, none, Trim::White);
    text::lemma_first_at_none(name, '(');
    text::lemma_first_at_none(name, ' ');
    text::lemma_first_at_join(name, '(', rest);
    text::lemma_first_at_join(name, ' ', rest);
    assert(name.take(name.len() as int) =~= name);
    let called = name + seq!['('] + rest;
    text::lemma_first_at(called, ' ');
    if text::first_at(called, ' ') < name.len() {
        assert(name[text::first_at(called, ' ') as int] == ' ');
    }
    assert(text::first_at(called, ' ') != name.len()) by {
        assert(called[name.len() as int] == '(');
    }
    let spaced = name + seq![' '] + rest;
    text::lemma_first_at(spaced, '(');
    if text::first_at(spaced, '(') < name.len() {
        assert(name[text::first_at(spaced, '(') as int] == '(');
    }
}

/// What an annotation holds is what its parts hold.
pub proof fn law_annotation_view(ann: FuncAnnotation, i: int)
    ensures
        match ann.summary {
            Some(summary) => ann@.summary == Some(summary@),
            None => ann@.summary is None,
        },
        ann@.description.len() == ann.description@.len(),
        0 <= i < ann.description@.len() ==> ann@.description[i] == ann.description@[i]@,
        ann@.tags.len() == ann.tags@.len(),
        0 <= i < ann.tags@.len() ==> ann@.tags[i] == ann.tags@[i]@,
        ann@.params.len() == ann.params@.len(),
        0 <= i < ann.params@.len() ==> ann@.params[i].name == ann.params@[i].name@
            && ann@.params[i].location == ann.params@[i].location@ && ann@.params[i].schema_type
            == ann.params@[i].schema_type@ && ann@.params[i].required == ann.params@[i].required
            && ann@.params[i].description == ann.params@[i].description@,
        ann@.responses.len() == ann.responses@.len(),
        0 <= i < ann.responses@.len() ==> ann@.responses[i].status == ann.responses@[i].status@
            && ann@.responses[i].description == ann.responses@[i].description@ && match (
        ann.responses@[i].content_type) {
            Some(content_type) => ann@.responses[i].content_type == Some(content_type@),
            None => ann@.responses[i].content_type is None,
        },
{
}

/// What a table of annotations holds is what its entries hold, name by name.
pub proof fn law_table_view(table: Map<Seq<char>, FuncAnnotation>, name: Seq<char>)
    ensures
        table_view(table).contains_key(name) <==> table.contains_key(name),
        table.contains_key(name) ==> table_view(table)[name] == table[name]@,
{
}

/// A line with `# @`, white space in front of it or not, waits with all that it says behind the
/// mark, and finds nothing yet.
pub proof fn law_marked_line_waits(
    scan: Scan,
    before: Seq<char>,
    said: Seq<char>,
    behind: Seq<char>,
)
    requires
        text::is_all_taken(before, Trim::White),
        text::is_all_taken(behind, Trim::White),
        said.len() > 0,
        !text::is_white(said.last()),
    ensures
        scan_line(scan, before + ("# @"@ + said) + behind).pending == scan.pending.push(said),
        scan_line(scan, before + ("# @"@ + said) + behind).found == scan.found,
{
    reveal_strlit("# @");
    let code = "# @"@ + said;
    assert("# @"@.len() == 3 && "# @"@[0] == '#');
    assert(code.first() == '#' && code.last() == said.last());
    text::law_trim(before, code, behind, Trim::White);
    assert("# @"@ =~= code.subrange(0, 3));
    assert(code.skip(3) =~= said);
}

/// A `def`, white space in front of it or not, takes what waits for the function of its name, and
/// only for that; nothing waits behind it. Where nothing waits it finds nothing.
pub proof fn law_def_takes_what_waits(
    scan: Scan,
    before: Seq<char>,
    name: Seq<char>,
    rest: Seq<char>,
)
    requires
        text::is_all_taken(before, Trim::White),
        is_field(name),
        !name.contains('('),
        rest.len() > 0 ==> !text::is_white(rest.last()),
    ensures
        ({
            let line = before + ("def "@ + (name + seq!['('] + rest));
            &&& scan_line(scan, line).pending.len() == 0
            &&& scan.pending.len() == 0 ==> scan_line(scan, line).found == scan.found
            &&& scan.pending.len() > 0 ==> scan_line(scan, line).found == scan.found.insert(
                name,
                annotation_of(scan.pending),
            )
        }),
{
    reveal_strlit("# @");
    reveal_strlit("# ");
    reveal_strlit("#");
    reveal_strlit("def ");
    let declared = name + seq!['('] + rest;
    let code = "def "@ + declared;
    let none = Seq::<char>::empty();
    assert("def "@.len() == 4 && "def "@[0] == 'd');
    assert("# @"@[0] == '#' && "# "@[0] == '#' && "#"@[0] == '#');
    assert(declared.last() == if rest.len() > 0 { rest.last() } else { '(' });
    assert(code.first() == 'd' && code.last() == declared.last());
    assert(before + code + none =~= before + code);
    text::law_trim(before, code, none, Trim::White);
    assert("def "@ =~= code.subrange(0, 4));
    assert(code.skip(4) =~= declared);
    law_def_name(name, rest);
    assert(code[0] == 'd');
}

/// Any other line of code makes what waits be forgotten, and finds nothing.
pub proof fn law_other_line_drops_what_waits(scan: Scan, line: Seq<char>)
    requires
        text::has_clean_ends(line, Trim::White),
        line.len() > 0 ==> line.first() != '#',
        !"def "@.is_prefix_of(line),
    ensures
        scan_line(scan, line).pending.len() == 0,
        scan_line(scan, line).found == scan.found,
{
    reveal_strlit("# @");
    reveal_strlit("# ");
    reveal_strlit("#");
    assert("# @"@.len() == 3 && "# "@.len() == 2 && "#"@.len() == 1);
    assert("# @"@[0] == '#' && "# "@[0] == '#' && "#"@[0] == '#');
    let none = Seq::<char>::empty();
    assert(none + line + none =~= line);
    text::law_trim(none, line, none, Trim::White);
}

/// A word without anything behind it says an empty text.
pub proof fn law_word_alone(lines: Seq<Seq<char>>)
    ensures
        annotation_of(lines.push("summary"@)).summary == Some(Seq::<char>::empty()),
        annotation_of(lines.push("description"@)).description == annotation_of(
            lines,
        ).description.push(seq![]),
        annotation_of(lines.push("tag"@)).tags == annotation_of(lines).tags.push(seq![]),
{
    lemma_words();
    text::lemma_first_at_none("summary"@, ' ');
    text::lemma_first_at_none("description"@, ' ');
    text::lemma_first_at_none("tag"@, ' ');
    assert("summary"@.take(7) =~= "summary"@);
    assert("description"@.take(11) =~= "description"@);
    assert("tag"@.take(3) =~= "tag"@);
    assert(lines.push("summary"@).drop_last() =~= lines);
    assert(lines.push("description"@).drop_last() =~= lines);
    assert(lines.push("tag"@).drop_last() =~= lines);
}

} // verus!
