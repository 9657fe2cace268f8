//! OpenAPI 3.0 documents from mq scripts.
//!
//! Routes come from `http::get_route` / `http::post_route` etc. calls and are combined with the
//! comment annotations written above the `def` functions that handle them.

use vstd::hash_map::StringHashMap;
use vstd::prelude::*;

use crate::annotation;
use crate::annotation::{parse_func_annotations, FuncAnnotation, ParamInfo, ResponseInfo};
use crate::json;
use crate::json::{
    json_array, json_bool, json_object, json_string, map_insert, new_map, object_entry,
};
use crate::route;
use crate::route::extract_routes;
use crate::syntax;
use crate::text;
use crate::text::{join, lowercase};

verus! {

/// A route of a script with what its handler's annotation says.
#[derive(Debug)]
pub struct RouteEntry {
    pub method: String,
    pub path: String,
    pub annotation: FuncAnnotation,
}

/// The model of a [`RouteEntry`].
pub ghost struct EntryView {
    pub method: Seq<char>,
    pub path: Seq<char>,
    pub annotation: annotation::AnnotationView,
}

impl View for RouteEntry {
    type V = EntryView;

    open spec fn view(&self) -> EntryView {
        EntryView { method: self.method@, path: self.path@, annotation: self.annotation@ }
    }
}

/// What a list of route entries holds.
pub open spec fn entry_views(list: Seq<RouteEntry>) -> Seq<EntryView> {
    list.map_values(|e: RouteEntry| e@)
}

/// A route with the annotation of its handler, or the blank one where the route has no handler
/// or the handler no annotation.
pub open spec fn entry_of(
    route: route::RouteView,
    table: Map<Seq<char>, annotation::AnnotationView>,
) -> EntryView {
    EntryView {
        method: route.method,
        path: route.path,
        annotation: match route.handler {
            Some(handler) if table.contains_key(handler) => table[handler],
            _ => annotation::no_annotation(),
        },
    }
}

/// The routes in their order, each with the annotation of its handler.
pub open spec fn entries_of(
    routes: Seq<route::RouteView>,
    table: Map<Seq<char>, annotation::AnnotationView>,
) -> Seq<EntryView> {
    Seq::new(routes.len(), |i: int| entry_of(routes[i], table))
}

/// Give each route the annotation of its handler.
pub fn link_routes(
    routes: Vec<(String, String, Option<String>)>,
    table: &StringHashMap<FuncAnnotation>,
) -> (entries: Vec<RouteEntry>)
    ensures
        entry_views(entries@) == entries_of(
            route::route_views(routes@),
            annotation::table_view(table@),
        ),
{
    let ghost views = route::route_views(routes@);
    let ghost known = annotation::table_view(table@);
    let mut entries: Vec<RouteEntry> = Vec::new();
    let mut i: usize = 0;
    while i < routes.len()
        invariant
            i <= routes@.len(),
            views == route::route_views(routes@),
            known == annotation::table_view(table@),
            entries@.len() == i,
            forall|j: int| 0 <= j < i ==> #[trigger] entries@[j]@ == entry_of(views[j], known),
        decreases routes@.len() - i,
    {
        let found = match &routes[i].2 {
            Some(handler) => table.get(handler.as_str()),
            None => None,
        };
        let annotation = match found {
            Some(annotation) => annotation.clone(),
            None => FuncAnnotation::default(),
        };
        let entry = RouteEntry {
            method: routes[i].0.clone(),
            path: routes[i].1.clone(),
            annotation,
        };
        assert(entry@ == entry_of(views[i as int], known));
        entries.push(entry);
        i += 1;
    }
    proof {
        assert(entry_views(entries@) =~= entries_of(views, known));
    }
    entries
}

/// Parse a script and return its routes, enriched with the annotations of their handlers.
pub fn parse_script(content: &str) -> (entries: Vec<RouteEntry>)
    ensures
        entry_views(entries@) == entries_of(
            route::routes_of(syntax::parsed_forest(syntax::closed(route::piped(content@)))),
            annotation::annotations_of(content@),
        ),
{
    let table = parse_func_annotations(content);
    let routes = extract_routes(content);
    link_routes(routes, &table)
}

/// The JSON object of one parameter.
pub open spec fn param_json(param: annotation::ParamView) -> json::JsonView {
    json::JsonView::Object(
        seq![
            ("name"@, json::JsonView::Text(param.name)),
            ("in"@, json::JsonView::Text(param.location)),
            ("required"@, json::JsonView::Bool(param.required)),
            ("description"@, json::JsonView::Text(param.description)),
            ("schema"@, type_json(param.schema_type)),
        ],
    )
}

/// The JSON schema that only names a type.
pub open spec fn type_json(name: Seq<char>) -> json::JsonView {
    json::JsonView::Object(seq![("type"@, json::JsonView::Text(name))])
}

/// The JSON object of one response.
pub open spec fn response_json(response: annotation::ResponseView) -> json::JsonView {
    let description = ("description"@, json::JsonView::Text(response.description));
    json::JsonView::Object(
        match response.content_type {
            None => seq![description],
            Some(content_type) => seq![
                description,
                (
                    "content"@,
                    json::JsonView::Object(
                        seq![
                            (
                                content_type,
                                json::JsonView::Object(seq![("schema"@, type_json("object"@))]),
                            ),
                        ],
                    ),
                ),
            ],
        },
    )
}

/// The responses by status. Of two with one status the later counts.
pub open spec fn responses_put(list: Seq<annotation::ResponseView>) -> Seq<
    (Seq<char>, json::JsonView),
>
    decreases list.len(),
{
    if list.len() == 0 {
        seq![]
    } else {
        json::put(responses_put(list.drop_last()), list.last().status, response_json(list.last()))
    }
}

/// The JSON object of an operation's responses: those that are annotated, or a plain success.
pub open spec fn responses_json(list: Seq<annotation::ResponseView>) -> json::JsonView {
    json::JsonView::Object(
        if list.len() == 0 {
            seq![
                (
                    "200"@,
                    json::JsonView::Object(
                        seq![("description"@, json::JsonView::Text("Success"@))],
                    ),
                ),
            ]
        } else {
            responses_put(list)
        },
    )
}

/// A list of texts as a JSON array.
pub open spec fn texts_json(list: Seq<Seq<char>>) -> json::JsonView {
    json::JsonView::Array(list.map_values(|t: Seq<char>| json::JsonView::Text(t)))
}

/// The JSON object of an operation. What the annotation does not say is left out, but for the
/// responses.
pub open spec fn operation_json(ann: annotation::AnnotationView) -> json::JsonView {
    let summary = match ann.summary {
        Some(summary) => seq![("summary"@, json::JsonView::Text(summary))],
        None => seq![],
    };
    let description = if ann.description.len() > 0 {
        seq![("description"@, json::JsonView::Text(text::joined(ann.description, "\n"@)))]
    } else {
        seq![]
    };
    let tags = if ann.tags.len() > 0 {
        seq![("tags"@, texts_json(ann.tags))]
    } else {
        seq![]
    };
    let parameters = if ann.params.len() > 0 {
        seq![
            (
                "parameters"@,
                json::JsonView::Array(
                    ann.params.map_values(|p: annotation::ParamView| param_json(p)),
                ),
            ),
        ]
    } else {
        seq![]
    };
    let responses = seq![("responses"@, responses_json(ann.responses))];
    json::JsonView::Object(summary + description + tags + parameters + responses)
}

/// The operations by path and, below each path, by lower-case method. Of two routes with one path
/// and one method the later counts.
pub open spec fn paths_put(entries: Seq<EntryView>) -> Seq<(Seq<char>, json::JsonView)>
    decreases entries.len(),
{
    if entries.len() == 0 {
        seq![]
    } else {
        let before = paths_put(entries.drop_last());
        let entry = entries.last();
        let item = json::put(
            json::object_under(before, entry.path),
            text::lowercase_of(entry.method),
            operation_json(entry.annotation),
        );
        json::put(before, entry.path, json::JsonView::Object(item))
    }
}

/// The OpenAPI document of a list of routes.
pub open spec fn document_json(
    title: Seq<char>,
    version: Seq<char>,
    entries: Seq<EntryView>,
) -> json::JsonView {
    json::JsonView::Object(
        seq![
            ("openapi"@, json::JsonView::Text("3.0.3"@)),
            (
                "info"@,
                json::JsonView::Object(
                    seq![
                        ("title"@, json::JsonView::Text(title)),
                        ("version"@, json::JsonView::Text(version)),
                    ],
                ),
            ),
            ("paths"@, json::JsonView::Object(paths_put(entries))),
        ],
    )
}

/// Put a value under a key that is not there yet.
fn add(
    map: &mut serde_json::Map<String, serde_json::Value>,
    key: &str,
    value: serde_json::Value,
)
    requires
        json::lacks(json::map_view(*old(map)), key@),
    ensures
        json::map_view(*final(map)) == json::map_view(*old(map)).push(
            (key@, json::json_view(value)),
        ),
{
    proof {
        json::lemma_put_new(json::map_view(*map), key@, json::json_view(value));
    }
    map_insert(map, key.to_owned(), value);
}

/// An object with one entry.
fn single(key: &str, value: serde_json::Value) -> (object: serde_json::Value)
    ensures
        json::json_view(object) == json::JsonView::Object(seq![(key@, json::json_view(value))]),
{
    let mut map = new_map();
    self::add(&mut map, key, value);
    proof {
        assert(json::map_view(map) =~= seq![(key@, json::json_view(value))]);
    }
    json_object(map)
}

fn build_type(name: &str) -> (value: serde_json::Value)
    ensures
        json::json_view(value) == type_json(name@),
{
    single("type", json_string(name.to_owned()))
}

fn build_param(param: &ParamInfo) -> (value: serde_json::Value)
    ensures
        json::json_view(value) == param_json(param@),
{
    proof {
        reveal_strlit("name");
        assert("name"@.len() == 4);
        reveal_strlit("in");
        assert("in"@.len() == 2);
        reveal_strlit("required");
        assert("required"@.len() == 8);
        reveal_strlit("description");
        assert("description"@.len() == 11);
        reveal_strlit("schema");
        assert("schema"@.len() == 6);
    }
    let mut map = new_map();
    self::add(&mut map, "name", json_string(param.name.clone()));
    self::add(&mut map, "in", json_string(param.location.clone()));
    self::add(&mut map, "required", json_bool(param.required));
    self::add(&mut map, "description", json_string(param.description.clone()));
    self::add(&mut map, "schema", build_type(param.schema_type.as_str()));
    proof {
        assert(json::JsonView::Object(json::map_view(map)) == param_json(param@)) by {
            assert(json::map_view(map) =~= param_json(param@)->Object_0);
        }
    }
    json_object(map)
}

fn build_response(response: &ResponseInfo) -> (value: serde_json::Value)
    ensures
        json::json_view(value) == response_json(response@),
{
    proof {
        reveal_strlit("description");
        assert("description"@.len() == 11);
        reveal_strlit("content");
        assert("content"@.len() == 7);
    }
    let mut map = new_map();
    self::add(&mut map, "description", json_string(response.description.clone()));
    if let Some(content_type) = &response.content_type {
        let schema = single("schema", build_type("object"));
        self::add(&mut map, "content", single(content_type.as_str(), schema));
    }
    proof {
        assert(json::map_view(map) =~= response_json(response@)->Object_0);
    }
    json_object(map)
}

fn build_responses(list: &Vec<ResponseInfo>) -> (value: serde_json::Value)
    ensures
        json::json_view(value) == responses_json(annotation::response_views(list@)),
{
    let ghost views = annotation::response_views(list@);
    if list.len() == 0 {
        return single("200", single("description", json_string("Success".to_owned())));
    }
    let mut map = new_map();
    let mut i: usize = 0;
    proof {
        assert(views.take(0) =~= Seq::<annotation::ResponseView>::empty());
        assert(json::map_view(map) =~= responses_put(views.take(0)));
    }
    while i < list.len()
        invariant
            i <= list@.len(),
            views == annotation::response_views(list@),
            json::map_view(map) == responses_put(views.take(i as int)),
        decreases list@.len() - i,
    {
        proof {
            assert(views.take(i + 1).drop_last() =~= views.take(i as int));
            assert(views.take(i + 1).last() == list@[i as int]@);
        }
        map_insert(&mut map, list[i].status.clone(), build_response(&list[i]));
        i += 1;
    }
    proof {
        assert(views.take(list@.len() as int) =~= views);
    }
    json_object(map)
}

fn build_texts(list: &Vec<String>) -> (value: serde_json::Value)
    ensures
        json::json_view(value) == texts_json(text::string_views(list@)),
{
    let ghost views = text::string_views(list@);
    let mut items: Vec<serde_json::Value> = Vec::new();
    let mut i: usize = 0;
    while i < list.len()
        invariant
            i <= list@.len(),
            views == text::string_views(list@),
            items@.len() == i,
            forall|j: int|
                0 <= j < i ==> json::json_view(#[trigger] items@[j]) == json::JsonView::Text(
                    views[j],
                ),
        decreases list@.len() - i,
    {
        items.push(json_string(list[i].clone()));
        i += 1;
    }
    proof {
        assert(json::json_views(items@) =~= texts_json(views)->Array_0);
    }
    json_array(items)
}

fn build_params(list: &Vec<ParamInfo>) -> (value: serde_json::Value)
    ensures
        json::json_view(value) == json::JsonView::Array(
            annotation::param_views(list@).map_values(|p: annotation::ParamView| param_json(p)),
        ),
{
    let ghost views = annotation::param_views(list@);
    let mut items: Vec<serde_json::Value> = Vec::new();
    let mut i: usize = 0;
    while i < list.len()
        invariant
            i <= list@.len(),
            views == annotation::param_views(list@),
            items@.len() == i,
            forall|j: int|
                0 <= j < i ==> json::json_view(#[trigger] items@[j]) == param_json(views[j]),
        decreases list@.len() - i,
    {
        items.push(build_param(&list[i]));
        i += 1;
    }
    proof {
        assert(json::json_views(items@) =~= views.map_values(
            |p: annotation::ParamView| param_json(p),
        ));
    }
    json_array(items)
}

fn build_operation(ann: &FuncAnnotation) -> (value: serde_json::Value)
    ensures
        json::json_view(value) == operation_json(ann@),
{
    proof {
        reveal_strlit("summary");
        assert("summary"@.len() == 7);
        reveal_strlit("description");
        assert("description"@.len() == 11);
        reveal_strlit("tags");
        assert("tags"@.len() == 4);
        reveal_strlit("parameters");
        assert("parameters"@.len() == 10);
        reveal_strlit("responses");
        assert("responses"@.len() == 9);
    }
    let mut map = new_map();
    if let Some(summary) = &ann.summary {
        self::add(&mut map, "summary", json_string(summary.clone()));
    }
    if ann.description.len() > 0 {
        self::add(&mut map, "description", json_string(join(&ann.description, "\n")));
    }
    if ann.tags.len() > 0 {
        self::add(&mut map, "tags", build_texts(&ann.tags));
    }
    if ann.params.len() > 0 {
        self::add(&mut map, "parameters", build_params(&ann.params));
    }
    self::add(&mut map, "responses", build_responses(&ann.responses));
    proof {
        assert(json::map_view(map) =~= operation_json(ann@)->Object_0);
    }
    json_object(map)
}

/// Every path of a document holds an object.
proof fn lemma_paths_are_objects(entries: Seq<EntryView>, path: Seq<char>)
    ensures
        json::get(paths_put(entries), path) is Some ==> json::get(
            paths_put(entries),
            path,
        )->0 is Object,
    decreases entries.len(),
{
    if entries.len() > 0 {
        let before = paths_put(entries.drop_last());
        let entry = entries.last();
        let item = json::put(
            json::object_under(before, entry.path),
            text::lowercase_of(entry.method),
            operation_json(entry.annotation),
        );
        lemma_paths_are_objects(entries.drop_last(), path);
        json::lemma_get_put(before, entry.path, json::JsonView::Object(item), path);
    }
}

/// Build an OpenAPI 3.0 JSON value from the parsed route entries.
pub fn build_openapi_json(title: &str, version: &str, routes: &[RouteEntry]) -> (document:
    serde_json::Value)
    ensures
        json::json_view(document) == document_json(title@, version@, entry_views(routes@)),
{
    let ghost views = entry_views(routes@);
    let mut paths = new_map();
    let mut i: usize = 0;
    proof {
        assert(views.take(0) =~= Seq::<EntryView>::empty());
        assert(json::map_view(paths) =~= paths_put(views.take(0)));
    }
    while i < routes.len()
        invariant
            i <= routes@.len(),
            views == entry_views(routes@),
            json::map_view(paths) == paths_put(views.take(i as int)),
        decreases routes@.len() - i,
    {
        let route = &routes[i];
        let method = lowercase(route.method.as_str());
        let operation = build_operation(&route.annotation);
        proof {
            assert(views.take(i + 1).drop_last() =~= views.take(i as int));
            assert(views.take(i + 1).last() == route@);
            lemma_paths_are_objects(views.take(i as int), route.path@);
        }
        let fresh = new_map();
        assert(json::map_view(fresh) =~= seq![]);
        let item = object_entry(&mut paths, route.path.clone(), fresh);
        map_insert(item, method, operation);
        i += 1;
    }
    let mut info = new_map();
    let mut document = new_map();
    proof {
        assert(views.take(routes@.len() as int) =~= views);
        reveal_strlit("title");
        assert("title"@.len() == 5);
        reveal_strlit("version");
        assert("version"@.len() == 7);
        reveal_strlit("openapi");
        assert("openapi"@.len() == 7);
        reveal_strlit("info");
        assert("info"@.len() == 4);
        reveal_strlit("paths");
        assert("paths"@.len() == 5);
    }
    self::add(&mut info, "title", json_string(title.to_owned()));
    self::add(&mut info, "version", json_string(version.to_owned()));
    self::add(&mut document, "openapi", json_string("3.0.3".to_owned()));
    self::add(&mut document, "info", json_object(info));
    self::add(&mut document, "paths", json_object(paths));
    proof {
        let expected = document_json(title@, version@, views)->Object_0;
        assert(json::map_view(info) =~= expected[1].1->Object_0);
        assert(json::map_view(document) =~= expected);
    }
    json_object(document)
}

/// The page of the Swagger UI, up to its title.
pub const PAGE_HEAD: &'static str = r##"<!DOCTYPE html>
<html lang="en">
<head>
  <meta charset="UTF-8" />
  <meta name="viewport" content="width=device-width, initial-scale=1.0" />
  <title>"##;

/// The page of the Swagger UI, after its title.
pub const PAGE_TAIL: &'static str = r##" — API Docs</title>
  <link rel="stylesheet" href="https://unpkg.com/swagger-ui-dist@5/swagger-ui.css" />
  <style>
    body { margin: 0; }
    .topbar { display: none; }
  </style>
</head>
<body>
  <div id="swagger-ui"></div>
  <script src="https://unpkg.com/swagger-ui-dist@5/swagger-ui-bundle.js"></script>
  <script>
    window.onload = function () {
      SwaggerUIBundle({
        url: "/_openapi.json",
        dom_id: "#swagger-ui",
        deepLinking: true,
        presets: [SwaggerUIBundle.presets.apis, SwaggerUIBundle.SwaggerUIStandalonePreset],
        layout: "BaseLayout",
      });
    };
  </script>
</body>
</html>"##;

/// The page of the Swagger UI with this title.
pub open spec fn swagger_page(title: Seq<char>) -> Seq<char> {
    PAGE_HEAD@ + title + PAGE_TAIL@
}

/// Inline Swagger UI HTML that loads from CDN and points to `/_openapi.json`.
pub fn swagger_ui_html(title: &str) -> (page: String)
    ensures
        page@ == swagger_page(title@),
{
    let mut page = PAGE_HEAD.to_owned();
    page.append(title);
    page.append(PAGE_TAIL);
    page
}

/// Each route has an entry, in the order of the routes, with the route's method and path and with
/// the annotation of its handler, if that has one.
pub proof fn law_one_entry_per_route(
    routes: Seq<route::RouteView>,
    table: Map<Seq<char>, annotation::AnnotationView>,
    i: int,
)
    requires
        0 <= i < routes.len(),
    ensures
        entries_of(routes, table).len() == routes.len(),
        entries_of(routes, table)[i].method == routes[i].method,
        entries_of(routes, table)[i].path == routes[i].path,
        entries_of(routes, table)[i].annotation == (match routes[i].handler {
            Some(name) => if table.contains_key(name) {
                table[name]
            } else {
                annotation::no_annotation()
            },
            None => annotation::no_annotation(),
        }),
{
}

/// Whether two entries have one path and, but for the case, one method.
pub open spec fn same_operation(a: EntryView, b: EntryView) -> bool {
    a.path == b.path && text::lowercase_of(a.method) == text::lowercase_of(b.method)
}

/// The operation of a document under a path and a lower-case method.
pub open spec fn operation_under(
    paths: Seq<(Seq<char>, json::JsonView)>,
    path: Seq<char>,
    method: Seq<char>,
) -> Option<json::JsonView> {
    json::get(json::object_under(paths, path), method)
}

/// Each route is in the document, under its path and its method in lower case, unless a later one
/// has the same path and method.
pub proof fn law_routes_are_documented(entries: Seq<EntryView>, i: int)
    requires
        0 <= i < entries.len(),
        forall|j: int| i < j < entries.len() ==> !same_operation(entries[i], #[trigger] entries[j]),
    ensures
        operation_under(
            paths_put(entries),
            entries[i].path,
            text::lowercase_of(entries[i].method),
        ) == Some(operation_json(entries[i].annotation)),
    decreases entries.len(),
{
    let before = entries.drop_last();
    let last = entries.last();
    let method = text::lowercase_of(entries[i].method);
    let inner = json::object_under(paths_put(before), last.path);
    let operation = operation_json(last.annotation);
    let item = json::put(inner, text::lowercase_of(last.method), operation);
    json::lemma_get_put(
        paths_put(before),
        last.path,
        json::JsonView::Object(item),
        entries[i].path,
    );
    json::lemma_get_put(inner, text::lowercase_of(last.method), operation, method);
    if i < entries.len() - 1 {
        assert(before[i] == entries[i]);
        assert forall|j: int| i < j < before.len() implies !same_operation(
            before[i],
            #[trigger] before[j],
        ) by {
            assert(before[j] == entries[j]);
        }
        law_routes_are_documented(before, i);
        assert(last == entries[entries.len() - 1]);
    }
}

/// A document has no operation but those of its routes.
pub proof fn law_only_routes_are_documented(
    entries: Seq<EntryView>,
    path: Seq<char>,
    method: Seq<char>,
)
    requires
        operation_under(paths_put(entries), path, method) is Some,
    ensures
        exists|i: int|
            0 <= i < entries.len() && (#[trigger] entries[i]).path == path && text::lowercase_of(
                entries[i].method,
            ) == method,
    decreases entries.len(),
{
    if entries.len() > 0 {
        let before = entries.drop_last();
        let last = entries.last();
        let inner = json::object_under(paths_put(before), last.path);
        let operation = operation_json(last.annotation);
        let item = json::put(inner, text::lowercase_of(last.method), operation);
        json::lemma_get_put(paths_put(before), last.path, json::JsonView::Object(item), path);
        json::lemma_get_put(inner, text::lowercase_of(last.method), operation, method);
        if last.path == path && text::lowercase_of(last.method) == method {
            assert(entries[entries.len() - 1].path == path);
        } else {
            law_only_routes_are_documented(before, path, method);
            let i = choose|i: int|
                0 <= i < before.len() && (#[trigger] before[i]).path == path
                    && text::lowercase_of(before[i].method) == method;
            assert(entries[i] == before[i]);
        }
    }
}

/// An operation without annotated responses has a plain success.
pub proof fn law_default_response(ann: annotation::AnnotationView)
    requires
        ann.responses.len() == 0,
    ensures
        responses_json(ann.responses) == json::JsonView::Object(
            seq![
                (
                    "200"@,
                    json::JsonView::Object(
                        seq![("description"@, json::JsonView::Text("Success"@))],
                    ),
                ),
            ],
        ),
        operation_json(ann)->Object_0.last() == ("responses"@, responses_json(ann.responses)),
{
}

/// What a JSON value has under a key, where it is an object and has something under it.
pub open spec fn at(value: Option<json::JsonView>, key: Seq<char>) -> Option<json::JsonView> {
    match value {
        Some(json::JsonView::Object(entries)) => json::get(entries, key),
        _ => None,
    }
}

/// What a document has for a route, looked up key by key.
pub open spec fn documented(document: json::JsonView, entry: EntryView) -> Option<json::JsonView> {
    at(at(at(Some(document), "paths"@), entry.path), text::lowercase_of(entry.method))
}

/// Whether no later entry has the path and the method of this one.
pub open spec fn is_not_overridden(entries: Seq<EntryView>, i: int) -> bool {
    &&& 0 <= i < entries.len()
    &&& forall|j: int|
        i < j < entries.len() ==> !((#[trigger] entries[j]).path == entries[i].path
            && text::lowercase_of(entries[j].method) == text::lowercase_of(entries[i].method))
}

/// What is found among few entries with different keys.
proof fn lemma_get_few<V>(entries: Seq<(Seq<char>, V)>, key: Seq<char>)
    ensures
        entries.len() == 0 ==> json::get(entries, key) is None,
        entries.len() == 1 ==> json::get(entries, key) == (if entries[0].0 == key {
            Some(entries[0].1)
        } else {
            None
        }),
        entries.len() > 0 ==> json::get(entries, key) == (if entries[0].0 == key {
            Some(entries[0].1)
        } else {
            json::get(entries.drop_first(), key)
        }),
{
    if entries.len() == 1 {
        assert(entries.drop_first().len() == 0);
    }
}

/// What is found among the entries of two lists.
proof fn lemma_get_both<V>(a: Seq<(Seq<char>, V)>, b: Seq<(Seq<char>, V)>, key: Seq<char>)
    ensures
        json::get(a + b, key) == (match json::get(a, key) {
            Some(found) => Some(found),
            None => json::get(b, key),
        }),
    decreases a.len(),
{
    if a.len() == 0 {
        assert(a + b =~= b);
    } else {
        assert((a + b).drop_first() =~= a.drop_first() + b);
        lemma_get_both(a.drop_first(), b, key);
    }
}

/// No two keys of an object of a document are the same.
proof fn lemma_keys()
    ensures
        "openapi"@.len() == 7,
        "info"@.len() == 4,
        "paths"@.len() == 5,
        "title"@.len() == 5,
        "version"@.len() == 7,
        "summary"@.len() == 7,
        "description"@.len() == 11,
        "tags"@.len() == 4,
        "parameters"@.len() == 10,
        "responses"@.len() == 9,
        "name"@.len() == 4,
        "in"@.len() == 2,
        "required"@.len() == 8,
        "schema"@.len() == 6,
        "type"@.len() == 4,
        "content"@.len() == 7,
{
    reveal_strlit("openapi");
    reveal_strlit("info");
    reveal_strlit("paths");
    reveal_strlit("title");
    reveal_strlit("version");
    reveal_strlit("summary");
    reveal_strlit("description");
    reveal_strlit("tags");
    reveal_strlit("parameters");
    reveal_strlit("responses");
    reveal_strlit("name");
    reveal_strlit("in");
    reveal_strlit("required");
    reveal_strlit("schema");
    reveal_strlit("type");
    reveal_strlit("content");
}

/// A document says that it is one of OpenAPI 3.0.3, has the title and the version that it was
/// asked for, and has nothing else but the paths.
pub proof fn law_document_heads(
    title: Seq<char>,
    version: Seq<char>,
    entries: Seq<EntryView>,
    key: Seq<char>,
)
    ensures
        ({
            let document = Some(document_json(title, version, entries));
            &&& at(document, "openapi"@) == Some(json::JsonView::Text("3.0.3"@))
            &&& at(at(document, "info"@), "title"@) == Some(json::JsonView::Text(title))
            &&& at(at(document, "info"@), "version"@) == Some(json::JsonView::Text(version))
            &&& key != "title"@ && key != "version"@ ==> at(at(document, "info"@), key) is None
            &&& at(document, "paths"@) matches Some(json::JsonView::Object(_))
            &&& key != "openapi"@ && key != "info"@ && key != "paths"@ ==> at(document, key) is None
        }),
{
    lemma_keys();
    let all = document_json(title, version, entries)->Object_0;
    let info = all[1].1->Object_0;
    let others = all.drop_first();
    let last = others.drop_first();
    assert(others[0] == all[1]);
    assert(last[0] == all[2]);
    lemma_get_few(all, "openapi"@);
    lemma_get_few(all, "info"@);
    lemma_get_few(others, "info"@);
    lemma_get_few(all, "paths"@);
    lemma_get_few(others, "paths"@);
    lemma_get_few(last, "paths"@);
    lemma_get_few(all, key);
    lemma_get_few(others, key);
    lemma_get_few(last, key);
    assert(info.drop_first()[0] == info[1]);
    lemma_get_few(info, "title"@);
    lemma_get_few(info, "version"@);
    lemma_get_few(info.drop_first(), "version"@);
    lemma_get_few(info, key);
    lemma_get_few(info.drop_first(), key);
    reveal_strlit("openapi");
    reveal_strlit("version");
}

/// A route that is not overridden has its operation in the document.
proof fn lemma_documented(
    title: Seq<char>,
    version: Seq<char>,
    entries: Seq<EntryView>,
    i: int,
)
    requires
        is_not_overridden(entries, i),
    ensures
        documented(document_json(title, version, entries), entries[i]) == Some(
            operation_json(entries[i].annotation),
        ),
{
    assert forall|j: int| i < j < entries.len() implies !same_operation(
        entries[i],
        #[trigger] entries[j],
    ) by {}
    law_routes_are_documented(entries, i);
    law_document_heads(title, version, entries, "paths"@);
    let all = document_json(title, version, entries)->Object_0;
    lemma_keys();
    lemma_get_few(all, "paths"@);
    lemma_get_few(all.drop_first(), "paths"@);
    lemma_get_few(all.drop_first().drop_first(), "paths"@);
    assert(all.drop_first()[0] == all[1]);
    assert(all.drop_first().drop_first()[0] == all[2]);
}

/// What an operation has under each of its keys, and that it has nothing else.
proof fn lemma_operation(ann: annotation::AnnotationView, key: Seq<char>)
    ensures
        ({
            let operation = Some(operation_json(ann));
            &&& at(operation, "summary"@) == (match ann.summary {
                Some(summary) => Some(json::JsonView::Text(summary)),
                None => None,
            })
            &&& at(operation, "description"@) == (if ann.description.len() > 0 {
                Some(json::JsonView::Text(text::joined(ann.description, "\n"@)))
            } else {
                None
            })
            &&& at(operation, "tags"@) == (if ann.tags.len() > 0 {
                Some(texts_json(ann.tags))
            } else {
                None
            })
            &&& at(operation, "parameters"@) == (if ann.params.len() > 0 {
                Some(
                    json::JsonView::Array(
                        ann.params.map_values(|p: annotation::ParamView| param_json(p)),
                    ),
                )
            } else {
                None
            })
            &&& at(operation, "responses"@) == Some(responses_json(ann.responses))
            &&& key != "summary"@ && key != "description"@ && key != "tags"@ && key
                != "parameters"@ && key != "responses"@ ==> at(operation, key) is None
        }),
{
    lemma_keys();
    let none = Seq::<(Seq<char>, json::JsonView)>::empty();
    let summary = match ann.summary {
        Some(summary) => seq![("summary"@, json::JsonView::Text(summary))],
        None => none,
    };
    let description = if ann.description.len() > 0 {
        seq![("description"@, json::JsonView::Text(text::joined(ann.description, "\n"@)))]
    } else {
        none
    };
    let tags = if ann.tags.len() > 0 {
        seq![("tags"@, texts_json(ann.tags))]
    } else {
        none
    };
    let parameters = if ann.params.len() > 0 {
        seq![
            (
                "parameters"@,
                json::JsonView::Array(
                    ann.params.map_values(|p: annotation::ParamView| param_json(p)),
                ),
            ),
        ]
    } else {
        none
    };
    let responses = seq![("responses"@, responses_json(ann.responses))];
    let all = summary + description + tags + parameters + responses;
    assert(operation_json(ann)->Object_0 =~= all);
    assert forall|k: Seq<char>| #[trigger] json::get(all, k) == (if json::get(summary, k) is Some {
        json::get(summary, k)
    } else if json::get(description, k) is Some {
        json::get(description, k)
    } else if json::get(tags, k) is Some {
        json::get(tags, k)
    } else if json::get(parameters, k) is Some {
        json::get(parameters, k)
    } else {
        json::get(responses, k)
    }) by {
        lemma_get_both(summary + description + tags + parameters, responses, k);
        lemma_get_both(summary + description + tags, parameters, k);
        lemma_get_both(summary + description, tags, k);
        lemma_get_both(summary, description, k);
    }
    assert forall|k: Seq<char>|
        #![trigger json::get(summary, k)]
        #![trigger json::get(description, k)]
        #![trigger json::get(tags, k)]
        #![trigger json::get(parameters, k)]
        #![trigger json::get(responses, k)]
        (json::get(summary, k) is Some ==> k == "summary"@) && (json::get(description, k) is Some
            ==> k == "description"@) && (json::get(tags, k) is Some ==> k == "tags"@) && (json::get(
            parameters,
            k,
        ) is Some ==> k == "parameters"@) && (json::get(responses, k) is Some <==> k
            == "responses"@) by {
        lemma_get_few(summary, k);
        lemma_get_few(description, k);
        lemma_get_few(tags, k);
        lemma_get_few(parameters, k);
        lemma_get_few(responses, k);
    }
    lemma_get_few(summary, "summary"@);
    lemma_get_few(description, "description"@);
    lemma_get_few(tags, "tags"@);
    lemma_get_few(parameters, "parameters"@);
    lemma_get_few(responses, "responses"@);
}

/// What the annotation of a route says is in the document, under the path and the method of the
/// route: the summary as it stands, the descriptions with a line feed between them, and the tags
/// in their order. What it does not say is not there, and nothing else is.
pub proof fn law_annotation_is_documented(
    title: Seq<char>,
    version: Seq<char>,
    entries: Seq<EntryView>,
    i: int,
    key: Seq<char>,
)
    requires
        is_not_overridden(entries, i),
    ensures
        ({
            let operation = documented(document_json(title, version, entries), entries[i]);
            let ann = entries[i].annotation;
            &&& operation is Some
            &&& match ann.summary {
                Some(summary) => at(operation, "summary"@) == Some(json::JsonView::Text(summary)),
                None => at(operation, "summary"@) is None,
            }
            &&& ann.description.len() == 0 ==> at(operation, "description"@) is None
            &&& ann.description.len() == 1 ==> at(operation, "description"@) == Some(
                json::JsonView::Text(ann.description[0]),
            )
            &&& ann.description.len() > 0 ==> at(operation, "description"@) == Some(
                json::JsonView::Text(text::joined(ann.description, seq!['\n'])),
            )
            &&& ann.tags.len() == 0 ==> at(operation, "tags"@) is None
            &&& ann.tags.len() > 0 ==> (at(operation, "tags"@) matches Some(
                json::JsonView::Array(tags),
            ) && tags.len() == ann.tags.len() && forall|k: int|
                0 <= k < tags.len() ==> #[trigger] tags[k] == json::JsonView::Text(ann.tags[k]))
            &&& key != "summary"@ && key != "description"@ && key != "tags"@ && key
                != "parameters"@ && key != "responses"@ ==> at(operation, key) is None
        }),
{
    lemma_documented(title, version, entries, i);
    lemma_operation(entries[i].annotation, key);
    reveal_strlit("\n");
    assert("\n"@ =~= seq!['\n']);
    if entries[i].annotation.description.len() == 1 {
        text::law_join(seq![], entries[i].annotation.description[0], seq!['\n']);
        assert(entries[i].annotation.description =~= seq![entries[i].annotation.description[0]]);
    }
}

/// What a parameter has under each of its keys.
proof fn lemma_param(param: annotation::ParamView, key: Seq<char>)
    ensures
        ({
            let object = Some(param_json(param));
            &&& at(object, "name"@) == Some(json::JsonView::Text(param.name))
            &&& at(object, "in"@) == Some(json::JsonView::Text(param.location))
            &&& at(object, "required"@) == Some(json::JsonView::Bool(param.required))
            &&& at(object, "description"@) == Some(json::JsonView::Text(param.description))
            &&& at(at(object, "schema"@), "type"@) == Some(
                json::JsonView::Text(param.schema_type),
            )
            &&& key != "name"@ && key != "in"@ && key != "required"@ && key != "description"@ && key
                != "schema"@ ==> at(object, key) is None
        }),
{
    lemma_keys();
    let all = param_json(param)->Object_0;
    let b = all.drop_first();
    let c = b.drop_first();
    let d = c.drop_first();
    let e = d.drop_first();
    assert(b[0] == all[1] && c[0] == all[2] && d[0] == all[3] && e[0] == all[4]);
    assert forall|k: Seq<char>| #[trigger] json::get(all, k) == (if k == "name"@ {
        Some(all[0].1)
    } else if k == "in"@ {
        Some(all[1].1)
    } else if k == "required"@ {
        Some(all[2].1)
    } else if k == "description"@ {
        Some(all[3].1)
    } else if k == "schema"@ {
        Some(all[4].1)
    } else {
        None
    }) by {
        lemma_get_few(all, k);
        lemma_get_few(b, k);
        lemma_get_few(c, k);
        lemma_get_few(d, k);
        lemma_get_few(e, k);
    }
    lemma_get_few(all[4].1->Object_0, "type"@);
}

/// Each parameter of the annotation of a route is in the document, in its place among the
/// parameters: its name, where it is given, whether it is required, its description and its type.
/// Without parameters there is no list of them.
pub proof fn law_parameters_are_documented(
    title: Seq<char>,
    version: Seq<char>,
    entries: Seq<EntryView>,
    i: int,
    k: int,
)
    requires
        is_not_overridden(entries, i),
    ensures
        ({
            let params = entries[i].annotation.params;
            let found = at(
                documented(document_json(title, version, entries), entries[i]),
                "parameters"@,
            );
            &&& params.len() == 0 ==> found is None
            &&& params.len() > 0 ==> (found matches Some(json::JsonView::Array(list)) && list.len()
                == params.len() && (0 <= k < params.len() ==> {
                &&& at(Some(list[k]), "name"@) == Some(json::JsonView::Text(params[k].name))
                &&& at(Some(list[k]), "in"@) == Some(json::JsonView::Text(params[k].location))
                &&& at(Some(list[k]), "required"@) == Some(
                    json::JsonView::Bool(params[k].required),
                )
                &&& at(Some(list[k]), "description"@) == Some(
                    json::JsonView::Text(params[k].description),
                )
                &&& at(at(Some(list[k]), "schema"@), "type"@) == Some(
                    json::JsonView::Text(params[k].schema_type),
                )
            }))
        }),
{
    lemma_documented(title, version, entries, i);
    lemma_operation(entries[i].annotation, "parameters"@);
    if 0 <= k < entries[i].annotation.params.len() {
        lemma_param(entries[i].annotation.params[k], "name"@);
    }
}

/// What is under a status among responses.
proof fn lemma_responses(list: Seq<annotation::ResponseView>, k: int, status: Seq<char>)
    ensures
        0 <= k < list.len() && (forall|j: int|
            k < j < list.len() ==> (#[trigger] list[j]).status != list[k].status) ==> json::get(
            responses_put(list),
            list[k].status,
        ) == Some(response_json(list[k])),
        (forall|j: int| 0 <= j < list.len() ==> (#[trigger] list[j]).status != status)
            ==> json::get(responses_put(list), status) is None,
    decreases list.len(),
{
    if list.len() > 0 {
        let before = list.drop_last();
        let last = list.last();
        assert(last == list[list.len() - 1]);
        lemma_responses(before, k, status);
        json::lemma_get_put(responses_put(before), last.status, response_json(last), status);
        if 0 <= k < list.len() {
            json::lemma_get_put(
                responses_put(before),
                last.status,
                response_json(last),
                list[k].status,
            );
            if k < before.len() {
                assert(before[k] == list[k]);
                assert(forall|j: int|
                    0 <= j < before.len() ==> (#[trigger] before[j]) == list[j]);
            }
        }
        assert(forall|j: int| 0 <= j < before.len() ==> (#[trigger] before[j]) == list[j]);
    }
}

/// Each response of the annotation of a route is in the document under its status, unless a later
/// one has the same status: its description, and an object under its type where it has one.
/// Nothing is under the other statuses. Without responses there is a plain success.
pub proof fn law_responses_are_documented(
    title: Seq<char>,
    version: Seq<char>,
    entries: Seq<EntryView>,
    i: int,
    k: int,
    status: Seq<char>,
)
    requires
        is_not_overridden(entries, i),
    ensures
        ({
            let list = entries[i].annotation.responses;
            let found = at(
                documented(document_json(title, version, entries), entries[i]),
                "responses"@,
            );
            &&& list.len() == 0 ==> at(at(found, "200"@), "description"@) == Some(
                json::JsonView::Text("Success"@),
            )
            &&& list.len() == 0 && status != "200"@ ==> at(found, status) is None
            &&& list.len() > 0 && (forall|j: int|
                0 <= j < list.len() ==> (#[trigger] list[j]).status != status) ==> at(
                found,
                status,
            ) is None
            &&& 0 <= k < list.len() && (forall|j: int|
                k < j < list.len() ==> (#[trigger] list[j]).status != list[k].status) ==> {
                let response = at(found, list[k].status);
                &&& at(response, "description"@) == Some(json::JsonView::Text(list[k].description))
                &&& match list[k].content_type {
                    Some(content_type) => at(
                        at(at(at(response, "content"@), content_type), "schema"@),
                        "type"@,
                    ) == Some(json::JsonView::Text("object"@)),
                    None => at(response, "content"@) is None,
                }
            }
        }),
{
    let list = entries[i].annotation.responses;
    lemma_documented(title, version, entries, i);
    lemma_operation(entries[i].annotation, "responses"@);
    lemma_keys();
    if list.len() == 0 {
        let all = responses_json(list)->Object_0;
        lemma_get_few(all, "200"@);
        lemma_get_few(all, status);
        lemma_get_few(all[0].1->Object_0, "description"@);
    } else {
        lemma_responses(list, k, status);
        if 0 <= k < list.len() {
            let all = response_json(list[k])->Object_0;
            lemma_get_few(all, "description"@);
            lemma_get_few(all, "content"@);
            lemma_get_few(all.drop_first(), "content"@);
            if let Some(content_type) = list[k].content_type {
                assert(all.drop_first()[0] == all[1]);
                let content = all[1].1->Object_0;
                lemma_get_few(content, content_type);
                let schema = content[0].1->Object_0;
                lemma_get_few(schema, "schema"@);
                lemma_get_few(schema[0].1->Object_0, "type"@);
            }
        }
    }
}

/// The page of the Swagger UI has its title between its head and its tail, and nothing else
/// depends on the title.
pub proof fn law_page_has_title(title: Seq<char>)
    ensures
        swagger_page(title).len() == swagger_page(seq![]).len() + title.len(),
        exists|n: int|
            0 <= n <= swagger_page(seq![]).len() && #[trigger] swagger_page(title).subrange(
                n,
                n + title.len(),
            ) == title && swagger_page(title).take(n) == swagger_page(seq![]).take(n)
                && swagger_page(title).skip(n + title.len()) == swagger_page(seq![]).skip(n),
{
    let n = PAGE_HEAD@.len() as int;
    let page = swagger_page(title);
    let blank = swagger_page(seq![]);
    assert(page.subrange(n, n + title.len()) =~= title);
    assert(page.take(n) =~= blank.take(n));
    assert(page.skip(n + title.len()) =~= blank.skip(n));
}

/// What a route entry holds is what its parts hold, and a list of them holds what they do, one by
/// one.
pub proof fn law_entry_views(list: Seq<RouteEntry>, i: int)
    ensures
        entry_views(list).len() == list.len(),
        0 <= i < list.len() ==> entry_views(list)[i].method == list[i].method@,
        0 <= i < list.len() ==> entry_views(list)[i].path == list[i].path@,
        0 <= i < list.len() ==> entry_views(list)[i].annotation == list[i].annotation@,
{
}

/// A text has the part that is found in it at some place.
proof fn lemma_has_part_at(s: Seq<char>, i: int, part: Seq<char>)
    requires
        0 <= i,
        i + part.len() <= s.len(),
        s.subrange(i, i + part.len()) == part,
    ensures
        text::has_part(s, part),
{
}

/// The page has the title in front of its own words, loads the Swagger UI, and shows the document of
/// this server.
pub proof fn law_page_shows_document(title: Seq<char>)
    ensures
        text::has_part(swagger_page(title), "<title>"@ + title + " — API Docs</title>"@),
        text::has_part(swagger_page(title), "url: \"/_openapi.json\","@),
        text::has_part(swagger_page(title), "dom_id: \"#swagger-ui\","@),
        text::has_part(swagger_page(title), "<div id=\"swagger-ui\"></div>"@),
        text::has_part(swagger_page(title), "<script src=\"https://unpkg.com/swagger-ui-dist@5/swagger-ui-bundle.js\"></script>"@),
        text::has_part(swagger_page(title), "href=\"https://unpkg.com/swagger-ui-dist@5/swagger-ui.css\""@),
{
    reveal_strlit(r##"<!DOCTYPE html>
<html lang="en">
<head>
  <meta charset="UTF-8" />
  <meta name="viewport" content="width=device-width, initial-scale=1.0" />
  <title>"##);
    reveal_strlit(r##" — API Docs</title>
  <link rel="stylesheet" href="https://unpkg.com/swagger-ui-dist@5/swagger-ui.css" />
  <style>
    body { margin: 0; }
    .topbar { display: none; }
  </style>
</head>
<body>
  <div id="swagger-ui"></div>
  <script src="https://unpkg.com/swagger-ui-dist@5/swagger-ui-bundle.js"></script>
  <script>
    window.onload = function () {
      SwaggerUIBundle({
        url: "/_openapi.json",
        dom_id: "#swagger-ui",
        deepLinking: true,
        presets: [SwaggerUIBundle.presets.apis, SwaggerUIBundle.SwaggerUIStandalonePreset],
        layout: "BaseLayout",
      });
    };
  </script>
</body>
</html>"##);
    reveal_strlit("<title>");
    reveal_strlit(" — API Docs</title>");
    let page = swagger_page(title);
    let start = PAGE_HEAD@.len() as int;
    let n = start + title.len();
    let heading = "<title>"@ + title + " — API Docs</title>"@;
    assert(page.subrange(start - 7, n + 19) =~= heading);
    assert(page.subrange(start - 7, start - 7 + heading.len()) == heading);
    reveal_strlit("url: \"/_openapi.json\",");
    assert(page.subrange(n + 387, n + 409) =~= "url: \"/_openapi.json\","@);
    lemma_has_part_at(page, n + 387, "url: \"/_openapi.json\","@);
    reveal_strlit("dom_id: \"#swagger-ui\",");
    assert(page.subrange(n + 418, n + 440) =~= "dom_id: \"#swagger-ui\","@);
    lemma_has_part_at(page, n + 418, "dom_id: \"#swagger-ui\","@);
    reveal_strlit("<div id=\"swagger-ui\"></div>");
    assert(page.subrange(n + 199, n + 226) =~= "<div id=\"swagger-ui\"></div>"@);
    lemma_has_part_at(page, n + 199, "<div id=\"swagger-ui\"></div>"@);
    reveal_strlit("<script src=\"https://unpkg.com/swagger-ui-dist@5/swagger-ui-bundle.js\"></script>");
    assert(page.subrange(n + 229, n + 309) =~= "<script src=\"https://unpkg.com/swagger-ui-dist@5/swagger-ui-bundle.js\"></script>"@);
    lemma_has_part_at(page, n + 229, "<script src=\"https://unpkg.com/swagger-ui-dist@5/swagger-ui-bundle.js\"></script>"@);
    reveal_strlit("href=\"https://unpkg.com/swagger-ui-dist@5/swagger-ui.css\"");
    assert(page.subrange(n + 45, n + 102) =~= "href=\"https://unpkg.com/swagger-ui-dist@5/swagger-ui.css\""@);
    lemma_has_part_at(page, n + 45, "href=\"https://unpkg.com/swagger-ui-dist@5/swagger-ui.css\""@);
}

} // verus!
