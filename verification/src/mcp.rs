//! The messages of JSON-RPC 2.0 and of the Model Context Protocol.

use vstd::prelude::*;
use crate::json::{entry_members, json_member, optional, Json, Value};
use crate::table::{first_at, has_name, lemma_lookup_first, lookup, Table};
use crate::text::{optional_text, texts};

verus! {

// JSON-RPC 2.0

#[derive(Debug)]
pub struct JsonRpcRequest {
    pub jsonrpc: String,
    pub id: Option<Value>,
    pub method: String,
    pub params: Option<Value>,
}

#[derive(Debug)]
pub struct JsonRpcResponse {
    pub jsonrpc: String,
    pub id: Option<Value>,
    pub result: Option<Value>,
    pub error: Option<JsonRpcError>,
}

#[derive(Debug)]
pub struct JsonRpcError {
    pub code: i64,
    pub message: String,
    pub data: Option<Value>,
}

/// What a [`JsonRpcRequest`] says.
pub struct RequestView {
    pub jsonrpc: Seq<char>,
    pub id: Option<Json>,
    pub method: Seq<char>,
    pub params: Option<Json>,
}

/// What a [`JsonRpcResponse`] says.
pub struct ResponseView {
    pub jsonrpc: Seq<char>,
    pub id: Option<Json>,
    pub result: Option<Json>,
    pub error: Option<ErrorView>,
}

/// What a [`JsonRpcError`] says.
pub struct ErrorView {
    pub code: int,
    pub message: Seq<char>,
    pub data: Option<Json>,
}

impl View for JsonRpcRequest {
    type V = RequestView;

    open spec fn view(&self) -> RequestView {
        RequestView {
            jsonrpc: self.jsonrpc@,
            id: optional(self.id),
            method: self.method@,
            params: optional(self.params),
        }
    }
}

impl View for JsonRpcError {
    type V = ErrorView;

    open spec fn view(&self) -> ErrorView {
        ErrorView { code: self.code as int, message: self.message@, data: optional(self.data) }
    }
}

impl View for JsonRpcResponse {
    type V = ResponseView;

    open spec fn view(&self) -> ResponseView {
        ResponseView {
            jsonrpc: self.jsonrpc@,
            id: optional(self.id),
            result: optional(self.result),
            error: match self.error {
                Some(e) => Some(e@),
                None => None,
            },
        }
    }
}

/// The response that carries a result.
pub open spec fn success_response(id: Option<Json>, result: Json) -> ResponseView {
    ResponseView { jsonrpc: "2.0"@, id, result: Some(result), error: None }
}

/// The response that carries an error.
pub open spec fn error_response(id: Option<Json>, code: int, message: Seq<char>) -> ResponseView {
    ResponseView {
        jsonrpc: "2.0"@,
        id,
        result: None,
        error: Some(ErrorView { code, message, data: None }),
    }
}

impl JsonRpcResponse {
    pub fn success(id: Option<Value>, result: Value) -> (r: Self)
        ensures
            r@ == success_response(optional(id), result@),
    {
        JsonRpcResponse { jsonrpc: "2.0".to_owned(), id, result: Some(result), error: None }
    }

    pub fn error(id: Option<Value>, code: i64, message: &str) -> (r: Self)
        ensures
            r@ == error_response(optional(id), code as int, message@),
    {
        JsonRpcResponse {
            jsonrpc: "2.0".to_owned(),
            id,
            result: None,
            error: Some(JsonRpcError { code, message: message.to_owned(), data: None }),
        }
    }

    pub fn method_not_found(id: Option<Value>) -> (r: Self)
        ensures
            r@ == error_response(optional(id), -32601, "Method not found"@),
    {
        Self::error(id, -32601, "Method not found")
    }
}

// MCP

#[derive(Debug)]
pub struct ServerCapabilities {
    pub tools: Option<ToolsCapability>,
}

#[derive(Debug)]
pub struct ToolsCapability {
    pub list_changed: bool,
}

/// The JSON object that announces capabilities.
pub open spec fn capabilities_json(capabilities: ServerCapabilities) -> Json {
    Json::Object(
        seq![
            (
                "tools"@,
                match capabilities.tools {
                    Some(tools) => Json::Object(
                        seq![("listChanged"@, Json::Bool(tools.list_changed))],
                    ),
                    None => Json::Null,
                },
            ),
        ],
    )
}

impl ServerCapabilities {
    pub fn to_value(&self) -> (r: Value)
        ensures
            r@ == capabilities_json(*self),
    {
        let tools: Value = match &self.tools {
            Some(tools) => {
                let mut entries: Vec<(String, Value)> = Vec::new();
                entries.push(("listChanged".to_owned(), Value::Bool(tools.list_changed)));
                proof {
                    assert(entry_members(entries@) =~= seq![
                        ("listChanged"@, Json::Bool(tools.list_changed)),
                    ]);
                }
                Value::object(entries)
            },
            None => Value::Null,
        };
        let ghost inner = tools@;
        let mut entries: Vec<(String, Value)> = Vec::new();
        entries.push(("tools".to_owned(), tools));
        proof {
            assert(entry_members(entries@) =~= seq![("tools"@, inner)]);
        }
        Value::object(entries)
    }
}

#[derive(Debug)]
pub struct ToolDefinition {
    pub name: String,
    pub description: String,
    pub input_schema: InputSchema,
}

#[derive(Debug)]
pub struct InputSchema {
    pub schema_type: String,
    pub properties: Table<PropertySchema>,
    pub required: Vec<String>,
}

#[derive(Debug)]
pub struct PropertySchema {
    pub prop_type: String,
    pub description: String,
    pub default: Option<Value>,
    pub enum_values: Option<Vec<String>>,
}

/// What a [`PropertySchema`] says.
pub struct PropertyView {
    pub prop_type: Seq<char>,
    pub description: Seq<char>,
    pub default: Option<Json>,
    pub enum_values: Option<Seq<Seq<char>>>,
}

/// What a [`ToolDefinition`] says.
pub struct DefinitionView {
    pub name: Seq<char>,
    pub description: Seq<char>,
    pub schema_type: Seq<char>,
    pub properties: Seq<(Seq<char>, PropertyView)>,
    pub required: Seq<Seq<char>>,
}

/// The texts of a list that may be left out.
pub open spec fn optional_texts(list: Option<Vec<String>>) -> Option<Seq<Seq<char>>> {
    match list {
        Some(list) => Some(texts(list@)),
        None => None,
    }
}

impl View for PropertySchema {
    type V = PropertyView;

    open spec fn view(&self) -> PropertyView {
        PropertyView {
            prop_type: self.prop_type@,
            description: self.description@,
            default: optional(self.default),
            enum_values: optional_texts(self.enum_values),
        }
    }
}

/// The properties of a schema by name.
pub open spec fn property_views(rows: Seq<(Seq<char>, PropertySchema)>) -> Seq<
    (Seq<char>, PropertyView),
> {
    rows.map_values(|row: (Seq<char>, PropertySchema)| (row.0, row.1@))
}

impl View for ToolDefinition {
    type V = DefinitionView;

    open spec fn view(&self) -> DefinitionView {
        DefinitionView {
            name: self.name@,
            description: self.description@,
            schema_type: self.input_schema.schema_type@,
            properties: property_views(self.input_schema.properties@),
            required: texts(self.input_schema.required@),
        }
    }
}

/// The JSON array of a list of texts.
pub open spec fn texts_json(list: Seq<Seq<char>>) -> Json {
    Json::Array(list.map_values(|s: Seq<char>| Json::String(s)))
}

/// The JSON object of a property: a default and the values it is limited to are
/// left out where there are none.
pub open spec fn property_json(p: PropertyView) -> Json {
    Json::Object(
        seq![("type"@, Json::String(p.prop_type)), ("description"@, Json::String(p.description))]
            + match p.default {
            Some(j) => seq![("default"@, j)],
            None => Seq::empty(),
        } + match p.enum_values {
            Some(list) => seq![("enum"@, texts_json(list))],
            None => Seq::empty(),
        },
    )
}

/// The JSON object of an input schema: the list of required parameters is left
/// out where it is empty.
pub open spec fn schema_json(
    schema_type: Seq<char>,
    properties: Seq<(Seq<char>, PropertyView)>,
    required: Seq<Seq<char>>,
) -> Json {
    Json::Object(
        seq![
            ("type"@, Json::String(schema_type)),
            (
                "properties"@,
                Json::Object(
                    properties.map_values(
                        |row: (Seq<char>, PropertyView)| (row.0, property_json(row.1)),
                    ),
                ),
            ),
        ] + if required.len() > 0 {
            seq![("required"@, texts_json(required))]
        } else {
            Seq::empty()
        },
    )
}

/// The JSON object of a tool.
pub open spec fn definition_json(d: DefinitionView) -> Json {
    Json::Object(
        seq![
            ("name"@, Json::String(d.name)),
            ("description"@, Json::String(d.description)),
            ("inputSchema"@, schema_json(d.schema_type, d.properties, d.required)),
        ],
    )
}

fn texts_value(list: &Vec<String>) -> (r: Value)
    ensures
        r@ == texts_json(texts(list@)),
{
    let mut values: Vec<Value> = Vec::new();
    let mut i: usize = 0;
    while i < list.len()
        invariant
            i <= list.len(),
            values.len() == i,
            forall|j: int| 0 <= j < i ==> (#[trigger] values@[j])@ == Json::String(list@[j]@),
        decreases list.len() - i,
    {
        values.push(Value::text(&list[i]));
        i = i + 1;
    }
    proof {
        assert(values@.map_values(|v: Value| v@) =~= texts(list@).map_values(
            |s: Seq<char>| Json::String(s),
        ));
    }
    Value::array(values)
}

impl PropertySchema {
    pub fn to_value(&self) -> (r: Value)
        ensures
            r@ == property_json(self@),
    {
        let mut entries: Vec<(String, Value)> = Vec::new();
        entries.push(("type".to_owned(), Value::text(&self.prop_type)));
        entries.push(("description".to_owned(), Value::text(&self.description)));
        if let Some(value) = &self.default {
            entries.push(("default".to_owned(), value.clone()));
        }
        if let Some(list) = &self.enum_values {
            entries.push(("enum".to_owned(), texts_value(list)));
        }
        proof {
            reveal_strlit("type");
            reveal_strlit("description");
            reveal_strlit("default");
            reveal_strlit("enum");
            assert("type"@[0] == 't' && "enum"@[0] == 'e');
            assert("type"@.len() == 4 && "description"@.len() == 11);
            assert("default"@.len() == 7 && "enum"@.len() == 4);
            assert(property_json(self@) == Json::Object(entry_members(entries@))) by {
                assert(property_json(self@)->Object_0 =~= entry_members(entries@));
            }
        }
        Value::object(entries)
    }
}

impl InputSchema {
    /// The JSON object of the schema.
    fn to_value(&self) -> (r: Value)
        ensures
            r@ == schema_json(
                self.schema_type@,
                property_views(self.properties@),
                texts(self.required@),
            ),
    {
        let mut rows: Vec<(String, Value)> = Vec::new();
        let n: usize = self.properties.len();
        let mut i: usize = 0;
        while i < n
            invariant
                i <= n,
                n == self.properties@.len(),
                rows.len() == i,
                forall|j: int|
                    0 <= j < i ==> (#[trigger] rows@[j]).0@ == self.properties@[j].0 && rows@[j].1@
                        == property_json(self.properties@[j].1@),
            decreases n - i,
        {
            rows.push((self.properties.name(i).to_owned(), self.properties.value(i).to_value()));
            i = i + 1;
        }
        let ghost properties = property_views(self.properties@).map_values(
            |row: (Seq<char>, PropertyView)| (row.0, property_json(row.1)),
        );
        proof {
            assert(entry_members(rows@) =~= properties);
            assert forall|i: int, j: int| 0 <= i < j < properties.len() implies (
            #[trigger] properties[i]).0 != (#[trigger] properties[j]).0 by {
                assert(self.properties@[i].0 != self.properties@[j].0);
            }
        }
        let mut entries: Vec<(String, Value)> = Vec::new();
        entries.push(("type".to_owned(), Value::text(&self.schema_type)));
        entries.push(("properties".to_owned(), Value::object(rows)));
        if self.required.len() > 0 {
            entries.push(("required".to_owned(), texts_value(&self.required)));
        }
        proof {
            reveal_strlit("type");
            reveal_strlit("properties");
            reveal_strlit("required");
            assert("type"@.len() == 4 && "properties"@.len() == 10 && "required"@.len() == 8);
            assert(schema_json(
                self.schema_type@,
                property_views(self.properties@),
                texts(self.required@),
            )->Object_0 =~= entry_members(entries@));
        }
        Value::object(entries)
    }
}

impl ToolDefinition {
    pub fn to_value(&self) -> (r: Value)
        ensures
            r@ == definition_json(self@),
    {
        let mut entries: Vec<(String, Value)> = Vec::new();
        entries.push(("name".to_owned(), Value::text(&self.name)));
        entries.push(("description".to_owned(), Value::text(&self.description)));
        entries.push(("inputSchema".to_owned(), self.input_schema.to_value()));
        proof {
            reveal_strlit("name");
            reveal_strlit("description");
            reveal_strlit("inputSchema");
            assert("description"@[0] == 'd' && "inputSchema"@[0] == 'i');
            assert(definition_json(self@)->Object_0 =~= entry_members(entries@));
        }
        Value::object(entries)
    }
}

#[derive(Debug)]
pub struct ToolResult {
    pub content: Vec<ToolResultContent>,
    pub is_error: Option<bool>,
}

#[derive(Debug)]
pub struct ToolResultContent {
    pub content_type: String,
    pub text: String,
}

/// What a [`ToolResultContent`] says.
pub struct ContentView {
    pub content_type: Seq<char>,
    pub text: Seq<char>,
}

/// What a [`ToolResult`] says.
pub struct ResultView {
    pub content: Seq<ContentView>,
    pub is_error: Option<bool>,
}

impl View for ToolResultContent {
    type V = ContentView;

    open spec fn view(&self) -> ContentView {
        ContentView { content_type: self.content_type@, text: self.text@ }
    }
}

impl View for ToolResult {
    type V = ResultView;

    open spec fn view(&self) -> ResultView {
        ResultView {
            content: self.content@.map_values(|c: ToolResultContent| c@),
            is_error: self.is_error,
        }
    }
}

/// The result of a tool that worked.
pub open spec fn text_result(output: Seq<char>) -> ResultView {
    ResultView {
        content: seq![ContentView { content_type: "text"@, text: output }],
        is_error: None,
    }
}

/// The result of a tool that failed.
pub open spec fn error_result(message: Seq<char>) -> ResultView {
    ResultView {
        content: seq![ContentView { content_type: "text"@, text: message }],
        is_error: Some(true),
    }
}

/// The result with a prompt before its other contents, where there is one.
pub open spec fn prompted(result: ResultView, prompt: Option<Seq<char>>) -> ResultView {
    match prompt {
        Some(text) => ResultView {
            content: seq![ContentView { content_type: "text"@, text }] + result.content,
            ..result
        },
        None => result,
    }
}

/// The JSON object of a result: whether it is an error is left out where
/// nothing says so.
pub open spec fn result_json(result: ResultView) -> Json {
    Json::Object(
        seq![
            (
                "content"@,
                Json::Array(
                    result.content.map_values(
                        |c: ContentView|
                            Json::Object(
                                seq![
                                    ("type"@, Json::String(c.content_type)),
                                    ("text"@, Json::String(c.text)),
                                ],
                            ),
                    ),
                ),
            ),
        ] + match result.is_error {
            Some(b) => seq![("isError"@, Json::Bool(b))],
            None => Seq::empty(),
        },
    )
}

impl ToolResult {
    pub fn text(output: &str) -> (r: Self)
        ensures
            r@ == text_result(output@),
    {
        let mut content: Vec<ToolResultContent> = Vec::new();
        content.push(
            ToolResultContent { content_type: "text".to_owned(), text: output.to_owned() },
        );
        let r: ToolResult = ToolResult { content, is_error: None };
        proof {
            assert(r@.content =~= text_result(output@).content);
        }
        r
    }

    pub fn error(msg: &str) -> (r: Self)
        ensures
            r@ == error_result(msg@),
    {
        let mut content: Vec<ToolResultContent> = Vec::new();
        content.push(ToolResultContent { content_type: "text".to_owned(), text: msg.to_owned() });
        let r: ToolResult = ToolResult { content, is_error: Some(true) };
        proof {
            assert(r@.content =~= error_result(msg@).content);
        }
        r
    }

    /// Puts a prompt before the contents.
    pub fn with_prompt(self, prompt: Option<String>) -> (r: Self)
        ensures
            r@ == prompted(self@, optional_text(prompt)),
    {
        let text: String = match prompt {
            Some(text) => text,
            None => return self,
        };
        let ghost before = self@.content;
        let mut content: Vec<ToolResultContent> = Vec::new();
        content.push(ToolResultContent { content_type: "text".to_owned(), text });
        let ghost first = content@[0]@;
        let mut rest: Vec<ToolResultContent> = self.content;
        content.append(&mut rest);
        let r: ToolResult = ToolResult { content, is_error: self.is_error };
        proof {
            assert(r@.content =~= seq![first] + before);
        }
        r
    }

    pub fn to_value(&self) -> (r: Value)
        ensures
            r@ == result_json(self@),
    {
        let ghost f = |c: ContentView|
            Json::Object(
                seq![("type"@, Json::String(c.content_type)), ("text"@, Json::String(c.text))],
            );
        let mut values: Vec<Value> = Vec::new();
        let mut i: usize = 0;
        while i < self.content.len()
            invariant
                i <= self.content.len(),
                values.len() == i,
                f == |c: ContentView|
                    Json::Object(
                        seq![
                            ("type"@, Json::String(c.content_type)),
                            ("text"@, Json::String(c.text)),
                        ],
                    ),
                forall|j: int| 0 <= j < i ==> (#[trigger] values@[j])@ == f(self.content@[j]@),
            decreases self.content.len() - i,
        {
            let part: &ToolResultContent = &self.content[i];
            let mut entries: Vec<(String, Value)> = Vec::new();
            entries.push(("type".to_owned(), Value::text(&part.content_type)));
            entries.push(("text".to_owned(), Value::text(&part.text)));
            proof {
                reveal_strlit("type");
                reveal_strlit("text");
                assert("type"@[1] == 'y' && "text"@[1] == 'e');
                assert(f(part@)->Object_0 =~= entry_members(entries@));
            }
            values.push(Value::object(entries));
            i = i + 1;
        }
        proof {
            assert(values@.map_values(|v: Value| v@) =~= self@.content.map_values(f));
        }
        let mut entries: Vec<(String, Value)> = Vec::new();
        entries.push(("content".to_owned(), Value::array(values)));
        if let Some(b) = self.is_error {
            entries.push(("isError".to_owned(), Value::Bool(b)));
        }
        proof {
            reveal_strlit("content");
            reveal_strlit("isError");
            assert("content"@[0] == 'c' && "isError"@[0] == 'i');
            assert(result_json(self@)->Object_0 =~= entry_members(entries@));
        }
        Value::object(entries)
    }
}

/// The protocol version that the server speaks.
pub const PROTOCOL_VERSION: &'static str = "2024-11-05";

pub const SERVER_NAME: &'static str = "droid-mcp";

pub const SERVER_VERSION: &'static str = "0.1.0";

// Laws

proof fn lemma_members_differ()
    ensures
        "type"@ != "description"@,
        "type"@ != "default"@,
        "type"@ != "enum"@,
        "description"@ != "default"@,
        "description"@ != "enum"@,
        "default"@ != "enum"@,
        "type"@ != "properties"@,
        "type"@ != "required"@,
        "properties"@ != "required"@,
        "name"@ != "description"@,
        "name"@ != "inputSchema"@,
        "description"@ != "inputSchema"@,
        "type"@ != "text"@,
        "content"@ != "isError"@,
{
    reveal_strlit("type");
    reveal_strlit("text");
    reveal_strlit("name");
    reveal_strlit("enum");
    reveal_strlit("description");
    reveal_strlit("default");
    reveal_strlit("properties");
    reveal_strlit("required");
    reveal_strlit("inputSchema");
    reveal_strlit("content");
    reveal_strlit("isError");
    assert("type"@.len() == 4 && "text"@.len() == 4 && "name"@.len() == 4 && "enum"@.len() == 4);
    assert("type"@[0] == 't' && "name"@[0] == 'n' && "enum"@[0] == 'e');
    assert("type"@[1] == 'y' && "text"@[1] == 'e');
    assert("description"@.len() == 11 && "inputSchema"@.len() == 11);
    assert("description"@[0] == 'd' && "inputSchema"@[0] == 'i');
    assert("default"@.len() == 7 && "properties"@.len() == 10 && "required"@.len() == 8);
    assert("content"@[0] == 'c' && "isError"@[0] == 'i');
}

proof fn lemma_first<V>(rows: Seq<(Seq<char>, V)>, i: int)
    requires
        0 <= i < rows.len(),
        forall|j: int| 0 <= j < i ==> (#[trigger] rows[j]).0 != rows[i].0,
    ensures
        lookup(rows, rows[i].0) == Some(rows[i].1),
{
    assert(first_at(rows, rows[i].0, i));
    lemma_lookup_first(rows, rows[i].0, i);
}

/// A tool is announced with its name, its description and its schema, and nothing
/// else.
pub proof fn definition_has_its_members(d: DefinitionView)
    ensures
        json_member(definition_json(d), "name"@) == Some(Json::String(d.name)),
        json_member(definition_json(d), "description"@) == Some(Json::String(d.description)),
        json_member(definition_json(d), "inputSchema"@) == Some(
            schema_json(d.schema_type, d.properties, d.required),
        ),
        definition_json(d)->Object_0.len() == 3,
{
    lemma_members_differ();
    let rows = definition_json(d)->Object_0;
    lemma_first(rows, 0);
    lemma_first(rows, 1);
    lemma_first(rows, 2);
}

/// A schema has its type, the description of each property under its name, and
/// the list of required names exactly where a name is required; the list has
/// those names, in order.
pub proof fn schema_has_its_members(
    schema_type: Seq<char>,
    properties: Seq<(Seq<char>, PropertyView)>,
    required: Seq<Seq<char>>,
)
    ensures
        ({
            let schema = schema_json(schema_type, properties, required);
            &&& json_member(schema, "type"@) == Some(Json::String(schema_type))
            &&& json_member(schema, "properties"@) matches Some(Json::Object(rows)) && rows.len()
                == properties.len() && forall|i: int|
                0 <= i < rows.len() ==> (#[trigger] rows[i]) == (
                    properties[i].0,
                    property_json(properties[i].1),
                )
            &&& json_member(schema, "required"@) is Some <==> required.len() > 0
            &&& required.len() > 0 ==> (json_member(schema, "required"@) matches Some(
                Json::Array(names),
            ) && names.len() == required.len() && forall|i: int|
                0 <= i < names.len() ==> (#[trigger] names[i]) == Json::String(required[i]))
        }),
{
    lemma_members_differ();
    let rows = schema_json(schema_type, properties, required)->Object_0;
    lemma_first(rows, 0);
    lemma_first(rows, 1);
    if required.len() > 0 {
        assert(rows[2].0 == "required"@);
        lemma_first(rows, 2);
    } else {
        assert(rows.len() == 2);
        assert(!has_name(rows, "required"@));
    }
}

/// A property has its type and its description, and a default and the list of
/// values that it is limited to exactly where it has them.
pub proof fn property_has_its_members(p: PropertyView)
    ensures
        json_member(property_json(p), "type"@) == Some(Json::String(p.prop_type)),
        json_member(property_json(p), "description"@) == Some(Json::String(p.description)),
        json_member(property_json(p), "default"@) == p.default,
        match p.enum_values {
            Some(list) => json_member(property_json(p), "enum"@) matches Some(Json::Array(items))
                && items.len() == list.len() && forall|i: int|
                0 <= i < items.len() ==> (#[trigger] items[i]) == Json::String(list[i]),
            None => json_member(property_json(p), "enum"@) is None,
        },
{
    lemma_members_differ();
    let rows = property_json(p)->Object_0;
    lemma_first(rows, 0);
    lemma_first(rows, 1);
    match p.default {
        Some(j) => {
            assert(rows[2] == ("default"@, j));
            lemma_first(rows, 2);
            if p.enum_values is Some {
                assert(rows[3].0 == "enum"@);
                lemma_first(rows, 3);
            } else {
                assert(rows.len() == 3);
                assert(!has_name(rows, "enum"@));
            }
        },
        None => {
            if p.enum_values is Some {
                assert(rows[2].0 == "enum"@);
                lemma_first(rows, 2);
                assert(rows.len() == 3);
            } else {
                assert(rows.len() == 2);
                assert(!has_name(rows, "enum"@));
            }
            assert(!has_name(rows, "default"@));
        },
    }
}

/// The JSON of a result has one item for each of its contents, in order and with
/// the whole text, and says whether it is an error exactly where the result does.
pub proof fn result_has_its_members(result: ResultView)
    ensures
        json_member(result_json(result), "content"@) matches Some(Json::Array(items)) && items.len()
            == result.content.len() && forall|i: int|
            0 <= i < items.len() ==> {
                &&& json_member(#[trigger] items[i], "text"@) == Some(
                    Json::String(result.content[i].text),
                )
                &&& json_member(items[i], "type"@) == Some(
                    Json::String(result.content[i].content_type),
                )
            },
        json_member(result_json(result), "isError"@) == match result.is_error {
            Some(b) => Some(Json::Bool(b)),
            None => None,
        },
{
    lemma_members_differ();
    let rows = result_json(result)->Object_0;
    lemma_first(rows, 0);
    if result.is_error is Some {
        assert(rows[1].0 == "isError"@);
        lemma_first(rows, 1);
    } else {
        assert(rows.len() == 1);
        assert(!has_name(rows, "isError"@));
    }
    let items = rows[0].1->Array_0;
    assert forall|i: int| 0 <= i < items.len() implies {
        &&& json_member(#[trigger] items[i], "text"@) == Some(Json::String(result.content[i].text))
        &&& json_member(items[i], "type"@) == Some(Json::String(result.content[i].content_type))
    } by {
        let parts = items[i]->Object_0;
        lemma_first(parts, 0);
        lemma_first(parts, 1);
    }
}

/// A text that a tool answers is the only content of its result, whole; an error
/// is marked as one and any other text is not.
pub proof fn results_carry_their_text(s: Seq<char>)
    ensures
        text_result(s).content.len() == 1,
        text_result(s).content[0].text == s,
        text_result(s).content[0].content_type == "text"@,
        text_result(s).is_error is None,
        error_result(s).content.len() == 1,
        error_result(s).content[0].text == s,
        error_result(s).content[0].content_type == "text"@,
        error_result(s).is_error == Some(true),
{
}

/// A prompt stands before the other contents of a result, and changes none of
/// them.
pub proof fn prompt_stands_first(result: ResultView, text: Seq<char>)
    ensures
        prompted(result, None) == result,
        prompted(result, Some(text)).content.len() == result.content.len() + 1,
        prompted(result, Some(text)).content[0].text == text,
        prompted(result, Some(text)).content[0].content_type == "text"@,
        prompted(result, Some(text)).content.skip(1) == result.content,
        prompted(result, Some(text)).is_error == result.is_error,
{
    assert(prompted(result, Some(text)).content.skip(1) =~= result.content);
}

/// A response that succeeded carries its result, one that failed its code and its
/// message, and both the id that they are given.
pub proof fn responses_carry_what_they_are_given(
    id: Option<Json>,
    result: Json,
    code: int,
    message: Seq<char>,
)
    ensures
        success_response(id, result).result == Some(result),
        success_response(id, result).error is None,
        success_response(id, result).id == id,
        success_response(id, result).jsonrpc == "2.0"@,
        error_response(id, code, message).result is None,
        error_response(id, code, message).error matches Some(e) && e.code == code && e.message
            == message && e.data is None,
        error_response(id, code, message).id == id,
        error_response(id, code, message).jsonrpc == "2.0"@,
{
}

/// Messages and results are shown as what they hold.
pub proof fn messages_are_shown_as_they_are(
    req: JsonRpcRequest,
    response: JsonRpcResponse,
    error: JsonRpcError,
    result: ToolResult,
    i: int,
)
    requires
        0 <= i < result.content.len(),
    ensures
        req@.id == optional(req.id) && req@.method == req.method@ && req@.params == optional(
            req.params,
        ),
        response@.jsonrpc == response.jsonrpc@ && response@.id == optional(response.id)
            && response@.result == optional(response.result),
        response@.error is Some <==> response.error is Some,
        response.error == Some(error) ==> response@.error == Some(error@),
        error@.code == error.code && error@.message == error.message@ && error@.data == optional(
            error.data,
        ),
        result@.content.len() == result.content.len(),
        result@.content[i].text == result.content[i].text@,
        result@.content[i].content_type == result.content[i].content_type@,
        result@.is_error == result.is_error,
{
}

/// Definitions are shown as what they hold.
pub proof fn definitions_are_shown_as_they_are(d: ToolDefinition, p: PropertySchema, i: int)
    requires
        0 <= i < d.input_schema.properties@.len(),
    ensures
        d@.name == d.name@,
        d@.description == d.description@,
        d@.schema_type == d.input_schema.schema_type@,
        d@.required == texts(d.input_schema.required@),
        d@.properties.len() == d.input_schema.properties@.len(),
        d@.properties[i].0 == d.input_schema.properties@[i].0,
        d@.properties[i].1 == d.input_schema.properties@[i].1@,
        p@.prop_type == p.prop_type@,
        p@.description == p.description@,
        p@.default == optional(p.default),
        p@.enum_values == optional_texts(p.enum_values),
{
}

/// Capabilities tell of the tools whether their list changes, and null where there
/// are none.
pub proof fn capabilities_tell_of_the_tools(capabilities: ServerCapabilities)
    ensures
        match capabilities.tools {
            Some(tools) => json_member(capabilities_json(capabilities), "tools"@) matches Some(told)
                && json_member(told, "listChanged"@) == Some(Json::Bool(tools.list_changed)),
            None => json_member(capabilities_json(capabilities), "tools"@) == Some(Json::Null),
        },
{
    let rows = capabilities_json(capabilities)->Object_0;
    assert(first_at(rows, "tools"@, 0));
    lemma_lookup_first(rows, "tools"@, 0);
    if let Some(tools) = capabilities.tools {
        let inner = rows[0].1->Object_0;
        assert(first_at(inner, "listChanged"@, 0));
        lemma_lookup_first(inner, "listChanged"@, 0);
    }
}

} // verus!
