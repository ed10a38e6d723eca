//! Conversation messages, and their Chat Completions JSON form.

use crate::json::{
    compact_text, empty_object, integral_within, json_list, json_of, list_value, null_value,
    parse_value, parsed_json, set_member, text_value, value_compact, value_text, Json, MAX_NESTING,
};
use crate::provider::OpenAICompatProvider;
use crate::text::joined;
use serde_json::Value;
use vstd::prelude::*;
use vstd::string::*;

verus! {

/// A message of the conversation.
#[derive(Debug, PartialEq)]
pub struct Message {
    pub role: MessageRole,
    pub content: MessageContent,
}

/// Who speaks.
#[derive(Clone, Copy, Debug, PartialEq, Eq, Structural)]
pub enum MessageRole {
    System,
    User,
    Assistant,
    Tool,
}

/// What is said.
#[derive(Debug, PartialEq)]
pub enum MessageContent {
    /// Plain text.
    Text(String),
    /// Calls of tools.
    ToolCalls(Vec<ToolCall>),
    /// What a tool answered.
    ToolResult(ToolCallResult),
    /// Text and images.
    MultiPart(Vec<ContentPart>),
}

/// A part of multi-part content.
#[derive(Debug, PartialEq)]
pub enum ContentPart {
    Text { text: String },
    /// An image: its data in base64, and its MIME type.
    Image { data: String, media_type: String },
}

/// A call of a tool.
#[derive(Debug, PartialEq)]
pub struct ToolCall {
    pub id: String,
    pub name: String,
    pub arguments: Value,
}

/// The result of a tool call.
#[derive(Debug, PartialEq)]
pub struct ToolCallResult {
    pub call_id: String,
    pub content: String,
    pub is_error: bool,
}

/// The wire name of a role.
pub open spec fn role_text(role: MessageRole) -> Seq<char> {
    match role {
        MessageRole::System => "system"@,
        MessageRole::User => "user"@,
        MessageRole::Assistant => "assistant"@,
        MessageRole::Tool => "tool"@,
    }
}

/// The arguments of a tool call as text: a JSON string stands for itself, any
/// other value for its compact JSON text.
pub open spec fn arguments_text(arguments: Json) -> Seq<char> {
    match arguments {
        Json::Text(text) => text,
        _ => compact_text(arguments),
    }
}

/// Whether the text of a call's arguments gives them back: a JSON string is the
/// text itself, and any other value is what the text reads as. A value with a
/// number that is no integer, or nested too deeply to be read, is left out.
pub open spec fn arguments_read_back(arguments: Json) -> bool {
    match arguments {
        Json::Text(text) => arguments_text(arguments) == text,
        _ => integral_within(arguments, MAX_NESTING as nat) ==> parsed_json(
            arguments_text(arguments),
        ) == Some(arguments),
    }
}

/// The wire form of a tool call, given its arguments as text.
pub open spec fn call_json(id: Seq<char>, name: Seq<char>, arguments: Seq<char>) -> Json {
    Json::Object(
        map![
            "id"@ => Json::Text(id),
            "type"@ => Json::Text("function"@),
            "function"@ => Json::Object(map![
                "name"@ => Json::Text(name),
                "arguments"@ => Json::Text(arguments),
            ]),
        ],
    )
}

/// The wire form of a tool call.
pub open spec fn tool_call_json(call: ToolCall) -> Json {
    call_json(call.id@, call.name@, arguments_text(json_of(call.arguments)))
}

/// The wire form of a content part; an image becomes a data URL.
pub open spec fn part_json(part: ContentPart) -> Json {
    match part {
        ContentPart::Text { text } => Json::Object(
            map![
                "type"@ => Json::Text("text"@),
                "text"@ => Json::Text(text@),
            ],
        ),
        ContentPart::Image { data, media_type } => Json::Object(
            map![
                "type"@ => Json::Text("image_url"@),
                "image_url"@ => Json::Object(map![
                    "url"@ => Json::Text("data:"@ + media_type@ + ";base64,"@ + data@),
                ]),
            ],
        ),
    }
}

/// The wire form of a message.
pub open spec fn message_json(message: Message) -> Json {
    match message.content {
        MessageContent::Text(text) => Json::Object(
            map![
                "role"@ => Json::Text(role_text(message.role)),
                "content"@ => Json::Text(text@),
            ],
        ),
        MessageContent::ToolCalls(calls) => Json::Object(
            map![
                "role"@ => Json::Text("assistant"@),
                "content"@ => Json::Null,
                "tool_calls"@ => Json::List(
                    calls@.map_values(|call: ToolCall| tool_call_json(call)),
                ),
            ],
        ),
        MessageContent::ToolResult(result) => Json::Object(
            map![
                "role"@ => Json::Text("tool"@),
                "tool_call_id"@ => Json::Text(result.call_id@),
                "content"@ => Json::Text(result.content@),
            ],
        ),
        MessageContent::MultiPart(parts) => Json::Object(
            map![
                "role"@ => Json::Text(role_text(message.role)),
                "content"@ => Json::List(parts@.map_values(|part: ContentPart| part_json(part))),
            ],
        ),
    }
}

/// Converts a tool call: arguments that are a JSON string are sent as they are,
/// others as their JSON text.
fn convert_tool_call(call: &ToolCall) -> (value: Value)
    ensures
        json_of(value) == tool_call_json(*call),
        arguments_read_back(json_of(call.arguments)),
{
    match value_text(&call.arguments) {
        Some(text) => OpenAICompatProvider::tool_call_value(
            call.id.as_str(),
            call.name.as_str(),
            text,
        ),
        None => OpenAICompatProvider::tool_call_value(
            call.id.as_str(),
            call.name.as_str(),
            value_compact(&call.arguments).as_str(),
        ),
    }
}

/// Converts a content part.
fn convert_part(part: &ContentPart) -> (value: Value)
    ensures
        json_of(value) == part_json(*part),
{
    let mut value: Value = empty_object();
    match part {
        ContentPart::Text { text } => {
            set_member(&mut value, "type", text_value("text"));
            set_member(&mut value, "text", text_value(text.as_str()));
        },
        ContentPart::Image { data, media_type } => {
            let mut url: String = joined("data:", media_type.as_str());
            url.append(";base64,");
            url.append(data.as_str());
            let mut image: Value = empty_object();
            set_member(&mut image, "url", text_value(url.as_str()));
            set_member(&mut value, "type", text_value("image_url"));
            set_member(&mut value, "image_url", image);
        },
    }
    value
}

impl OpenAICompatProvider {
    /// The wire name of a role.
    pub fn role_str(role: MessageRole) -> (text: &'static str)
        ensures
            text@ == role_text(role),
    {
        match role {
            MessageRole::System => "system",
            MessageRole::User => "user",
            MessageRole::Assistant => "assistant",
            MessageRole::Tool => "tool",
        }
    }

    /// The wire form of a tool call, given its arguments as text.
    pub fn tool_call_value(id: &str, name: &str, arguments: &str) -> (value: Value)
        ensures
            json_of(value) == call_json(id@, name@, arguments@),
    {
        let mut function: Value = empty_object();
        set_member(&mut function, "name", text_value(name));
        set_member(&mut function, "arguments", text_value(arguments));
        let mut value: Value = empty_object();
        set_member(&mut value, "id", text_value(id));
        set_member(&mut value, "type", text_value("function"));
        set_member(&mut value, "function", function);
        value
    }

    /// The value that the text of a call's arguments reads as; `None` where it is
    /// no JSON text.
    pub fn read_arguments(text: &str) -> (arguments: Option<Value>)
        ensures
            match arguments {
                Some(value) => parsed_json(text@) == Some(json_of(value)),
                None => parsed_json(text@) is None,
            },
    {
        parse_value(text)
    }

    /// Converts a message to the Chat Completions JSON format. The text of each
    /// tool call's arguments gives them back.
    pub fn convert_message(message: &Message) -> (value: Value)
        ensures
            json_of(value) == message_json(*message),
            message.content matches MessageContent::ToolCalls(calls) ==> forall|i: int|
                0 <= i < calls@.len() ==> arguments_read_back(
                    json_of((#[trigger] calls@[i]).arguments),
                ),
    {
        let mut value: Value = empty_object();
        match &message.content {
            MessageContent::Text(text) => {
                set_member(&mut value, "role", text_value(Self::role_str(message.role)));
                set_member(&mut value, "content", text_value(text.as_str()));
            },
            MessageContent::ToolCalls(calls) => {
                let mut items: Vec<Value> = Vec::new();
                let mut i: usize = 0;
                while i < calls.len()
                    invariant
                        i <= calls@.len(),
                        items@.len() == i,
                        forall|j: int|
                            0 <= j < i ==> json_of(#[trigger] items@[j]) == tool_call_json(calls@[j]),
                        forall|j: int|
                            0 <= j < i ==> arguments_read_back(
                                json_of((#[trigger] calls@[j]).arguments),
                            ),
                    decreases calls@.len() - i,
                {
                    items.push(convert_tool_call(&calls[i]));
                    i = i + 1;
                }
                assert(json_list(items@) == calls@.map_values(
                    |call: ToolCall| tool_call_json(call),
                ));
                set_member(&mut value, "role", text_value("assistant"));
                set_member(&mut value, "content", null_value());
                set_member(&mut value, "tool_calls", list_value(items));
            },
            MessageContent::ToolResult(result) => {
                set_member(&mut value, "role", text_value("tool"));
                set_member(&mut value, "tool_call_id", text_value(result.call_id.as_str()));
                set_member(&mut value, "content", text_value(result.content.as_str()));
            },
            MessageContent::MultiPart(parts) => {
                let mut items: Vec<Value> = Vec::new();
                let mut i: usize = 0;
                while i < parts.len()
                    invariant
                        i <= parts@.len(),
                        items@.len() == i,
                        forall|j: int|
                            0 <= j < i ==> json_of(#[trigger] items@[j]) == part_json(parts@[j]),
                    decreases parts@.len() - i,
                {
                    items.push(convert_part(&parts[i]));
                    i = i + 1;
                }
                assert(json_list(items@) == parts@.map_values(
                    |part: ContentPart| part_json(part),
                ));
                set_member(&mut value, "role", text_value(Self::role_str(message.role)));
                set_member(&mut value, "content", list_value(items));
            },
        }
        value
    }
}

} // verus!
