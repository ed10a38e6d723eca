//! Building a completion request.

use crate::error::ProviderError;
use crate::json::{
    bool_value, copy_value, empty_object, json_list, json_of, list_value, null_value, number_value,
    set_member, text_value, Json,
};
use crate::lists::lemma_filter_step;
use crate::message::{message_json, Message, MessageRole};
use crate::provider::OpenAICompatProvider;
use crate::settings::{
    api_key, bearer, endpoint, number_setting, setting_number, setting_text, text_setting, Settings,
};
use serde_json::Value;
use vstd::prelude::*;
use vstd::string::*;

verus! {

/// A tool that the model may call.
#[derive(Debug, PartialEq)]
pub struct LlmToolDefinition {
    pub name: String,
    pub description: Option<String>,
    pub input_schema: Value,
}

/// A completion request, to be sent with `POST` and a JSON body.
#[derive(Debug, PartialEq)]
pub struct ChatRequest {
    pub url: String,
    pub authorization: String,
    pub body: Value,
}

/// The model that serves a request: the requested one, or else the configured
/// one, or else `gpt-5.4`.
pub open spec fn resolved_model(settings: Settings, model: Seq<char>) -> Seq<char> {
    if model.len() == 0 {
        setting_text(settings.model, "gpt-5.4"@)
    } else {
        model
    }
}

/// The wire form of the system prompt.
pub open spec fn system_json(system: Seq<char>) -> Json {
    Json::Object(
        map![
            "role"@ => Json::Text("system"@),
            "content"@ => Json::Text(system),
        ],
    )
}

/// The messages that are sent as they are: all but those with the system role.
pub open spec fn spoken(messages: Seq<Message>) -> Seq<Message> {
    messages.filter(|message: Message| message.role != MessageRole::System)
}

/// The conversation on the wire: the system prompt first, where there is one,
/// then every message without the system role, in order.
pub open spec fn conversation(system: Seq<char>, messages: Seq<Message>) -> Seq<Json> {
    (if system.len() > 0 {
        seq![system_json(system)]
    } else {
        Seq::empty()
    }) + spoken(messages).map_values(|message: Message| message_json(message))
}

/// The wire form of a tool.
pub open spec fn tool_json(tool: LlmToolDefinition) -> Json {
    Json::Object(
        map![
            "type"@ => Json::Text("function"@),
            "function"@ => Json::Object(map![
                "name"@ => Json::Text(tool.name@),
                "description"@ => match tool.description {
                    Some(description) => Json::Text(description@),
                    None => Json::Null,
                },
                "parameters"@ => json_of(tool.input_schema),
            ]),
        ],
    )
}

/// `members`, with `key` set to `value` where there is one.
pub open spec fn with_member(
    members: Map<Seq<char>, Json>,
    key: Seq<char>,
    value: Option<Json>,
) -> Map<Seq<char>, Json> {
    match value {
        Some(value) => members.insert(key, value),
        None => members,
    }
}

/// The token limit to ask for: 8192 where none is configured, else the configured
/// one, where it is a positive number.
pub open spec fn token_limit(settings: Settings) -> Option<Json> {
    if settings.max_output_tokens is None {
        Some(Json::Unsigned(8192))
    } else {
        match setting_number(settings.max_output_tokens) {
            Some(limit) => if limit > 0 {
                Some(Json::Unsigned(limit))
            } else {
                None
            },
            None => None,
        }
    }
}

/// The temperature to ask for, where one is configured.
pub open spec fn temperature(settings: Settings) -> Option<Json> {
    match settings.temperature {
        Some(value) => Some(json_of(value)),
        None => None,
    }
}

/// The tools to offer, where there are any.
pub open spec fn offered_tools(tools: Seq<LlmToolDefinition>) -> Option<Json> {
    if tools.len() > 0 {
        Some(Json::List(tools.map_values(|tool: LlmToolDefinition| tool_json(tool))))
    } else {
        None
    }
}

/// The members of the body of a completion request.
pub open spec fn body_members(
    settings: Settings,
    model: Seq<char>,
    messages: Seq<Message>,
    tools: Seq<LlmToolDefinition>,
    system: Seq<char>,
) -> Map<Seq<char>, Json> {
    let base =
        map![
        "model"@ => Json::Text(resolved_model(settings, model)),
        "messages"@ => Json::List(conversation(system, messages)),
        "stream"@ => Json::Bool(true),
        "stream_options"@ => Json::Object(map!["include_usage"@ => Json::Bool(true)]),
    ];
    let limited = with_member(base, "max_tokens"@, token_limit(settings));
    let tempered = with_member(limited, "temperature"@, temperature(settings));
    with_member(tempered, "tools"@, offered_tools(tools))
}

/// Converts a tool.
fn convert_tool(tool: &LlmToolDefinition) -> (value: Value)
    ensures
        json_of(value) == tool_json(*tool),
{
    let mut function: Value = empty_object();
    set_member(&mut function, "name", text_value(tool.name.as_str()));
    let description: Value = match &tool.description {
        Some(description) => text_value(description.as_str()),
        None => null_value(),
    };
    set_member(&mut function, "description", description);
    set_member(&mut function, "parameters", copy_value(&tool.input_schema));
    let mut value: Value = empty_object();
    set_member(&mut value, "type", text_value("function"));
    set_member(&mut value, "function", function);
    value
}

impl OpenAICompatProvider {
    /// The model that serves a request.
    pub fn resolve_model(settings: &Settings, model: &str) -> (resolved: String)
        ensures
            resolved@ == resolved_model(*settings, model@),
    {
        if model.is_empty() {
            text_setting(&settings.model, "gpt-5.4")
        } else {
            model.to_owned()
        }
    }

    /// The conversation on the wire.
    pub fn convert_messages(messages: &[Message], system: &str) -> (converted: Vec<Value>)
        ensures
            json_list(converted@) == conversation(system@, messages@),
    {
        let mut converted: Vec<Value> = Vec::new();
        if !system.is_empty() {
            let mut first: Value = empty_object();
            set_member(&mut first, "role", text_value("system"));
            set_member(&mut first, "content", text_value(system));
            converted.push(first);
        }
        let ghost head = json_list(converted@);
        assert(head == if system@.len() > 0 {
            seq![system_json(system@)]
        } else {
            Seq::empty()
        });
        let ghost pred = |message: Message| message.role != MessageRole::System;
        let ghost convert = |message: Message| message_json(message);
        let mut i: usize = 0;
        proof {
            reveal(Seq::filter);
            assert(head + messages@.take(0).filter(pred).map_values(convert) == head);
        }
        while i < messages.len()
            invariant
                i <= messages@.len(),
                pred == (|message: Message| message.role != MessageRole::System),
                convert == (|message: Message| message_json(message)),
                json_list(converted@) == head + messages@.take(i as int).filter(pred).map_values(
                    convert,
                ),
            decreases messages@.len() - i,
        {
            proof {
                lemma_filter_step(messages@, i as int, pred);
            }
            if messages[i].role != MessageRole::System {
                let ghost before = converted@;
                converted.push(Self::convert_message(&messages[i]));
                assert(json_list(converted@) == json_list(before).push(
                    message_json(messages@[i as int]),
                ));
            }
            i = i + 1;
        }
        assert(messages@.take(messages@.len() as int) == messages@);
        converted
    }

    /// The body of a completion request.
    pub fn request_body(
        settings: &Settings,
        model: &str,
        messages: &[Message],
        tools: &[LlmToolDefinition],
        system: &str,
    ) -> (body: Value)
        ensures
            json_of(body) == Json::Object(
                body_members(*settings, model@, messages@, tools@, system@),
            ),
    {
        let mut body: Value = empty_object();
        set_member(&mut body, "model", text_value(Self::resolve_model(settings, model).as_str()));
        set_member(&mut body, "messages", list_value(Self::convert_messages(messages, system)));
        set_member(&mut body, "stream", bool_value(true));
        let mut options: Value = empty_object();
        set_member(&mut options, "include_usage", bool_value(true));
        set_member(&mut body, "stream_options", options);
        let configured: Option<u64> = if settings.max_output_tokens.is_none() {
            Some(8192)
        } else {
            number_setting(&settings.max_output_tokens)
        };
        if let Some(limit) = configured {
            if limit > 0 {
                set_member(&mut body, "max_tokens", number_value(limit));
            }
        }
        if let Some(value) = &settings.temperature {
            set_member(&mut body, "temperature", copy_value(value));
        }
        if tools.len() > 0 {
            let mut items: Vec<Value> = Vec::new();
            let mut i: usize = 0;
            while i < tools.len()
                invariant
                    i <= tools@.len(),
                    items@.len() == i,
                    forall|j: int|
                        0 <= j < i ==> json_of(#[trigger] items@[j]) == tool_json(tools@[j]),
                decreases tools@.len() - i,
            {
                items.push(convert_tool(&tools[i]));
                i = i + 1;
            }
            assert(json_list(items@) == tools@.map_values(
                |tool: LlmToolDefinition| tool_json(tool),
            ));
            set_member(&mut body, "tools", list_value(items));
        }
        body
    }

    /// The completion request for a conversation; an error where no API key is
    /// configured.
    pub fn build_request(
        settings: &Settings,
        model: &str,
        messages: &[Message],
        tools: &[LlmToolDefinition],
        system: &str,
    ) -> (result: Result<ChatRequest, ProviderError>)
        ensures
            match result {
                Ok(request) => {
                    &&& api_key(*settings).len() > 0
                    &&& request.url@ == endpoint(*settings, "/v1/chat/completions"@)
                    &&& request.authorization@ == bearer(api_key(*settings))
                    &&& json_of(request.body) == Json::Object(
                        body_members(*settings, model@, messages@, tools@, system@),
                    )
                },
                Err(error) => error is ApiKeyMissing && api_key(*settings).len() == 0,
            },
    {
        let url: String = settings.endpoint_url("/v1/chat/completions");
        let body: Value = Self::request_body(settings, model, messages, tools, system);
        match settings.authorization() {
            Some(authorization) => Ok(ChatRequest { url, authorization, body }),
            None => Err(ProviderError::ApiKeyMissing),
        }
    }
}

} // verus!
