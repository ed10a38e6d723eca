use astrid_capsule_openai_compat::error::ProviderError;
use astrid_capsule_openai_compat::json::MAX_NESTING;
use astrid_capsule_openai_compat::message::{
    ContentPart, Message, MessageContent, MessageRole, ToolCall, ToolCallResult,
};
use astrid_capsule_openai_compat::provider::OpenAICompatProvider;
use astrid_capsule_openai_compat::request::LlmToolDefinition;
use astrid_capsule_openai_compat::settings::Settings;
use serde_json::Value;

fn json(text: &str) -> Value {
    serde_json::from_str(text).unwrap()
}

fn text_message(role: MessageRole, text: &str) -> Message {
    Message {
        role,
        content: MessageContent::Text(text.to_string()),
    }
}

fn settings() -> Settings {
    Settings {
        api_key: Some("key".to_string()),
        base_url: None,
        model: None,
        context_window: None,
        max_output_tokens: None,
        temperature: None,
    }
}

fn some(text: &str) -> Option<String> {
    Some(text.to_string())
}

#[test]
fn roles_have_their_wire_names() {
    assert_eq!(OpenAICompatProvider::role_str(MessageRole::System), "system");
    assert_eq!(OpenAICompatProvider::role_str(MessageRole::User), "user");
    assert_eq!(OpenAICompatProvider::role_str(MessageRole::Assistant), "assistant");
    assert_eq!(OpenAICompatProvider::role_str(MessageRole::Tool), "tool");
}

#[test]
fn text_messages_are_converted() {
    assert_eq!(
        OpenAICompatProvider::convert_message(&text_message(MessageRole::User, "hi \"you\"")),
        json(r#"{ "role": "user", "content": "hi \"you\"" }"#)
    );
}

#[test]
fn tool_calls_are_converted_with_textual_arguments() {
    let message = Message {
        // The role on the wire is the assistant's, whatever the message says.
        role: MessageRole::User,
        content: MessageContent::ToolCalls(vec![
            ToolCall {
                id: "1".to_string(),
                name: "f".to_string(),
                arguments: json(r#"{ "b": [1, -2, 2.5, null, true], "a": "x" }"#),
            },
            ToolCall {
                id: "2".to_string(),
                name: "g".to_string(),
                arguments: Value::from("{ \"as\": \"is\" }"),
            },
        ]),
    };
    let value = OpenAICompatProvider::convert_message(&message);
    assert_eq!(value["role"], "assistant");
    assert!(value.get("content").unwrap().is_null());
    let calls = value["tool_calls"].as_array().unwrap();
    assert_eq!(calls.len(), 2);
    assert_eq!(calls[0]["id"], "1");
    assert_eq!(calls[0]["type"], "function");
    assert_eq!(calls[0]["function"]["name"], "f");
    assert_eq!(
        calls[0]["function"]["arguments"],
        "{\"a\":\"x\",\"b\":[1,-2,2.5,null,true]}"
    );
    assert_eq!(calls[1]["function"]["arguments"], "{ \"as\": \"is\" }");
    assert_eq!(value.as_object().unwrap().len(), 3);
}

/// The arguments of the only call of a converted message with these arguments.
fn sent_arguments(arguments: &Value) -> String {
    let message = Message {
        role: MessageRole::Assistant,
        content: MessageContent::ToolCalls(vec![ToolCall {
            id: "1".to_string(),
            name: "f".to_string(),
            arguments: arguments.clone(),
        }]),
    };
    let value = OpenAICompatProvider::convert_message(&message);
    value["tool_calls"][0]["function"]["arguments"].as_str().unwrap().to_string()
}

#[test]
fn arguments_read_back_from_their_text() {
    for text in [
        "null",
        "true",
        "0",
        "18446744073709551615",
        "-9223372036854775808",
        "[]",
        r#"{ "b": [1, [-2, null]], "": { "a\n\u0000\"": "\u00e9\ud83d\ude00" } }"#,
    ] {
        let arguments = json(text);
        let sent = sent_arguments(&arguments);
        assert_eq!(OpenAICompatProvider::read_arguments(&sent), Some(arguments), "{text}");
    }
    // A string is sent as it is, JSON text or not.
    assert_eq!(sent_arguments(&Value::from("no { json")), "no { json");
    assert_eq!(OpenAICompatProvider::read_arguments("no { json"), None);
    assert_eq!(OpenAICompatProvider::read_arguments(""), None);
}

#[test]
fn arguments_read_back_up_to_the_nesting_limit() {
    let nested = |levels: u8| {
        let mut value = Value::from(1);
        for _ in 0..levels {
            value = Value::Array(vec![value]);
        }
        value
    };
    let deepest = nested(MAX_NESTING);
    let sent = sent_arguments(&deepest);
    assert_eq!(OpenAICompatProvider::read_arguments(&sent), Some(deepest));
    let sent = sent_arguments(&nested(MAX_NESTING + 1));
    assert_eq!(OpenAICompatProvider::read_arguments(&sent), None);
}

#[test]
fn a_tool_call_value_holds_its_parts() {
    assert_eq!(
        OpenAICompatProvider::tool_call_value("i", "n", "a"),
        json(r#"{ "id": "i", "type": "function", "function": { "name": "n", "arguments": "a" } }"#)
    );
}

#[test]
fn tool_results_are_converted() {
    let message = Message {
        role: MessageRole::User,
        content: MessageContent::ToolResult(ToolCallResult {
            call_id: "1".to_string(),
            content: "done".to_string(),
            is_error: true,
        }),
    };
    assert_eq!(
        OpenAICompatProvider::convert_message(&message),
        json(r#"{ "role": "tool", "tool_call_id": "1", "content": "done" }"#)
    );
}

#[test]
fn multi_part_messages_are_converted() {
    let message = Message {
        role: MessageRole::User,
        content: MessageContent::MultiPart(vec![
            ContentPart::Text { text: "look".to_string() },
            ContentPart::Image {
                data: "QUJD".to_string(),
                media_type: "image/png".to_string(),
            },
        ]),
    };
    assert_eq!(
        OpenAICompatProvider::convert_message(&message),
        json(
            r#"{ "role": "user", "content": [
                { "type": "text", "text": "look" },
                { "type": "image_url", "image_url": { "url": "data:image/png;base64,QUJD" } }
            ] }"#
        )
    );
}

#[test]
fn the_system_prompt_is_first_and_alone() {
    let messages = vec![
        text_message(MessageRole::User, "a"),
        text_message(MessageRole::System, "dropped"),
        text_message(MessageRole::Assistant, "b"),
    ];
    let with = OpenAICompatProvider::convert_messages(&messages, "prompt");
    assert_eq!(
        with,
        vec![
            json(r#"{ "role": "system", "content": "prompt" }"#),
            json(r#"{ "role": "user", "content": "a" }"#),
            json(r#"{ "role": "assistant", "content": "b" }"#),
        ]
    );
    assert_eq!(OpenAICompatProvider::convert_messages(&messages, ""), with[1..].to_vec());
}

#[test]
fn the_model_is_resolved_in_order() {
    let mut s = settings();
    assert_eq!(OpenAICompatProvider::resolve_model(&s, ""), "gpt-5.4");
    assert_eq!(OpenAICompatProvider::resolve_model(&s, "asked"), "asked");
    s.model = some("configured");
    assert_eq!(OpenAICompatProvider::resolve_model(&s, ""), "configured");
    assert_eq!(OpenAICompatProvider::resolve_model(&s, "asked"), "asked");
}

#[test]
fn a_bare_request_holds_what_is_required() {
    let request =
        OpenAICompatProvider::build_request(&settings(), "", &[], &[], "").expect("request");
    assert_eq!(request.url, "https://api.openai.com/v1/chat/completions");
    assert_eq!(request.authorization, "Bearer key");
    assert_eq!(
        request.body,
        json(
            r#"{ "model": "gpt-5.4", "messages": [], "stream": true,
                 "stream_options": { "include_usage": true },
                 "max_tokens": 8192 }"#
        )
    );
}

#[test]
fn options_are_held_where_given() {
    let mut s = settings();
    s.base_url = some("https://api.groq.com/openai//");
    s.max_output_tokens = some("512");
    s.temperature = Some(json("0.5"));
    let tools = vec![
        LlmToolDefinition {
            name: "f".to_string(),
            description: some("does f"),
            input_schema: json(r#"{ "type": "object" }"#),
        },
        LlmToolDefinition {
            name: "g".to_string(),
            description: None,
            input_schema: Value::Null,
        },
    ];
    let messages = vec![text_message(MessageRole::User, "a")];
    let request =
        OpenAICompatProvider::build_request(&s, "m", &messages, &tools, "p").expect("request");
    assert_eq!(request.url, "https://api.groq.com/openai/v1/chat/completions");
    assert_eq!(
        request.body,
        json(
            r#"{ "model": "m",
                 "messages": [ { "role": "system", "content": "p" },
                               { "role": "user", "content": "a" } ],
                 "stream": true,
                 "stream_options": { "include_usage": true },
                 "max_tokens": 512,
                 "temperature": 0.5,
                 "tools": [
                    { "type": "function", "function": {
                        "name": "f", "description": "does f", "parameters": { "type": "object" } } },
                    { "type": "function", "function": {
                        "name": "g", "description": null, "parameters": null } } ] }"#
        )
    );
}

#[test]
fn token_limits_that_are_no_positive_number_are_left_out() {
    for text in ["0", "", "-1", "many", "1 ", "18446744073709551616"] {
        let mut s = settings();
        s.max_output_tokens = some(text);
        let body = OpenAICompatProvider::request_body(&s, "m", &[], &[], "");
        assert!(body.get("max_tokens").is_none(), "{text}");
    }
    for (text, limit) in [("1", 1), ("+7", 7), ("007", 7), ("18446744073709551615", u64::MAX)] {
        let mut s = settings();
        s.max_output_tokens = some(text);
        let body = OpenAICompatProvider::request_body(&s, "m", &[], &[], "");
        assert_eq!(body["max_tokens"].as_u64(), Some(limit), "{text}");
    }
}

#[test]
fn a_missing_api_key_is_an_error() {
    for key in [None, some("")] {
        let mut s = settings();
        s.api_key = key;
        assert_eq!(
            OpenAICompatProvider::build_request(&s, "m", &[], &[], ""),
            Err(ProviderError::ApiKeyMissing)
        );
        assert_eq!(OpenAICompatProvider::models_request(&s).authorization, None);
    }
}

#[test]
fn the_catalogue_is_asked_for_at_the_same_origin() {
    let mut s = settings();
    s.base_url = some("https://api.mistral.ai/");
    let request = OpenAICompatProvider::models_request(&s);
    assert_eq!(request.url, "https://api.mistral.ai/v1/models");
    assert_eq!(request.authorization, some("Bearer key"));
}

#[test]
fn slashes_behind_the_origin_make_no_difference_to_urls() {
    let mut s = settings();
    for base in ["https://a", "https://a/", "https://a///"] {
        s.base_url = some(base);
        assert_eq!(s.endpoint_url("/p"), "https://a/p");
    }
    s.base_url = some("//");
    assert_eq!(s.endpoint_url("/p"), "/p");
}

#[test]
fn the_descriptor_lists_the_discovered_models() {
    let mut s = settings();
    s.model = some("b");
    s.context_window = some("1000");
    let response = OpenAICompatProvider
        .llm_describe(&s, Ok(vec!["a".to_string(), "b".to_string()]));
    assert_eq!(response.as_object().unwrap().len(), 1);
    let providers = response["providers"].as_array().unwrap();
    assert_eq!(providers.len(), 2);
    assert_eq!(providers[0]["id"], "b");
    assert_eq!(providers[1]["id"], "a");
    assert_eq!(providers[0]["context_window"], 1000);
    assert_eq!(providers[0]["max_output_tokens"], 8192);
}

#[test]
fn the_descriptor_falls_back_to_the_default_model() {
    let failed = || Err(ProviderError::NoModels);
    let mut s = settings();
    s.context_window = some("lots");
    s.max_output_tokens = some("4096");
    let response = OpenAICompatProvider.llm_describe(&s, failed());
    let providers = response["providers"].as_array().unwrap();
    assert_eq!(providers.len(), 1);
    assert_eq!(providers[0]["id"], "gpt-5.4");
    assert_eq!(providers[0]["context_window"], 128000);
    assert_eq!(providers[0]["max_output_tokens"], 4096);
    s.model = some("mine");
    let response = OpenAICompatProvider.llm_describe(&s, failed());
    assert_eq!(response["providers"][0]["id"], "mine");
}

#[test]
fn the_descriptor_without_settings_holds_the_defaults() {
    let response = OpenAICompatProvider.llm_describe(&settings(), Err(ProviderError::NoModels));
    let providers = response["providers"].as_array().unwrap();
    assert_eq!(providers.len(), 1);
    assert_eq!(providers[0]["id"], "gpt-5.4");
    assert_eq!(providers[0]["context_window"], 128000);
    assert_eq!(providers[0]["max_output_tokens"], 8192);
}
