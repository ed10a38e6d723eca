//! What holds of requests: of their messages, their tools and their settings.

use crate::json::{compact_text, json_list, json_of, Json};
use crate::lists::lemma_filter_step;
use crate::message::{
    message_json, part_json, role_text, ContentPart, Message, MessageContent, MessageRole,
};
use crate::request::{body_members, conversation, spoken, LlmToolDefinition};
use crate::settings::{api_key, bearer, endpoint, Settings};
use crate::text::{parsed_u64, trimmed_end};
use serde_json::Value;
use vstd::prelude::*;

verus! {

/// Whether a JSON value is an object with exactly the members `keys`.
pub open spec fn has_members(json: Json, keys: Set<Seq<char>>) -> bool {
    json matches Json::Object(members) && members.dom() == keys
}

/// The member `key` of a JSON object.
pub open spec fn member(json: Json, key: Seq<char>) -> Json {
    json->Object_0[key]
}

/// The words of messages and tools are distinct: by their lengths, or else by a
/// character.
proof fn lemma_words()
    ensures
        "id"@.len() == 2,
        "url"@.len() == 3,
        "role"@.len() == 4 && "role"@[0] == 'r',
        "type"@.len() == 4 && "type"@[0] == 't' && "type"@[1] == 'y',
        "text"@.len() == 4 && "text"@[0] == 't' && "text"@[1] == 'e',
        "name"@.len() == 4 && "name"@[0] == 'n',
        "content"@.len() == 7,
        "function"@.len() == 8,
        "arguments"@.len() == 9 && "arguments"@[0] == 'a',
        "image_url"@.len() == 9 && "image_url"@[0] == 'i',
        "tool_calls"@.len() == 10 && "tool_calls"@[0] == 't',
        "parameters"@.len() == 10 && "parameters"@[0] == 'p',
        "description"@.len() == 11,
        "tool_call_id"@.len() == 12,
{
    reveal_strlit("id");
    reveal_strlit("url");
    reveal_strlit("role");
    reveal_strlit("type");
    reveal_strlit("text");
    reveal_strlit("name");
    reveal_strlit("content");
    reveal_strlit("function");
    reveal_strlit("arguments");
    reveal_strlit("image_url");
    reveal_strlit("tool_calls");
    reveal_strlit("parameters");
    reveal_strlit("description");
    reveal_strlit("tool_call_id");
}

/// Each role has its name on the wire, and no two share one.
pub proof fn roles_have_their_own_names(some: MessageRole, other: MessageRole)
    ensures
        role_text(MessageRole::System) == "system"@,
        role_text(MessageRole::User) == "user"@,
        role_text(MessageRole::Assistant) == "assistant"@,
        role_text(MessageRole::Tool) == "tool"@,
        some != other ==> role_text(some) != role_text(other),
{
    reveal_strlit("system");
    reveal_strlit("user");
    reveal_strlit("assistant");
    reveal_strlit("tool");
    assert("system"@.len() == 6 && "user"@.len() == 4 && "assistant"@.len() == 9 && "tool"@.len()
        == 4);
    assert("user"@[0] == 'u' && "tool"@[0] == 't');
}

/// A text message is sent as its role and its text, and nothing else.
pub proof fn text_messages_are_sent_whole(message: Message)
    requires
        message.content is Text,
    ensures
        has_members(message_json(message), set!["role"@, "content"@]),
        member(message_json(message), "role"@) == Json::Text(role_text(message.role)),
        member(message_json(message), "content"@) == Json::Text(message.content->Text_0@),
{
    lemma_words();
    assert(message_json(message)->Object_0.dom() == set!["role"@, "content"@]);
}

/// A tool's answer is sent under the id of the call that it answers, with the role
/// of a tool, and nothing else.
pub proof fn tool_results_are_sent_whole(message: Message)
    requires
        message.content is ToolResult,
    ensures
        has_members(message_json(message), set!["role"@, "tool_call_id"@, "content"@]),
        member(message_json(message), "role"@) == Json::Text("tool"@),
        member(message_json(message), "tool_call_id"@) == Json::Text(
            message.content->ToolResult_0.call_id@,
        ),
        member(message_json(message), "content"@) == Json::Text(
            message.content->ToolResult_0.content@,
        ),
{
    lemma_words();
    assert(message_json(message)->Object_0.dom() == set!["role"@, "tool_call_id"@, "content"@]);
}

/// Tool calls are sent as the assistant's, every one in its place, with its id, its
/// name and the text of its arguments.
pub proof fn tool_calls_are_sent_whole(message: Message, i: int)
    requires
        message.content is ToolCalls,
    ensures
        has_members(message_json(message), set!["role"@, "content"@, "tool_calls"@]),
        member(message_json(message), "role"@) == Json::Text("assistant"@),
        member(message_json(message), "content"@) == Json::Null,
        member(message_json(message), "tool_calls"@) is List,
        ({
            let calls = message.content->ToolCalls_0@;
            let sent = member(message_json(message), "tool_calls"@)->List_0;
            &&& sent.len() == calls.len()
            &&& 0 <= i < calls.len() ==> {
                let function = member(sent[i], "function"@);
                &&& has_members(sent[i], set!["id"@, "type"@, "function"@])
                &&& member(sent[i], "id"@) == Json::Text(calls[i].id@)
                &&& member(sent[i], "type"@) == Json::Text("function"@)
                &&& has_members(function, set!["name"@, "arguments"@])
                &&& member(function, "name"@) == Json::Text(calls[i].name@)
                &&& member(function, "arguments"@) == if json_of(calls[i].arguments) is Text {
                    json_of(calls[i].arguments)
                } else {
                    Json::Text(compact_text(json_of(calls[i].arguments)))
                }
            }
        }),
{
    lemma_words();
    assert(message_json(message)->Object_0.dom() == set!["role"@, "content"@, "tool_calls"@]);
    let calls = message.content->ToolCalls_0@;
    let sent = member(message_json(message), "tool_calls"@)->List_0;
    if 0 <= i < calls.len() {
        assert(sent[i]->Object_0.dom() == set!["id"@, "type"@, "function"@]);
        assert(member(sent[i], "function"@)->Object_0.dom() == set!["name"@, "arguments"@]);
    }
}

/// A message in parts is sent with its role and every part in its place. A text part
/// gives its text. The URL of an image part gives the part back: behind `data:`
/// stands the media type, then `;base64,`, then the data.
pub proof fn parts_are_sent_whole(message: Message, i: int)
    requires
        message.content is MultiPart,
    ensures
        has_members(message_json(message), set!["role"@, "content"@]),
        member(message_json(message), "role"@) == Json::Text(role_text(message.role)),
        member(message_json(message), "content"@) is List,
        ({
            let parts = message.content->MultiPart_0@;
            let sent = member(message_json(message), "content"@)->List_0;
            &&& sent.len() == parts.len()
            &&& 0 <= i < parts.len() ==> match parts[i] {
                ContentPart::Text { text } => {
                    &&& has_members(sent[i], set!["type"@, "text"@])
                    &&& member(sent[i], "type"@) == Json::Text("text"@)
                    &&& member(sent[i], "text"@) == Json::Text(text@)
                },
                ContentPart::Image { data, media_type } => {
                    let image = member(sent[i], "image_url"@);
                    &&& has_members(sent[i], set!["type"@, "image_url"@])
                    &&& member(sent[i], "type"@) == Json::Text("image_url"@)
                    &&& has_members(image, set!["url"@])
                    &&& member(image, "url"@) is Text
                    &&& url_gives_back(member(image, "url"@)->Text_0, media_type@, data@)
                },
            }
        }),
{
    lemma_words();
    assert(message_json(message)->Object_0.dom() == set!["role"@, "content"@]);
    let parts = message.content->MultiPart_0@;
    let sent = member(message_json(message), "content"@)->List_0;
    if 0 <= i < parts.len() {
        assert(sent[i] == part_json(parts[i]));
        match parts[i] {
            ContentPart::Text { text } => {
                assert(sent[i]->Object_0.dom() == set!["type"@, "text"@]);
            },
            ContentPart::Image { data, media_type } => {
                assert(sent[i]->Object_0.dom() == set!["type"@, "image_url"@]);
                let image = member(sent[i], "image_url"@);
                assert(image->Object_0.dom() == set!["url"@]);
                lemma_image_url(media_type@, data@);
            },
        }
    }
}

/// Whether a data URL holds a media type and data in base64, each in its place.
pub open spec fn url_gives_back(url: Seq<char>, media_type: Seq<char>, data: Seq<char>) -> bool {
    let n = media_type.len() as int;
    &&& url.len() == 5 + n + 8 + data.len()
    &&& url.subrange(0, 5) == "data:"@
    &&& url.subrange(5, 5 + n) == media_type
    &&& url.subrange(5 + n, 13 + n) == ";base64,"@
    &&& url.subrange(13 + n, url.len() as int) == data
}

/// The pieces of a data URL stand where they should.
proof fn lemma_image_url(media_type: Seq<char>, data: Seq<char>)
    ensures
        url_gives_back("data:"@ + media_type + ";base64,"@ + data, media_type, data),
{
    reveal_strlit("data:");
    reveal_strlit(";base64,");
    assert("data:"@.len() == 5 && ";base64,"@.len() == 8);
    let url = "data:"@ + media_type + ";base64,"@ + data;
    let n = media_type.len() as int;
    assert(url.subrange(0, 5) == "data:"@);
    assert(url.subrange(5, 5 + n) == media_type);
    assert(url.subrange(5 + n, 13 + n) == ";base64,"@);
    assert(url.subrange(13 + n, url.len() as int) == data);
}

/// The kind of a part is told by its type.
proof fn lemma_part_type(part: ContentPart)
    ensures
        part is Image ==> member(part_json(part), "type"@) == Json::Text("image_url"@),
        part is Text ==> member(part_json(part), "type"@) == Json::Text("text"@),
{
    lemma_words();
}

/// Images that differ in their media type alone, or in their data alone, are sent
/// differently, and no image is sent as a text is.
pub proof fn different_parts_are_sent_differently(some: ContentPart, other: ContentPart)
    requires
        part_json(some) == part_json(other),
    ensures
        some is Image == other is Image,
        some is Image && some->data@ == other->data@ ==> some->media_type@ == other->media_type@,
        some is Image && some->media_type@ == other->media_type@ ==> some->data@ == other->data@,
        some is Text ==> some->text@ == other->text@,
{
    lemma_words();
    lemma_part_type(some);
    lemma_part_type(other);
    if some is Image && other is Image {
        lemma_image_url(some->media_type@, some->data@);
        lemma_image_url(other->media_type@, other->data@);
        let one = "data:"@ + some->media_type@ + ";base64,"@ + some->data@;
        let two = "data:"@ + other->media_type@ + ";base64,"@ + other->data@;
        assert(member(member(part_json(some), "image_url"@), "url"@) == Json::Text(one));
        assert(member(member(part_json(other), "image_url"@), "url"@) == Json::Text(two));
        assert(one == two);
    } else if some is Text && other is Text {
        assert(member(part_json(some), "text"@) == Json::Text(some->text@));
        assert(member(part_json(other), "text"@) == Json::Text(other->text@));
    }
}

/// How many of some messages have the role of the user, of the assistant or of a
/// tool.
pub open spec fn speaking(messages: Seq<Message>) -> nat
    decreases messages.len(),
{
    if messages.len() == 0 {
        0
    } else {
        speaking(messages.drop_last()) + match messages.last().role {
            MessageRole::User => 1nat,
            MessageRole::Assistant => 1,
            MessageRole::Tool => 1,
            MessageRole::System => 0,
        }
    }
}

/// What is kept of some messages is as many as speak.
proof fn lemma_spoken_len(messages: Seq<Message>)
    ensures
        spoken(messages).len() == speaking(messages),
    decreases messages.len(),
{
    reveal(Seq::filter);
    if messages.len() > 0 {
        lemma_spoken_len(messages.drop_last());
    }
}

/// A conversation is sent as its system prompt, where that is not empty, and one
/// message for each of the user's, the assistant's and the tools'.
pub proof fn every_speaking_message_is_sent(system: Seq<char>, messages: Seq<Message>)
    ensures
        conversation(system, messages).len() == speaking(messages) + if system.len() > 0 {
            1nat
        } else {
            0
        },
        system.len() > 0 ==> {
            let prompt = conversation(system, messages)[0];
            &&& has_members(prompt, set!["role"@, "content"@])
            &&& member(prompt, "role"@) == Json::Text("system"@)
            &&& member(prompt, "content"@) == Json::Text(system)
        },
{
    lemma_words();
    lemma_spoken_len(messages);
    if system.len() > 0 {
        let prompt = conversation(system, messages)[0];
        assert(prompt->Object_0.dom() == set!["role"@, "content"@]);
    }
}

/// Every message of the user, the assistant or a tool is sent, behind the system
/// prompt and those that spoke before it.
pub proof fn every_message_is_sent_in_its_place(
    system: Seq<char>,
    messages: Seq<Message>,
    i: int,
)
    requires
        0 <= i < messages.len(),
        ({
            ||| messages[i].role is User
            ||| messages[i].role is Assistant
            ||| messages[i].role is Tool
        }),
    ensures
        ({
            let at = speaking(messages.take(i)) as int + if system.len() > 0 {
                1int
            } else {
                0
            };
            &&& at < conversation(system, messages).len()
            &&& conversation(system, messages)[at] == message_json(messages[i])
        }),
{
    let pred = |message: Message| message.role != MessageRole::System;
    let upto = messages.take(i + 1);
    let rest = messages.skip(i + 1);
    lemma_filter_step(messages, i, pred);
    lemma_spoken_len(messages.take(i));
    assert(messages == upto + rest);
    Seq::filter_distributes_over_add(upto, rest, pred);
    assert(spoken(messages) == spoken(upto) + spoken(rest));
    assert(spoken(upto) == spoken(messages.take(i)).push(messages[i]));
    assert(spoken(messages)[speaking(messages.take(i)) as int] == messages[i]);
}

/// One message more, at the end, is one more on the wire, unless it has the role of
/// the system: then nothing changes.
pub proof fn a_further_message_is_sent_last(
    system: Seq<char>,
    messages: Seq<Message>,
    message: Message,
)
    ensures
        conversation(system, messages.push(message)) == match message.role {
            MessageRole::System => conversation(system, messages),
            _ => conversation(system, messages).push(message_json(message)),
        },
{
    let pred = |message: Message| message.role != MessageRole::System;
    let more = messages.push(message);
    lemma_filter_step(more, messages.len() as int, pred);
    assert(more.take(messages.len() as int) == messages);
    assert(more.take(messages.len() as int + 1) == more);
    assert(conversation(system, more) == match message.role {
        MessageRole::System => conversation(system, messages),
        _ => conversation(system, messages).push(message_json(message)),
    });
}

/// The member names of a request, by their lengths, or else by a character.
proof fn lemma_body_words()
    ensures
        "model"@.len() == 5 && "model"@[0] == 'm',
        "tools"@.len() == 5 && "tools"@[0] == 't',
        "stream"@.len() == 6,
        "messages"@.len() == 8,
        "max_tokens"@.len() == 10,
        "temperature"@.len() == 11,
        "stream_options"@.len() == 14,
{
    reveal_strlit("model");
    reveal_strlit("tools");
    reveal_strlit("stream");
    reveal_strlit("messages");
    reveal_strlit("max_tokens");
    reveal_strlit("temperature");
    reveal_strlit("stream_options");
}

/// A request names the model that was asked for, or else the configured one, or
/// else `gpt-5.4`.
pub proof fn requests_name_their_model(
    settings: Settings,
    model: Seq<char>,
    messages: Seq<Message>,
    tools: Seq<LlmToolDefinition>,
    system: Seq<char>,
)
    ensures
        ({
            let named = body_members(settings, model, messages, tools, system)["model"@];
            &&& model.len() > 0 ==> named == Json::Text(model)
            &&& model.len() == 0 && settings.model is Some ==> named == Json::Text(
                settings.model->0@,
            )
            &&& model.len() == 0 && settings.model is None ==> named == Json::Text("gpt-5.4"@)
        }),
{
    lemma_body_words();
}

/// A request asks for a stream with usage, holds the whole conversation, and has no
/// member but those that a completion request may have.
pub proof fn requests_have_their_members(
    settings: Settings,
    model: Seq<char>,
    messages: Seq<Message>,
    tools: Seq<LlmToolDefinition>,
    system: Seq<char>,
)
    ensures
        ({
            let members = body_members(settings, model, messages, tools, system);
            &&& set!["model"@, "messages"@, "stream"@, "stream_options"@].subset_of(members.dom())
            &&& members.dom().subset_of(
                set![
                    "model"@,
                    "messages"@,
                    "stream"@,
                    "stream_options"@,
                    "max_tokens"@,
                    "temperature"@,
                    "tools"@,
                ],
            )
            &&& members["messages"@] == Json::List(conversation(system, messages))
            &&& members["stream"@] == Json::Bool(true)
            &&& has_members(members["stream_options"@], set!["include_usage"@])
            &&& member(members["stream_options"@], "include_usage"@) == Json::Bool(true)
        }),
{
    lemma_body_words();
    let members = body_members(settings, model, messages, tools, system);
    assert(members["stream_options"@]->Object_0.dom() == set!["include_usage"@]);
}

/// A request holds the configured token limit where it spells a positive number,
/// none where it spells anything else, and 8192 where it is not set.
pub proof fn requests_hold_their_token_limit(
    settings: Settings,
    model: Seq<char>,
    messages: Seq<Message>,
    tools: Seq<LlmToolDefinition>,
    system: Seq<char>,
)
    ensures
        ({
            let members = body_members(settings, model, messages, tools, system);
            let held = members.dom().contains("max_tokens"@);
            match settings.max_output_tokens {
                None => held && members["max_tokens"@] == Json::Unsigned(8192),
                Some(text) => match parsed_u64(text@) {
                    Some(number) => {
                        &&& held == (number > 0)
                        &&& held ==> members["max_tokens"@] == Json::Unsigned(number)
                    },
                    None => !held,
                },
            }
        }),
{
    lemma_body_words();
}

/// A request holds the configured temperature as it is, where there is one.
pub proof fn requests_hold_their_temperature(
    settings: Settings,
    model: Seq<char>,
    messages: Seq<Message>,
    tools: Seq<LlmToolDefinition>,
    system: Seq<char>,
)
    ensures
        ({
            let members = body_members(settings, model, messages, tools, system);
            &&& members.dom().contains("temperature"@) == settings.temperature is Some
            &&& settings.temperature matches Some(value) ==> members["temperature"@] == json_of(
                value,
            )
        }),
{
    lemma_body_words();
}

/// A request offers every tool in its place, with its name, its description and its
/// parameters; without tools it has no such member.
pub proof fn requests_offer_every_tool(
    settings: Settings,
    model: Seq<char>,
    messages: Seq<Message>,
    tools: Seq<LlmToolDefinition>,
    system: Seq<char>,
    i: int,
)
    ensures
        ({
            let members = body_members(settings, model, messages, tools, system);
            &&& members.dom().contains("tools"@) == (tools.len() > 0)
            &&& tools.len() > 0 ==> {
                &&& members["tools"@] matches Json::List(offered)
                &&& offered.len() == tools.len()
                &&& 0 <= i < tools.len() ==> {
                    let function = member(offered[i], "function"@);
                    &&& has_members(offered[i], set!["type"@, "function"@])
                    &&& member(offered[i], "type"@) == Json::Text("function"@)
                    &&& has_members(function, set!["name"@, "description"@, "parameters"@])
                    &&& member(function, "name"@) == Json::Text(tools[i].name@)
                    &&& member(function, "parameters"@) == json_of(tools[i].input_schema)
                    &&& match tools[i].description {
                        Some(text) => member(function, "description"@) == Json::Text(text@),
                        None => member(function, "description"@) == Json::Null,
                    }
                }
            }
        }),
{
    lemma_body_words();
    lemma_words();
    let members = body_members(settings, model, messages, tools, system);
    if 0 <= i < tools.len() {
        let offered = members["tools"@]->List_0;
        let function = member(offered[i], "function"@);
        assert(offered[i]->Object_0.dom() == set!["type"@, "function"@]);
        assert(function->Object_0.dom() == set!["name"@, "description"@, "parameters"@]);
    }
}

/// The address of a path is the configured origin, or else OpenAI's, up to the
/// slashes at its end, and then the path.
pub proof fn addresses_are_origin_and_path(settings: Settings, path: Seq<char>)
    ensures
        ({
            let origin = if settings.base_url is Some {
                settings.base_url->0@
            } else {
                "https://api.openai.com"@
            };
            let url = endpoint(settings, path);
            let n = url.len() - path.len();
            &&& 0 <= n <= origin.len()
            &&& url.take(n) == origin.take(n)
            &&& url.skip(n) == path
            &&& forall|i: int| n <= i < origin.len() ==> #[trigger] origin[i] == '/'
            &&& n > 0 ==> origin[n - 1] != '/'
        }),
{
    let origin = if settings.base_url is Some {
        settings.base_url->0@
    } else {
        "https://api.openai.com"@
    };
    let url = endpoint(settings, path);
    lemma_trimmed_end(origin, '/');
    assert(url.skip(url.len() - path.len()) == path);
    assert(url.take(url.len() - path.len()) == trimmed_end(origin, '/'));
}

/// Trimming takes off the whole run at the end, and nothing else.
pub proof fn lemma_trimmed_end(s: Seq<char>, c: char)
    ensures
        trimmed_end(s, c).len() <= s.len(),
        trimmed_end(s, c) == s.take(trimmed_end(s, c).len() as int),
        forall|i: int| trimmed_end(s, c).len() <= i < s.len() ==> #[trigger] s[i] == c,
        trimmed_end(s, c).len() > 0 ==> s[trimmed_end(s, c).len() - 1] != c,
    decreases s.len(),
{
    if s.len() > 0 && s.last() == c {
        let head = s.drop_last();
        lemma_trimmed_end(head, c);
        let n = trimmed_end(s, c).len() as int;
        assert(head.take(n) == s.take(n));
        assert forall|i: int| n <= i < s.len() implies #[trigger] s[i] == c by {
            if i < head.len() {
                assert(head[i] == s[i]);
            }
        }
        assert(n > 0 ==> head[n - 1] == s[n - 1]);
    } else {
        assert(s.take(s.len() as int) == s);
    }
}

/// The configured key is sent as it is, behind `Bearer` and a space; no key is the
/// empty key.
pub proof fn the_key_is_sent_as_it_is(settings: Settings)
    ensures
        settings.api_key matches Some(key) ==> api_key(settings) == key@,
        settings.api_key is None ==> api_key(settings).len() == 0,
        bearer(api_key(settings)).len() == 7 + api_key(settings).len(),
        bearer(api_key(settings)).take(7) == "Bearer "@,
        bearer(api_key(settings)).skip(7) == api_key(settings),
{
    reveal_strlit("Bearer ");
    assert("Bearer "@.len() == 7);
    assert(bearer(api_key(settings)).take(7) == "Bearer "@);
    assert(bearer(api_key(settings)).skip(7) == api_key(settings));
}

/// Lists of JSON values are read element by element.
pub proof fn json_lists_are_read_in_order(values: Seq<Value>, i: int)
    ensures
        json_list(values).len() == values.len(),
        0 <= i < values.len() ==> json_list(values)[i] == json_of(values[i]),
{
}

} // verus!
