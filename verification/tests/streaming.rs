use astrid_capsule_openai_compat::error::ProviderError;
use astrid_capsule_openai_compat::models::STREAM_TOPIC;
use astrid_capsule_openai_compat::provider::OpenAICompatProvider;
use astrid_capsule_openai_compat::response::Refusal;
use astrid_capsule_openai_compat::sse::{Next, SseStream, MAX_LINE_BUFFER_SIZE};
use astrid_capsule_openai_compat::stream::{
    ChatCompletionChunk, ChunkChoice, ChunkDelta, ChunkUsage, FunctionDelta, StreamEvent,
    ToolCallDelta,
};

fn some(text: &str) -> Option<String> {
    Some(text.to_string())
}

fn chunk(
    content: Option<&str>,
    calls: Option<Vec<ToolCallDelta>>,
    finish: Option<&str>,
) -> ChatCompletionChunk {
    ChatCompletionChunk {
        choices: vec![ChunkChoice {
            delta: ChunkDelta {
                content: content.map(str::to_string),
                tool_calls: calls,
            },
            finish_reason: finish.map(str::to_string),
        }],
        usage: None,
    }
}

fn call(index: usize, id: Option<&str>, name: Option<&str>, args: Option<&str>) -> ToolCallDelta {
    ToolCallDelta {
        index,
        id: id.map(str::to_string),
        function: Some(FunctionDelta {
            name: name.map(str::to_string),
            arguments: args.map(str::to_string),
        }),
    }
}

fn text(t: &str) -> StreamEvent {
    StreamEvent::TextDelta(t.to_string())
}

fn start(id: &str, name: &str) -> StreamEvent {
    StreamEvent::ToolCallStart { id: id.to_string(), name: name.to_string() }
}

fn delta(id: &str, args: &str) -> StreamEvent {
    StreamEvent::ToolCallDelta { id: id.to_string(), args_delta: args.to_string() }
}

fn end(id: &str) -> StreamEvent {
    StreamEvent::ToolCallEnd { id: id.to_string() }
}

/// Parsing for these tests: text behind a `#` is no chunk, other text is a text delta.
fn parse(data: &str) -> Option<ChatCompletionChunk> {
    if data.starts_with('#') {
        None
    } else {
        Some(chunk(Some(data), None, None))
    }
}

/// Runs a stream over the given reads: the events, and whether it was completed.
fn run(reads: &[&[u8]]) -> (Vec<StreamEvent>, bool) {
    let mut sse = SseStream::new();
    let mut reads = reads.iter();
    let mut events = Vec::new();
    let mut next = Next::Read;
    loop {
        let step = match next {
            Next::Read => match reads.next() {
                Some(bytes) => sse.on_bytes(bytes).expect("within the limit"),
                None => return (events, false),
            },
            Next::Parse(data) => sse.on_parsed(parse(&data)),
            Next::Stop => return (events, true),
        };
        events.extend(step.events);
        next = step.next;
    }
}

#[test]
fn lines_become_payloads() {
    let response = b": comment\n\ndata: a\r\ndata: #junk\nevent: x\ndata:b\ndata: c\r\r\n\n\
        data: [DONE]\ndata: d\n";
    assert_eq!(run(&[&response[..]]), (vec![text("a"), text("c"), StreamEvent::Done], true));
}

#[test]
fn the_cut_into_reads_does_not_matter() {
    let response = "data: \u{e9}t\u{e9}\r\n\r\ndata: b\n\ndata: [DONE]\n\n";
    let whole = run(&[response.as_bytes()]);
    assert_eq!(whole, (vec![text("\u{e9}t\u{e9}"), text("b"), StreamEvent::Done], true));
    for i in 0..=response.len() {
        for j in i..=response.len() {
            if response.is_char_boundary(i) && response.is_char_boundary(j) {
                let bytes = response.as_bytes();
                assert_eq!(run(&[&bytes[..i], &bytes[i..j], &bytes[j..]]), whole);
            }
        }
    }
}

#[test]
fn a_character_cut_by_a_read_is_replaced() {
    let bytes = "data: \u{e9}\n".as_bytes();
    assert_eq!(
        run(&[&bytes[..7], &bytes[7..]]),
        (vec![text("\u{fffd}\u{fffd}")], false)
    );
    assert_eq!(run(&[b"data: a\xff\n"]), (vec![text("a\u{fffd}")], false));
}

#[test]
fn an_incomplete_line_is_left_waiting() {
    assert_eq!(run(&[b"data: a\ndata: [DONE]"]), (vec![text("a")], false));
    assert_eq!(run(&[b"data: a\ndata: [DONE]", b"\n"]), (vec![text("a"), StreamEvent::Done], true));
}

#[test]
fn an_empty_payload_is_parsed_too() {
    let mut sse = SseStream::new();
    let step = sse.on_text("data: \n").unwrap();
    assert_eq!(step.next, Next::Parse(String::new()));
    assert!(step.events.is_empty());
    let step = sse.on_text("data: [DONE] \n").unwrap();
    assert_eq!(step.next, Next::Parse("[DONE] ".to_string()));
}

#[test]
fn the_line_buffer_has_a_limit() {
    let mut sse = SseStream::new();
    let full = "x".repeat(MAX_LINE_BUFFER_SIZE);
    assert_eq!(sse.on_text(&full).unwrap().next, Next::Read);
    assert_eq!(sse.on_text("x"), Err(ProviderError::LineBufferExceeded));

    // The limit is in bytes, and a newline in the same read does not help.
    let mut sse = SseStream::new();
    let wide = "\u{e9}".repeat(MAX_LINE_BUFFER_SIZE / 2);
    assert!(sse.on_text(&wide).is_ok());
    assert_eq!(sse.on_bytes(b"\n"), Err(ProviderError::LineBufferExceeded));
    assert_eq!(MAX_LINE_BUFFER_SIZE, 1024 * 1024);
}

#[test]
fn text_and_usage_are_reported() {
    let mut tools = Vec::new();
    let mut c = chunk(Some("hi"), None, Some("stop"));
    c.usage = Some(ChunkUsage { prompt_tokens: 3, completion_tokens: 5 });
    assert_eq!(
        OpenAICompatProvider::process_chunk(&c, &mut tools),
        vec![StreamEvent::Usage { input_tokens: 3, output_tokens: 5 }, text("hi")]
    );
    c.choices.clear();
    assert_eq!(
        OpenAICompatProvider::process_chunk(&c, &mut tools),
        vec![StreamEvent::Usage { input_tokens: 3, output_tokens: 5 }]
    );
    assert!(OpenAICompatProvider::process_chunk(&chunk(Some(""), None, None), &mut tools).is_empty());
    assert!(tools.is_empty());
}

#[test]
fn only_the_first_choice_is_followed() {
    let mut c = chunk(Some("one"), None, None);
    c.choices.push(ChunkChoice {
        delta: ChunkDelta { content: some("two"), tool_calls: None },
        finish_reason: None,
    });
    assert_eq!(OpenAICompatProvider::process_chunk(&c, &mut Vec::new()), vec![text("one")]);
}

#[test]
fn parallel_tool_calls_are_followed() {
    let mut tools = Vec::new();
    let mut go = |c: &ChatCompletionChunk| OpenAICompatProvider::process_chunk(c, &mut tools);
    assert_eq!(
        go(&chunk(
            None,
            Some(vec![
                call(1, Some("b"), Some("g"), Some("")),
                call(0, Some("a"), Some("f"), Some("{")),
            ]),
            None
        )),
        vec![start("b", "g"), start("a", "f"), delta("a", "{")]
    );
    assert_eq!(
        go(&chunk(None, Some(vec![call(1, None, None, Some("[]")), call(0, None, None, Some("}"))]), None)),
        vec![delta("b", "[]"), delta("a", "}")]
    );
    // An entry is there for every index up to the highest; one without an id is
    // not ended.
    assert_eq!(go(&chunk(None, Some(vec![call(3, Some("d"), None, None)]), None)), vec![]);
    assert_eq!(
        go(&chunk(Some("t"), None, Some("tool_calls"))),
        vec![text("t"), end("a"), end("b"), end("d")]
    );
    assert!(tools.is_empty());
}

#[test]
fn another_finish_reason_ends_no_calls() {
    let mut tools = vec![("a".to_string(), "f".to_string())];
    for reason in ["stop", "tool_call", "tool_calls "] {
        assert!(OpenAICompatProvider::process_chunk(&chunk(None, None, Some(reason)), &mut tools)
            .is_empty());
    }
    assert_eq!(tools.len(), 1);
}

#[test]
fn a_name_without_an_id_starts_a_nameless_call() {
    let mut tools = Vec::new();
    let c = chunk(None, Some(vec![call(0, None, Some("f"), Some("x"))]), None);
    assert_eq!(
        OpenAICompatProvider::process_chunk(&c, &mut tools),
        vec![start("", "f"), delta("", "x")]
    );
    let no_function = ToolCallDelta { index: 0, id: some("late"), function: None };
    assert!(OpenAICompatProvider::process_chunk(&chunk(None, Some(vec![no_function]), None), &mut tools)
        .is_empty());
    assert_eq!(tools, vec![("late".to_string(), "f".to_string())]);
}

#[test]
fn tool_calls_go_through_the_stream() {
    let mut sse = SseStream::new();
    let step = sse.on_text("data: 1\ndata: 2\ndata: [DONE]\n").unwrap();
    assert_eq!(step.next, Next::Parse("1".to_string()));
    let first = chunk(None, Some(vec![call(0, Some("a"), Some("f"), None)]), None);
    let step = sse.on_parsed(Some(first));
    assert_eq!(step.events, vec![start("a", "f")]);
    assert_eq!(step.next, Next::Parse("2".to_string()));
    let step = sse.on_parsed(Some(chunk(None, None, Some("tool_calls"))));
    assert_eq!(step.events, vec![end("a"), StreamEvent::Done]);
    assert_eq!(step.next, Next::Stop);
}

#[test]
fn an_index_without_room_does_not_fit() {
    assert!(chunk(None, Some(vec![call(7, None, None, None)]), None).fits());
    assert!(!chunk(None, Some(vec![call(0, None, None, None), call(usize::MAX, None, None, None)]), None)
        .fits());
    assert!(ChatCompletionChunk { choices: Vec::new(), usage: None }.fits());
}

#[test]
fn status_200_is_no_refusal() {
    assert!(Refusal::for_status(200).is_none());
    assert!(Refusal::for_status(201).is_some());
    assert!(Refusal::for_status(429).is_some());
}

#[test]
fn a_refusal_becomes_an_error() {
    let mut refusal = Refusal::for_status(429).unwrap();
    assert_eq!(refusal.push_bytes(b"slow "), Some(false));
    assert_eq!(refusal.push_bytes(b"down\xff"), Some(false));
    let error = refusal.into_error();
    assert_eq!(error.message(), "API error (429): slow down\u{fffd}");
}

#[test]
fn a_long_refusal_is_cut() {
    let mut refusal = Refusal::for_status(500).unwrap();
    assert_eq!(refusal.push_bytes("a".repeat(4096).as_bytes()), Some(false));
    assert_eq!(refusal.push_bytes(b"bc"), Some(true));
    match refusal.into_error() {
        ProviderError::Api { status, body } => {
            assert_eq!(status, 500);
            assert_eq!(body, "a".repeat(4096));
        }
        other => panic!("{other:?}"),
    }
}

#[test]
fn a_refusal_is_not_cut_inside_a_character() {
    let mut refusal = Refusal::for_status(500).unwrap();
    assert_eq!(refusal.push_bytes("a".repeat(4095).as_bytes()), Some(false));
    assert_eq!(refusal.push_bytes("\u{e9}".as_bytes()), None);
    assert_eq!(refusal.push_bytes(b"b"), Some(false));
    assert!(refusal.push_text("c"));
}

/// The error of a refusal with the given reads for its body.
fn refused(reads: &[&[u8]]) -> Option<ProviderError> {
    let reads: Vec<Vec<u8>> = reads.iter().map(|read| read.to_vec()).collect();
    Refusal::for_status(500).unwrap().into_error_after(&reads)
}

#[test]
fn reads_do_not_change_a_refusal() {
    let api = |body: &str| Some(ProviderError::Api { status: 500, body: body.to_string() });
    assert_eq!(refused(&[]), api(""));
    assert_eq!(refused(&[b"", b"slow ", b"down"]), api("slow down"));
    let body = "ab\u{e9}".repeat(1025);
    let bytes = body.as_bytes();
    assert_eq!(bytes.len(), 4100);
    let kept = api(&body[..4096]);
    assert_eq!(refused(&[bytes]), kept);
    assert_eq!(refused(&[&bytes[..4], &bytes[4..4096], &bytes[4096..]]), kept);
    // What follows a full body is not looked at.
    assert_eq!(refused(&[bytes, b"more"]), kept);
    assert_eq!(refused(&[&bytes[..4096]]), kept);
}

#[test]
fn a_body_cut_inside_a_character_gives_no_error() {
    let body = format!("{}\u{e9}bc", "a".repeat(4095));
    let bytes = body.as_bytes();
    assert_eq!(refused(&[bytes]), None);
    assert_eq!(refused(&[&bytes[..4000], &bytes[4000..4097], &bytes[4097..]]), None);
    // Every shorter prefix is kept whole.
    assert!(refused(&[&bytes[..4095]]).is_some());
}

#[test]
fn errors_have_their_messages() {
    assert_eq!(ProviderError::ApiKeyMissing.message(), "api_key not configured");
    assert_eq!(
        ProviderError::LineBufferExceeded.message(),
        "SSE line buffer exceeded maximum size"
    );
    assert_eq!(ProviderError::NoModels.message(), "/v1/models returned no models");
    for status in [0, 7, 10, 404, 1000, 65535] {
        assert_eq!(
            ProviderError::ModelsStatus(status).message(),
            format!("/v1/models returned status {status}")
        );
    }
    assert_eq!(ProviderError::Sdk("why".to_string()).message(), "why");
}

#[test]
fn errors_are_reported_as_the_sdk_words_them() {
    assert_eq!(
        ProviderError::ApiKeyMissing.report(),
        "API logic error: api_key not configured"
    );
    assert_eq!(
        ProviderError::ModelsStatus(503).report(),
        "API logic error: /v1/models returned status 503"
    );
    let error = ProviderError::Api { status: 429, body: "slow down".to_string() };
    assert_eq!(error.report(), "API logic error: API error (429): slow down");
    // What the SDK says of its own failures stands as it is.
    let text = "Host function call failed: Timeout";
    assert_eq!(ProviderError::Sdk(text.to_string()).report(), text);
}

#[test]
fn failures_are_published_for_their_request() {
    let id = uuid::Uuid::from_u128(7);
    assert!(OpenAICompatProvider.handle_llm_request(id, Ok(())).is_none());
    let report = OpenAICompatProvider
        .handle_llm_request(id, Err(ProviderError::LineBufferExceeded))
        .unwrap();
    assert_eq!(report.topic, "llm.v1.stream.openai-compat");
    assert_eq!(report.request_id, id);
    assert_eq!(
        report.event,
        StreamEvent::Error(
            "API logic error: SSE line buffer exceeded maximum size".to_string()
        )
    );
    let report = OpenAICompatProvider
        .handle_llm_request(id, Err(ProviderError::Sdk("broken".to_string())))
        .unwrap();
    assert_eq!(report.event, StreamEvent::Error("broken".to_string()));
}

#[test]
fn events_are_published_on_the_stream_topic() {
    let id = uuid::Uuid::from_u128(9);
    let publication = OpenAICompatProvider::publish_stream(id, text("x"));
    assert_eq!(publication.topic, STREAM_TOPIC);
    assert_eq!(publication.request_id, id);
    assert_eq!(publication.event, text("x"));
}

#[test]
fn a_whole_stream_is_followed() {
    let reads = vec![
        b"data: a\ndata: #no".to_vec(),
        b" chunk\n: comment\ndata: b\r".to_vec(),
        b"\ndata: [DONE]\ndata: c\n".to_vec(),
        b"data: d\n".to_vec(),
    ];
    let (events, outcome) = SseStream::follow(&reads, parse);
    assert_eq!(events, vec![text("a"), text("b"), StreamEvent::Done]);
    assert_eq!(outcome, Ok(()));
    // Without an end, the stream ends with its reads.
    let (events, outcome) = SseStream::follow(&reads[..1], parse);
    assert_eq!(events, vec![text("a")]);
    assert_eq!(outcome, Ok(()));
    assert_eq!(SseStream::follow(&[], parse), (vec![], Ok(())));
}

#[test]
fn a_followed_stream_is_given_up_with_its_events() {
    let reads = vec![
        b"data: a\n".to_vec(),
        vec![b'x'; MAX_LINE_BUFFER_SIZE],
        b"y\ndata: b\n".to_vec(),
    ];
    let (events, outcome) = SseStream::follow(&reads, parse);
    assert_eq!(events, vec![text("a")]);
    assert_eq!(outcome, Err(ProviderError::LineBufferExceeded));
    let (events, outcome) = SseStream::follow(&reads[..2], parse);
    assert_eq!(events, vec![text("a")]);
    assert_eq!(outcome, Ok(()));
}
