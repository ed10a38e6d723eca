use astrid_capsule_openai_compat::error::ProviderError;
use astrid_capsule_openai_compat::models::{ModelInfo, ModelList, ModelsAnswer};
use astrid_capsule_openai_compat::provider::OpenAICompatProvider;
use serde_json::Value;

const REQUEST_TOPIC: &str = "llm.v1.request.generate.openai-compat";

/// Reads a catalogue body: the `id` of every element of `data`.
fn parse_models(body: &str) -> Result<ModelList, String> {
    let value: Value = serde_json::from_str(body).map_err(|e| e.to_string())?;
    let data = value["data"].as_array().ok_or("no data")?;
    let mut list = ModelList { data: Vec::new() };
    for model in data {
        let id = model["id"].as_str().ok_or("no id")?;
        list.data.push(ModelInfo { id: id.to_string() });
    }
    Ok(list)
}

/// Helper: collect the `id` field of every provider entry, in order.
fn ids(entries: &[Value]) -> Vec<String> {
    entries
        .iter()
        .map(|e| e["id"].as_str().unwrap().to_string())
        .collect()
}

fn strings(texts: &[&str]) -> Vec<String> {
    texts.iter().map(|t| t.to_string()).collect()
}

#[test]
fn parse_models_body_yields_one_entry_per_id() {
    // Representative `/v1/models` body with vendor-specific extra fields and
    // an ollama-style colon id alongside a real OpenAI-style id.
    let body = r#"{
            "object": "list",
            "data": [
                { "id": "gpt-5.4", "object": "model", "owned_by": "openai" },
                { "id": "llama3.3:70b", "object": "model", "owned_by": "library" },
                { "id": "mixtral-8x7b", "object": "model", "created": 1700000000 }
            ]
        }"#;
    let list: ModelList = parse_models(body).expect("parse model list");
    assert_eq!(list.data.len(), 3);
    // The colon in the ollama-style id survives verbatim.
    assert_eq!(list.data[1].id, "llama3.3:70b");

    let model_ids = OpenAICompatProvider::extract_model_ids(list).expect("non-empty");
    assert_eq!(model_ids, vec!["gpt-5.4", "llama3.3:70b", "mixtral-8x7b"]);

    let entries = OpenAICompatProvider::describe_providers(&model_ids, "gpt-5.4", 128_000, 8_192);
    assert_eq!(entries.len(), 3);
    for entry in &entries {
        assert_eq!(entry["request_topic"].as_str().unwrap(), REQUEST_TOPIC);
    }
    // `id` equals the source model id end-to-end (colon preserved).
    assert_eq!(
        ids(&entries),
        vec!["gpt-5.4", "llama3.3:70b", "mixtral-8x7b"]
    );
}

#[test]
fn describe_emits_env_model_first() {
    // Default model is present but NOT first in discovered order.
    let model_ids = vec![
        "first-discovered".to_string(),
        "the-default".to_string(),
        "last-discovered".to_string(),
    ];
    let entries =
        OpenAICompatProvider::describe_providers(&model_ids, "the-default", 128_000, 8_192);

    // entry[0] is the env default; the rest keep their discovered order.
    assert_eq!(entries[0]["id"].as_str().unwrap(), "the-default");
    assert_eq!(
        ids(&entries),
        vec!["the-default", "first-discovered", "last-discovered"]
    );

    // No entry carries a "default" key — ordering is the only signal.
    for entry in &entries {
        assert!(entry.get("default").is_none());
    }
}

#[test]
fn describe_preserves_order_when_default_absent() {
    // Default model is NOT in the discovered list.
    let model_ids = vec!["alpha".to_string(), "beta".to_string(), "gamma".to_string()];
    let entries =
        OpenAICompatProvider::describe_providers(&model_ids, "not-present", 128_000, 8_192);

    // Discovered order preserved unchanged; nothing dropped.
    assert_eq!(entries.len(), 3);
    assert_eq!(entries[0]["id"].as_str().unwrap(), "alpha");
    assert_eq!(ids(&entries), vec!["alpha", "beta", "gamma"]);
}

#[test]
fn empty_data_is_discovery_error() {
    // Empty `data` array funnels to the fallback Err arm.
    let empty: ModelList = parse_models(r#"{ "data": [] }"#).expect("parse");
    assert!(OpenAICompatProvider::extract_model_ids(empty).is_err());

    // A sole entry with an empty `id` is dropped, leaving nothing usable.
    let blank: ModelList = parse_models(r#"{ "data": [ { "id": "" } ] }"#).expect("parse");
    assert!(OpenAICompatProvider::extract_model_ids(blank).is_err());

    // A sole entry with a whitespace-only `id` is likewise dropped: it
    // cannot be selected, so it funnels to the same fallback Err arm.
    let whitespace: ModelList = parse_models(r#"{ "data": [ { "id": "   " } ] }"#).expect("parse");
    assert!(OpenAICompatProvider::extract_model_ids(whitespace).is_err());
}

#[test]
fn duplicate_ids_are_deduplicated_preserving_order() {
    // A buggy/hostile upstream that repeats an id must not yield two
    // provider entries with the same id. Dedup is stable on server order.
    let dup: ModelList =
        parse_models(r#"{ "data": [ { "id": "gpt-5.4" }, { "id": "gpt-5.4" } ] }"#).expect("parse");
    let ids = OpenAICompatProvider::extract_model_ids(dup).expect("one survivor");
    assert_eq!(ids, vec!["gpt-5.4"]);
    assert_eq!(ids.len(), 1);

    // Non-adjacent collisions collapse too, and the first occurrence wins
    // (server order preserved for the survivors).
    let scattered: ModelList = parse_models(
        r#"{ "data": [ { "id": "a" }, { "id": "b" }, { "id": "a" }, { "id": "c" } ] }"#,
    )
    .expect("parse");
    let ids = OpenAICompatProvider::extract_model_ids(scattered).expect("survivors");
    assert_eq!(ids, vec!["a", "b", "c"]);
}

#[test]
fn unparseable_body_is_discovery_error() {
    // A non-JSON / HTML body (e.g. a 404 page) fails to deserialize, which
    // is the Err that triggers the env fallback in `discover_models`.
    let result: Result<ModelList, _> = parse_models("<html>404</html>");
    assert!(result.is_err());
    assert!(matches!(
        OpenAICompatProvider::discover_models(Ok(ModelsAnswer { status: 200, list: result })),
        Err(ProviderError::Sdk(_))
    ));
}

#[test]
fn fallback_advertisement_matches_single_model_shape() {
    // The discovery-failure path advertises a single env-model entry.
    let entries = OpenAICompatProvider::describe_providers(
        &["gpt-5.4".to_string()],
        "gpt-5.4",
        128_000,
        8_192,
    );

    assert_eq!(entries.len(), 1);
    let entry = &entries[0];
    assert_eq!(entry["id"].as_str().unwrap(), "gpt-5.4");
    assert_eq!(entry["request_topic"].as_str().unwrap(), REQUEST_TOPIC);
    // Shape-stable, positionally-default, no "default" key.
    assert!(entry.get("default").is_none());
}

#[test]
fn an_advertisement_has_exactly_these_members() {
    let entries = OpenAICompatProvider::describe_providers(&strings(&["m"]), "m", 7, 9);
    let expected: Value = serde_json::from_str(
        r#"{
            "id": "m",
            "description": "OpenAI-compatible model: m",
            "capabilities": ["text", "vision", "tools"],
            "request_topic": "llm.v1.request.generate.openai-compat",
            "stream_topic": "llm.v1.stream.openai-compat",
            "context_window": 7,
            "max_output_tokens": 9
        }"#,
    )
    .unwrap();
    assert_eq!(entries, vec![expected]);
}

#[test]
fn repeated_defaults_all_come_first() {
    let entries =
        OpenAICompatProvider::describe_providers(&strings(&["a", "d", "b", "d"]), "d", 1, 1);
    assert_eq!(ids(&entries), vec!["d", "d", "a", "b"]);
}

#[test]
fn no_models_means_no_advertisements() {
    assert!(OpenAICompatProvider::describe_providers(&[], "d", 1, 1).is_empty());
}

#[test]
fn blank_ids_are_dropped_and_others_kept_verbatim() {
    let list = ModelList {
        data: strings(&["\t\u{a0}\u{3000}", " x ", "\u{200b}", "x"])
            .into_iter()
            .map(|id| ModelInfo { id })
            .collect(),
    };
    // U+200B is no white space.
    assert_eq!(
        OpenAICompatProvider::extract_model_ids(list).unwrap(),
        vec![" x ", "\u{200b}", "x"]
    );
}

#[test]
fn extracting_twice_is_extracting_once() {
    let list = |texts: &[&str]| ModelList {
        data: strings(texts).into_iter().map(|id| ModelInfo { id }).collect(),
    };
    let once = OpenAICompatProvider::extract_model_ids(list(&["b", "", "a", "b"])).unwrap();
    assert_eq!(once, vec!["b", "a"]);
    let twice = OpenAICompatProvider::extract_model_ids(list(&["b", "a"])).unwrap();
    assert_eq!(twice, once);
}

#[test]
fn discovery_errors_come_in_order() {
    let list = || ModelList { data: vec![ModelInfo { id: "m".to_string() }] };
    let none = || ModelList { data: Vec::new() };
    let discover = |status: u16, list: Result<ModelList, String>| {
        OpenAICompatProvider::discover_models(Ok(ModelsAnswer { status, list }))
    };
    assert_eq!(
        OpenAICompatProvider::discover_models(Err("unsent".to_string())),
        Err(ProviderError::Sdk("unsent".to_string()))
    );
    assert_eq!(discover(404, Ok(list())), Err(ProviderError::ModelsStatus(404)));
    assert_eq!(discover(300, Err("bad".to_string())), Err(ProviderError::ModelsStatus(300)));
    assert_eq!(discover(199, Ok(list())), Err(ProviderError::ModelsStatus(199)));
    assert_eq!(
        discover(200, Err("bad".to_string())),
        Err(ProviderError::Sdk("bad".to_string()))
    );
    assert_eq!(discover(204, Ok(none())), Err(ProviderError::NoModels));
    assert_eq!(discover(299, Ok(list())), Ok(vec!["m".to_string()]));
}
