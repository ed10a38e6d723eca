//! The model catalogue: discovering models and advertising them.

use crate::error::ProviderError;
use crate::json::{
    empty_object, json_list, json_of, list_value, number_value, set_member, text_value, Json,
};
use crate::lists::lemma_filter_step;
use crate::provider::OpenAICompatProvider;
use crate::settings::{
    api_key, bearer, endpoint, number_or, number_setting, setting_number, setting_text,
    text_setting, Settings,
};
use crate::text::{blank, is_blank, joined, same_text};
use serde_json::Value;
use vstd::hash_set::StringHashSet;
use vstd::prelude::*;
use vstd::string::*;

verus! {

/// The topic on which completion requests arrive.
pub const REQUEST_TOPIC: &'static str = "llm.v1.request.generate.openai-compat";

/// The topic on which stream events are published.
pub const STREAM_TOPIC: &'static str = "llm.v1.stream.openai-compat";

/// The topic on which the capability descriptor is published.
pub const DESCRIBE_TOPIC: &'static str = "llm.v1.response.describe";

/// The answer to a catalogue request.
#[derive(Debug, PartialEq)]
pub struct ModelList {
    pub data: Vec<ModelInfo>,
}

/// One model of the catalogue.
#[derive(Debug, PartialEq)]
pub struct ModelInfo {
    pub id: String,
}

/// The ids that a catalogue names, in its order.
pub open spec fn listed_ids(data: Seq<ModelInfo>) -> Seq<Seq<char>> {
    data.map_values(|model: ModelInfo| model.id@)
}

/// The texts of a list of strings.
pub open spec fn texts(strings: Seq<String>) -> Seq<Seq<char>> {
    strings.map_values(|s: String| s@)
}

/// The usable ids of a list: blank ones are dropped, and of equal ones only the
/// first stays.
pub open spec fn usable_ids(ids: Seq<Seq<char>>) -> Seq<Seq<char>>
    decreases ids.len(),
{
    if ids.len() == 0 {
        ids
    } else {
        let earlier = usable_ids(ids.drop_last());
        if blank(ids.last()) || earlier.contains(ids.last()) {
            earlier
        } else {
            earlier.push(ids.last())
        }
    }
}

/// Being the model `name`.
pub open spec fn is_model(name: Seq<char>) -> spec_fn(Seq<char>) -> bool {
    |id: Seq<char>| id == name
}

/// Being another model than `name`.
pub open spec fn is_other_model(name: Seq<char>) -> spec_fn(Seq<char>) -> bool {
    |id: Seq<char>| id != name
}

/// The order in which models are advertised: the default model first, where it
/// is there at all, and the others as they were.
pub open spec fn advertised(ids: Seq<Seq<char>>, default_model: Seq<char>) -> Seq<Seq<char>> {
    ids.filter(is_model(default_model)) + ids.filter(is_other_model(default_model))
}

/// The advertisement of one model.
pub open spec fn provider_json(id: Seq<char>, context_window: u64, max_output: u64) -> Json {
    Json::Object(
        map![
            "id"@ => Json::Text(id),
            "description"@ => Json::Text("OpenAI-compatible model: "@ + id),
            "capabilities"@ => Json::List(
                seq![Json::Text("text"@), Json::Text("vision"@), Json::Text("tools"@)],
            ),
            "request_topic"@ => Json::Text(REQUEST_TOPIC@),
            "stream_topic"@ => Json::Text(STREAM_TOPIC@),
            "context_window"@ => Json::Unsigned(context_window),
            "max_output_tokens"@ => Json::Unsigned(max_output),
        ],
    )
}

/// The advertisements of a list of models, in order.
pub open spec fn provider_list(
    ids: Seq<Seq<char>>,
    context_window: u64,
    max_output: u64,
) -> Seq<Json> {
    ids.map_values(|id: Seq<char>| provider_json(id, context_window, max_output))
}

/// The model that is advertised first, and alone where discovery fails.
pub open spec fn default_model(settings: Settings) -> Seq<char> {
    setting_text(settings.model, "gpt-5.4"@)
}

/// The models to advertise.
pub open spec fn offered_ids(
    settings: Settings,
    discovered: Result<Vec<String>, ProviderError>,
) -> Seq<Seq<char>> {
    match discovered {
        Ok(ids) => texts(ids@),
        Err(_) => seq![default_model(settings)],
    }
}

/// The advertisements that describe the provider.
pub open spec fn descriptor(
    settings: Settings,
    discovered: Result<Vec<String>, ProviderError>,
) -> Seq<Json> {
    provider_list(
        advertised(offered_ids(settings, discovered), default_model(settings)),
        number_or(setting_number(settings.context_window), 128000),
        number_or(setting_number(settings.max_output_tokens), 8192),
    )
}

/// Whether an HTTP status is a success.
pub open spec fn success_status(status: u16) -> bool {
    200 <= status < 300
}

/// A request for the model catalogue, to be sent with `GET`.
#[derive(Debug, PartialEq)]
pub struct ModelsRequest {
    pub url: String,
    pub authorization: Option<String>,
}

/// An answer to a request for the model catalogue: its status, and what its body
/// reads as, or the text of the error where it could not be read.
#[derive(Debug, PartialEq)]
pub struct ModelsAnswer {
    pub status: u16,
    pub list: Result<ModelList, String>,
}

/// Makes the advertisement of one model.
fn provider_entry(id: &str, context_window: u64, max_output: u64) -> (entry: Value)
    ensures
        json_of(entry) == provider_json(id@, context_window, max_output),
{
    let mut capabilities: Vec<Value> = Vec::new();
    capabilities.push(text_value("text"));
    capabilities.push(text_value("vision"));
    capabilities.push(text_value("tools"));
    assert(json_list(capabilities@) == seq![
        Json::Text("text"@),
        Json::Text("vision"@),
        Json::Text("tools"@),
    ]);
    let mut entry: Value = empty_object();
    set_member(&mut entry, "id", text_value(id));
    set_member(
        &mut entry,
        "description",
        text_value(joined("OpenAI-compatible model: ", id).as_str()),
    );
    set_member(&mut entry, "capabilities", list_value(capabilities));
    set_member(&mut entry, "request_topic", text_value(REQUEST_TOPIC));
    set_member(&mut entry, "stream_topic", text_value(STREAM_TOPIC));
    set_member(&mut entry, "context_window", number_value(context_window));
    set_member(&mut entry, "max_output_tokens", number_value(max_output));
    entry
}

impl OpenAICompatProvider {
    /// The usable model ids of a catalogue, in its order, without blank ids and
    /// repetitions; an error where none remains.
    pub fn extract_model_ids(list: ModelList) -> (result: Result<Vec<String>, ProviderError>)
        ensures
            match result {
                Ok(ids) => {
                    &&& texts(ids@) == usable_ids(listed_ids(list.data@))
                    &&& ids@.len() > 0
                },
                Err(error) => {
                    &&& error is NoModels
                    &&& usable_ids(listed_ids(list.data@)).len() == 0
                },
            },
    {
        let mut seen: StringHashSet = StringHashSet::new();
        let mut ids: Vec<String> = Vec::new();
        let ghost listed = listed_ids(list.data@);
        let mut i: usize = 0;
        while i < list.data.len()
            invariant
                i <= list.data@.len(),
                listed == listed_ids(list.data@),
                texts(ids@) == usable_ids(listed.take(i as int)),
                forall|id: Seq<char>| #[trigger] seen@.contains(id) <==> texts(ids@).contains(id),
            decreases list.data@.len() - i,
        {
            let id: &String = &list.data[i].id;
            let ghost before = ids@;
            proof {
                assert(listed.take(i + 1).drop_last() == listed.take(i as int));
                assert(listed.take(i + 1).last() == id@);
            }
            if !is_blank(id.as_str()) {
                if seen.insert(id.clone()) {
                    ids.push(id.clone());
                    proof {
                        assert(texts(ids@) == texts(before).push(id@));
                        assert forall|other: Seq<char>| #[trigger]
                            seen@.contains(other) <==> texts(ids@).contains(other) by {
                            vstd::seq_lib::lemma_seq_contains_after_push(texts(before), id@, other);
                        }
                    }
                }
            }
            i = i + 1;
        }
        proof {
            assert(listed.take(listed.len() as int) == listed);
        }
        if ids.len() == 0 {
            Err(ProviderError::NoModels)
        } else {
            Ok(ids)
        }
    }

    /// One advertisement per model id: the default model first, where it is among
    /// them, and the others in their order.
    pub fn describe_providers(
        model_ids: &[String],
        default_model: &str,
        context_window: u64,
        max_output: u64,
    ) -> (entries: Vec<Value>)
        ensures
            json_list(entries@) == provider_list(
                advertised(texts(model_ids@), default_model@),
                context_window,
                max_output,
            ),
    {
        let mut entries: Vec<Value> = Vec::new();
        let ghost ids = texts(model_ids@);
        let ghost is_default = is_model(default_model@);
        let ghost is_other = is_other_model(default_model@);
        let mut i: usize = 0;
        while i < model_ids.len()
            invariant
                i <= model_ids@.len(),
                ids == texts(model_ids@),
                is_default == is_model(default_model@),
                json_list(entries@) == provider_list(
                    ids.take(i as int).filter(is_default),
                    context_window,
                    max_output,
                ),
            decreases model_ids@.len() - i,
        {
            proof {
                lemma_filter_step(ids, i as int, is_default);
            }
            if same_text(model_ids[i].as_str(), default_model) {
                let ghost before = entries@;
                entries.push(provider_entry(model_ids[i].as_str(), context_window, max_output));
                assert(json_list(entries@) == json_list(before).push(
                    provider_json(ids[i as int], context_window, max_output),
                ));
            }
            i = i + 1;
        }
        let ghost first = ids.filter(is_default);
        assert(ids.take(ids.len() as int) == ids);
        let mut j: usize = 0;
        assert(first + ids.take(0).filter(is_other) == first) by {
            reveal(Seq::filter);
        }
        while j < model_ids.len()
            invariant
                j <= model_ids@.len(),
                ids == texts(model_ids@),
                is_other == is_other_model(default_model@),
                json_list(entries@) == provider_list(
                    first + ids.take(j as int).filter(is_other),
                    context_window,
                    max_output,
                ),
            decreases model_ids@.len() - j,
        {
            proof {
                lemma_filter_step(ids, j as int, is_other);
            }
            if !same_text(model_ids[j].as_str(), default_model) {
                let ghost before = entries@;
                entries.push(provider_entry(model_ids[j].as_str(), context_window, max_output));
                assert(json_list(entries@) == json_list(before).push(
                    provider_json(ids[j as int], context_window, max_output),
                ));
            }
            j = j + 1;
        }
        assert(ids.take(ids.len() as int) == ids);
        entries
    }

    /// Whether a status is a success.
    fn is_success(status: u16) -> (success: bool)
        ensures
            success == success_status(status),
    {
        200 <= status && status < 300
    }

    /// The request for the model catalogue: its address, and its authorization
    /// header where an API key is configured.
    pub fn models_request(settings: &Settings) -> (request: ModelsRequest)
        ensures
            request.url@ == endpoint(*settings, "/v1/models"@),
            match request.authorization {
                Some(header) => api_key(*settings).len() > 0 && header@ == bearer(
                    api_key(*settings),
                ),
                None => api_key(*settings).len() == 0,
            },
    {
        ModelsRequest {
            url: settings.endpoint_url("/v1/models"),
            authorization: settings.authorization(),
        }
    }

    /// The models that a catalogue answer offers: at least one, or an error. An
    /// answer that did not come is an error, then a status that is no success, then
    /// an answer that could not be read, then a catalogue without usable models.
    pub fn discover_models(answer: Result<ModelsAnswer, String>) -> (result: Result<
        Vec<String>,
        ProviderError,
    >)
        ensures
            match result {
                Ok(ids) => {
                    &&& answer matches Ok(answer)
                    &&& success_status(answer.status)
                    &&& answer.list matches Ok(list)
                    &&& texts(ids@) == usable_ids(listed_ids(list.data@))
                    &&& ids@.len() > 0
                },
                Err(ProviderError::ModelsStatus(status)) => {
                    &&& answer matches Ok(answer)
                    &&& !success_status(answer.status)
                    &&& status == answer.status
                },
                Err(ProviderError::Sdk(text)) => match answer {
                    Ok(answer) => success_status(answer.status) && answer.list == Err::<
                        ModelList,
                        String,
                    >(text),
                    Err(reason) => text == reason,
                },
                Err(error) => {
                    &&& error is NoModels
                    &&& answer matches Ok(answer)
                    &&& success_status(answer.status)
                    &&& answer.list matches Ok(list)
                    &&& usable_ids(listed_ids(list.data@)).len() == 0
                },
            },
    {
        match answer {
            Ok(answer) => {
                if !Self::is_success(answer.status) {
                    return Err(ProviderError::ModelsStatus(answer.status));
                }
                match answer.list {
                    Ok(list) => Self::extract_model_ids(list),
                    Err(text) => Err(ProviderError::Sdk(text)),
                }
            },
            Err(text) => Err(ProviderError::Sdk(text)),
        }
    }

    /// The capability descriptor of the provider: the advertisements of the
    /// discovered models, or, where discovery failed, of the default model alone.
    pub fn llm_describe(
        &self,
        settings: &Settings,
        discovered: Result<Vec<String>, ProviderError>,
    ) -> (response: Value)
        ensures
            json_of(response) == Json::Object(
                map![
                    "providers"@ => Json::List(descriptor(*settings, discovered)),
                ],
            ),
    {
        let default_model: String = text_setting(&settings.model, "gpt-5.4");
        let context_window: u64 = match number_setting(&settings.context_window) {
            Some(number) => number,
            None => 128000,
        };
        let max_output: u64 = match number_setting(&settings.max_output_tokens) {
            Some(number) => number,
            None => 8192,
        };
        let model_ids: Vec<String> = match discovered {
            Ok(ids) => ids,
            Err(_) => {
                let mut only: Vec<String> = Vec::new();
                only.push(default_model.clone());
                only
            },
        };
        assert(texts(model_ids@) == offered_ids(*settings, discovered));
        let providers: Vec<Value> = Self::describe_providers(
            model_ids.as_slice(),
            default_model.as_str(),
            context_window,
            max_output,
        );
        let mut response: Value = empty_object();
        set_member(&mut response, "providers", list_value(providers));
        response
    }
}

} // verus!
