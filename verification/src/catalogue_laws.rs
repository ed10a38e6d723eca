//! What holds of discovering models and of advertising them.

use crate::error::ProviderError;
use crate::json::Json;
use crate::laws::{
    every_model_is_advertised, models_without_the_default_keep_their_order,
    the_default_model_comes_first,
};
use crate::lists::{lemma_filter_all, lemma_filter_contains, lemma_filter_none};
use crate::models::{
    advertised, descriptor, is_model, is_other_model, listed_ids, offered_ids, success_status,
    texts, ModelInfo, DESCRIBE_TOPIC, REQUEST_TOPIC, STREAM_TOPIC,
};
use crate::request_laws::{has_members, member};
use crate::settings::Settings;
use crate::text::parsed_u64;
use vstd::prelude::*;

verus! {

/// The ids of some advertisements, in order.
pub open spec fn entry_ids(entries: Seq<Json>) -> Seq<Seq<char>> {
    entries.map_values(|entry: Json| member(entry, "id"@)->Text_0)
}

/// The texts of discovered ids, in order.
pub open spec fn discovered_ids(ids: Vec<String>) -> Seq<Seq<char>> {
    ids@.map_values(|id: String| id@)
}

/// Whether `model` is the configured model, or `gpt-5.4` where none is.
pub open spec fn is_configured(settings: Settings, model: Seq<char>) -> bool {
    match settings.model {
        Some(text) => model == text@,
        None => model == "gpt-5.4"@,
    }
}

/// The member names of an advertisement, by their lengths, or else by a character.
proof fn lemma_entry_words()
    ensures
        "id"@.len() == 2,
        "description"@.len() == 11,
        "capabilities"@.len() == 12 && "capabilities"@[0] == 'c',
        "stream_topic"@.len() == 12 && "stream_topic"@[0] == 's',
        "request_topic"@.len() == 13,
        "context_window"@.len() == 14,
        "max_output_tokens"@.len() == 17,
{
    reveal_strlit("id");
    reveal_strlit("description");
    reveal_strlit("capabilities");
    reveal_strlit("stream_topic");
    reveal_strlit("request_topic");
    reveal_strlit("context_window");
    reveal_strlit("max_output_tokens");
}

/// The advertisements of a descriptor are those of the offered models, as ordered.
proof fn lemma_entry_ids(
    settings: Settings,
    discovered: Result<Vec<String>, ProviderError>,
    model: Seq<char>,
)
    requires
        is_configured(settings, model),
    ensures
        entry_ids(descriptor(settings, discovered)) == advertised(
            offered_ids(settings, discovered),
            model,
        ),
        entry_ids(descriptor(settings, discovered)).len() == descriptor(settings, discovered).len(),
{
    lemma_entry_words();
    let entries = descriptor(settings, discovered);
    let ids = advertised(offered_ids(settings, discovered), model);
    assert forall|i: int| 0 <= i < entries.len() implies #[trigger] entry_ids(entries)[i]
        == ids[i] by {
        assert(member(entries[i], "id"@) == Json::Text(ids[i]));
    }
    assert(entry_ids(entries) == ids);
}

/// The models that were discovered are advertised, each as often as it was
/// discovered, and no others.
pub proof fn exactly_the_discovered_models_are_advertised(
    settings: Settings,
    discovered: Result<Vec<String>, ProviderError>,
    i: int,
)
    requires
        discovered is Ok,
    ensures
        descriptor(settings, discovered).len() == discovered->Ok_0@.len(),
        entry_ids(descriptor(settings, discovered)).to_multiset() == discovered_ids(
            discovered->Ok_0,
        ).to_multiset(),
        0 <= i < discovered->Ok_0@.len() ==> {
            &&& exists|j: int|
                0 <= j < discovered->Ok_0@.len() && (#[trigger] discovered->Ok_0@[j])@ == entry_ids(
                    descriptor(settings, discovered),
                )[i]
            &&& entry_ids(descriptor(settings, discovered)).contains(discovered->Ok_0@[i]@)
        },
{
    let model = if settings.model is Some {
        settings.model->0@
    } else {
        "gpt-5.4"@
    };
    let ids = discovered_ids(discovered->Ok_0);
    let named = entry_ids(descriptor(settings, discovered));
    lemma_entry_ids(settings, discovered, model);
    assert(offered_ids(settings, discovered) == ids);
    every_model_is_advertised(ids, model);
    if 0 <= i < ids.len() {
        named.to_multiset_ensures();
        ids.to_multiset_ensures();
        assert(named.contains(named[i]));
        assert(ids.to_multiset().count(named[i]) > 0);
        assert(ids.contains(named[i]));
        let j = choose|j: int| 0 <= j < ids.len() && ids[j] == named[i];
        assert(discovered->Ok_0@[j]@ == named[i]);
        assert(ids.contains(ids[i]));
        assert(named.to_multiset().count(ids[i]) > 0);
    }
}

/// The configured model is advertised first where it was discovered; where it was
/// not, the discovered models are advertised in the order of their discovery.
pub proof fn the_configured_model_comes_first_where_discovered(
    settings: Settings,
    discovered: Result<Vec<String>, ProviderError>,
    model: Seq<char>,
)
    requires
        discovered is Ok,
        is_configured(settings, model),
    ensures
        discovered_ids(discovered->Ok_0).contains(model) ==> entry_ids(
            descriptor(settings, discovered),
        )[0] == model,
        !discovered_ids(discovered->Ok_0).contains(model) ==> entry_ids(
            descriptor(settings, discovered),
        ) == discovered_ids(discovered->Ok_0),
{
    let ids = discovered_ids(discovered->Ok_0);
    lemma_entry_ids(settings, discovered, model);
    assert(offered_ids(settings, discovered) == ids);
    if ids.contains(model) {
        the_default_model_comes_first(ids, model);
    } else {
        models_without_the_default_keep_their_order(ids, model);
    }
}

/// Being named otherwise than `name`.
pub open spec fn named_otherwise(name: Seq<char>) -> spec_fn(Seq<char>) -> bool {
    |id: Seq<char>| id != name
}

/// No other model is advertised before the configured one, and the others keep the
/// order of their discovery.
pub proof fn the_other_models_stay_in_order(
    settings: Settings,
    discovered: Result<Vec<String>, ProviderError>,
    model: Seq<char>,
)
    requires
        discovered is Ok,
        is_configured(settings, model),
    ensures
        ({
            let named = entry_ids(descriptor(settings, discovered));
            &&& named.filter(named_otherwise(model)) == discovered_ids(discovered->Ok_0).filter(
                named_otherwise(model),
            )
            &&& forall|i: int, j: int|
                0 <= i < j < named.len() && #[trigger] named[j] == model ==> #[trigger] named[i]
                    == model
        }),
{
    let ids = discovered_ids(discovered->Ok_0);
    let named = entry_ids(descriptor(settings, discovered));
    let pred = named_otherwise(model);
    lemma_entry_ids(settings, discovered, model);
    assert(offered_ids(settings, discovered) == ids);
    let first = ids.filter(is_model(model));
    let others = ids.filter(is_other_model(model));
    assert(is_other_model(model) =~= pred);
    assert forall|i: int| 0 <= i < first.len() implies #[trigger] first[i] == model by {
        assert(first.contains(first[i]));
        lemma_filter_contains(ids, is_model(model), first[i]);
    }
    assert forall|i: int| 0 <= i < others.len() implies #[trigger] others[i] != model by {
        assert(others.contains(others[i]));
        lemma_filter_contains(ids, is_other_model(model), others[i]);
    }
    Seq::filter_distributes_over_add(first, others, pred);
    lemma_filter_none(first, pred);
    lemma_filter_all(others, pred);
    assert(named.filter(pred) == others);
}

/// Where discovery failed, the configured model is advertised, alone.
pub proof fn without_discovery_the_configured_model_stands_alone(
    settings: Settings,
    discovered: Result<Vec<String>, ProviderError>,
    model: Seq<char>,
)
    requires
        discovered is Err,
        is_configured(settings, model),
    ensures
        entry_ids(descriptor(settings, discovered)) == seq![model],
        descriptor(settings, discovered).len() == 1,
{
    let ids = offered_ids(settings, discovered);
    lemma_entry_ids(settings, discovered, model);
    assert(ids.len() == 1 && ids[0] == model);
    assert(ids =~= seq![model]);
    lemma_one_model(model);
}

/// A single model is advertised as it is.
proof fn lemma_one_model(model: Seq<char>)
    ensures
        advertised(seq![model], model) == seq![model],
{
    every_model_is_advertised(seq![model], model);
    assert(seq![model][0] == model);
    the_default_model_comes_first(seq![model], model);
    assert(advertised(seq![model], model) == seq![model]);
}

/// The number that a setting spells, or `fallback` where it is not set or spells
/// none.
pub open spec fn spelled_or(setting: Option<String>, fallback: u64) -> u64 {
    if setting is Some && parsed_u64(setting->0@) is Some {
        parsed_u64(setting->0@)->0
    } else {
        fallback
    }
}

/// Every advertisement says of its model what it is called, what it can do, where it
/// is asked and where it answers, and the configured limits, and nothing else.
pub proof fn advertisements_say_what_is_configured(
    settings: Settings,
    discovered: Result<Vec<String>, ProviderError>,
    i: int,
)
    requires
        0 <= i < descriptor(settings, discovered).len(),
    ensures
        ({
            let entry = descriptor(settings, discovered)[i];
            &&& has_members(
                entry,
                set![
                    "id"@,
                    "description"@,
                    "capabilities"@,
                    "request_topic"@,
                    "stream_topic"@,
                    "context_window"@,
                    "max_output_tokens"@,
                ],
            )
            &&& member(entry, "id"@) is Text
            &&& member(entry, "description"@) == Json::Text(
                "OpenAI-compatible model: "@ + member(entry, "id"@)->Text_0,
            )
            &&& member(entry, "capabilities"@) == Json::List(
                seq![Json::Text("text"@), Json::Text("vision"@), Json::Text("tools"@)],
            )
            &&& member(entry, "request_topic"@) == Json::Text(
                "llm.v1.request.generate.openai-compat"@,
            )
            &&& member(entry, "stream_topic"@) == Json::Text("llm.v1.stream.openai-compat"@)
            &&& member(entry, "context_window"@) == Json::Unsigned(
                spelled_or(settings.context_window, 128000),
            )
            &&& member(entry, "max_output_tokens"@) == Json::Unsigned(
                spelled_or(settings.max_output_tokens, 8192),
            )
        }),
{
    lemma_entry_words();
    let entry = descriptor(settings, discovered)[i];
    assert(entry->Object_0.dom() == set![
        "id"@,
        "description"@,
        "capabilities"@,
        "request_topic"@,
        "stream_topic"@,
        "context_window"@,
        "max_output_tokens"@,
    ]);
}

/// The capsule's topics.
pub proof fn the_topics()
    ensures
        REQUEST_TOPIC@ == "llm.v1.request.generate.openai-compat"@,
        STREAM_TOPIC@ == "llm.v1.stream.openai-compat"@,
        DESCRIBE_TOPIC@ == "llm.v1.response.describe"@,
{
}

/// A status is a success where its first of three digits is a two.
pub proof fn successes_begin_with_two(status: u16)
    ensures
        success_status(status) <==> status / 100 == 2,
{
}

/// Ids are read element by element.
pub proof fn ids_are_read_in_order(data: Seq<ModelInfo>, strings: Seq<String>, i: int)
    ensures
        listed_ids(data).len() == data.len(),
        0 <= i < data.len() ==> listed_ids(data)[i] == data[i].id@,
        texts(strings).len() == strings.len(),
        0 <= i < strings.len() ==> texts(strings)[i] == strings[i]@,
{
}

} // verus!
