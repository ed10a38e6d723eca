//! What holds of the events and the tool calls that chunks lead to.

use crate::lists::{lemma_filter_all, lemma_filter_none, lemma_filter_step};
use crate::sse::{payload_events, Payload};
use crate::stream::{
    all_call_events, all_noted, call_events, choice_calls, chunk_events, chunk_fits, chunk_table,
    end_events, ends_calls, events_of, noted, table_of, text_events, usage_events,
    ChatCompletionChunk, Event, StreamEvent, ToolCallDelta, ToolTable,
};
use vstd::prelude::*;

verus! {

/// Whether `id` is the id of the call numbered `index` once `calls` have come: the
/// last that one of them brings for it, or else the one it had before; empty where
/// there was none.
pub open spec fn id_after(
    table: ToolTable,
    calls: Seq<ToolCallDelta>,
    index: int,
    id: Seq<char>,
) -> bool {
    ||| exists|j: int|
        {
            &&& 0 <= j < calls.len()
            &&& (#[trigger] calls[j]).index == index
            &&& calls[j].id matches Some(brought)
            &&& brought@ == id
            &&& forall|k: int|
                j < k < calls.len() && (#[trigger] calls[k]).index == index ==> calls[k].id is None
        }
    ||| {
        &&& forall|j: int|
            0 <= j < calls.len() && (#[trigger] calls[j]).index == index ==> calls[j].id is None
        &&& id == if index < table.len() {
            table[index].0
        } else {
            Seq::empty()
        }
    }
}

/// Calls make room for each of them, and for no more.
proof fn lemma_noted_len(table: ToolTable, calls: Seq<ToolCallDelta>)
    ensures
        all_noted(table, calls).len() >= table.len(),
        forall|i: int|
            0 <= i < calls.len() ==> (#[trigger] calls[i]).index < all_noted(table, calls).len(),
        all_noted(table, calls).len() == table.len() || exists|i: int|
            0 <= i < calls.len() && all_noted(table, calls).len() == (#[trigger] calls[i]).index + 1,
    decreases calls.len(),
{
    if calls.len() > 0 {
        let head = calls.drop_last();
        let earlier = all_noted(table, head);
        lemma_noted_len(table, head);
        assert forall|i: int| 0 <= i < calls.len() implies (#[trigger] calls[i]).index < all_noted(
            table,
            calls,
        ).len() by {
            if i < head.len() {
                assert(calls[i] == head[i]);
            }
        }
        if all_noted(table, calls).len() != earlier.len() {
            assert(calls[calls.len() - 1].index + 1 == all_noted(table, calls).len());
        } else if earlier.len() != table.len() {
            let i = choose|i: int|
                0 <= i < head.len() && earlier.len() == (#[trigger] head[i]).index + 1;
            assert(calls[i] == head[i]);
        }
    }
}

/// The table holds the ids of the calls.
proof fn lemma_noted_id(table: ToolTable, calls: Seq<ToolCallDelta>, index: int)
    requires
        0 <= index < all_noted(table, calls).len(),
    ensures
        id_after(table, calls, index, all_noted(table, calls)[index].0),
    decreases calls.len(),
{
    let id = all_noted(table, calls)[index].0;
    if calls.len() > 0 {
        let head = calls.drop_last();
        let last = calls.last();
        let earlier = all_noted(table, head);
        let end = calls.len() - 1;
        assert(calls[end] == last);
        lemma_noted_len(table, head);
        if last.index == index && last.id is Some {
            assert(calls[end].id->0@ == id);
        } else if index < earlier.len() {
            lemma_noted_id(table, head, index);
            assert(earlier[index].0 == id);
            if exists|j: int|
                {
                    &&& 0 <= j < head.len()
                    &&& (#[trigger] head[j]).index == index
                    &&& head[j].id matches Some(brought)
                    &&& brought@ == id
                    &&& forall|k: int|
                        j < k < head.len() && (#[trigger] head[k]).index == index
                            ==> head[k].id is None
                } {
                let j = choose|j: int|
                    {
                        &&& 0 <= j < head.len()
                        &&& (#[trigger] head[j]).index == index
                        &&& head[j].id matches Some(brought)
                        &&& brought@ == id
                        &&& forall|k: int|
                            j < k < head.len() && (#[trigger] head[k]).index == index
                                ==> head[k].id is None
                    };
                assert(calls[j] == head[j]);
                assert forall|k: int|
                    j < k < calls.len() && (#[trigger] calls[k]).index
                        == index implies calls[k].id is None by {
                    if k < end {
                        assert(calls[k] == head[k]);
                    }
                }
            } else {
                assert forall|j: int|
                    0 <= j < calls.len() && (#[trigger] calls[j]).index
                        == index implies calls[j].id is None by {
                    if j < end {
                        assert(calls[j] == head[j]);
                    }
                }
            }
        } else {
            assert forall|j: int|
                0 <= j < calls.len() && (#[trigger] calls[j]).index
                    == index implies calls[j].id is None by {
                if j < end {
                    assert(calls[j] == head[j]);
                    assert(head[j].index < earlier.len());
                }
            }
            assert(id == Seq::<char>::empty());
        }
    }
}

/// Calls are taken in one after another.
proof fn lemma_calls_split(table: ToolTable, some: Seq<ToolCallDelta>, others: Seq<ToolCallDelta>)
    ensures
        all_noted(table, some + others) == all_noted(all_noted(table, some), others),
        all_call_events(table, some + others) == all_call_events(table, some) + all_call_events(
            all_noted(table, some),
            others,
        ),
    decreases others.len(),
{
    if others.len() == 0 {
        assert(some + others == some);
        assert(all_call_events(table, some) + all_call_events(all_noted(table, some), others)
            == all_call_events(table, some));
    } else {
        lemma_calls_split(table, some, others.drop_last());
        assert((some + others).drop_last() == some + others.drop_last());
        assert((some + others).last() == others.last());
        assert(all_call_events(table, some + others) == all_call_events(table, some)
            + all_call_events(all_noted(table, some), others));
    }
}

/// The events of one call stand among those of all.
proof fn lemma_call_among_all(table: ToolTable, calls: Seq<ToolCallDelta>, i: int) -> (at: int)
    requires
        0 <= i < calls.len(),
    ensures
        ({
            let own = call_events(all_noted(table, calls.take(i)), calls[i]);
            &&& 0 <= at <= at + own.len() <= all_call_events(table, calls).len()
            &&& all_call_events(table, calls).subrange(at, at + own.len() as int) == own
        }),
{
    let head = calls.take(i);
    let upto = calls.take(i + 1);
    let own = call_events(all_noted(table, head), calls[i]);
    assert(upto.drop_last() == head);
    assert(calls == upto + calls.skip(i + 1));
    lemma_calls_split(table, upto, calls.skip(i + 1));
    let at = all_call_events(table, head).len() as int;
    assert(all_call_events(table, upto) == all_call_events(table, head) + own);
    assert(all_call_events(table, calls).subrange(at, at + own.len() as int) == own);
    at
}

/// The events of a call stand one after another among those of its chunk.
proof fn lemma_call_among_chunk(table: ToolTable, chunk: ChatCompletionChunk, i: int) -> (at: int)
    requires
        chunk.choices@.len() > 0,
        chunk.choices@[0].delta.tool_calls is Some,
        0 <= i < chunk.choices@[0].delta.tool_calls->0@.len(),
    ensures
        ({
            let calls = chunk.choices@[0].delta.tool_calls->0@;
            let own = call_events(all_noted(table, calls.take(i)), calls[i]);
            &&& 0 <= at <= at + own.len() <= chunk_events(table, chunk).len()
            &&& chunk_events(table, chunk).subrange(at, at + own.len() as int) == own
        }),
{
    let calls = chunk.choices@[0].delta.tool_calls->0@;
    let own = call_events(all_noted(table, calls.take(i)), calls[i]);
    let within = lemma_call_among_all(table, calls, i);
    let head = usage_events(chunk) + text_events(chunk.choices@[0]);
    let at = head.len() + within;
    assert(chunk_events(table, chunk).subrange(head.len() as int, (head.len() + all_call_events(
        table,
        calls,
    ).len()) as int) == all_call_events(table, calls));
    assert(chunk_events(table, chunk).subrange(at, at + own.len() as int) == all_call_events(
        table,
        calls,
    ).subrange(within, within + own.len() as int));
    at
}

/// A call that brings a function name is started with that name, under the id that
/// is known by then, whatever else its chunk holds.
pub proof fn every_named_call_is_started(table: ToolTable, chunk: ChatCompletionChunk, i: int) -> (
    at: int)
    requires
        chunk.choices@.len() > 0,
        chunk.choices@[0].delta.tool_calls is Some,
        0 <= i < chunk.choices@[0].delta.tool_calls->0@.len(),
        chunk.choices@[0].delta.tool_calls->0@[i].function is Some,
        chunk.choices@[0].delta.tool_calls->0@[i].function->0.name is Some,
    ensures
        0 <= at < chunk_events(table, chunk).len(),
        ({
            let calls = chunk.choices@[0].delta.tool_calls->0@;
            &&& chunk_events(table, chunk)[at] matches Event::ToolCallStart { id, name }
            &&& name == calls[i].function->0.name->0@
            &&& id_after(table, calls.take(i + 1), calls[i].index as int, id)
            &&& calls[i].id matches Some(brought) ==> id == brought@
        }),
{
    let calls = chunk.choices@[0].delta.tool_calls->0@;
    let own = call_events(all_noted(table, calls.take(i)), calls[i]);
    let at = lemma_call_among_chunk(table, chunk, i);
    assert(calls.take(i + 1).drop_last() == calls.take(i));
    lemma_noted_id(table, calls.take(i + 1), calls[i].index as int);
    assert(chunk_events(table, chunk)[at] == chunk_events(table, chunk).subrange(
        at,
        at + own.len() as int,
    )[0]);
    at
}

/// A call that brings arguments publishes them, under the id that is known by
/// then, whatever else its chunk holds; where it brings a name too, right behind
/// the start.
pub proof fn all_arguments_are_published(table: ToolTable, chunk: ChatCompletionChunk, i: int) -> (
    at: int)
    requires
        chunk.choices@.len() > 0,
        chunk.choices@[0].delta.tool_calls is Some,
        0 <= i < chunk.choices@[0].delta.tool_calls->0@.len(),
        chunk.choices@[0].delta.tool_calls->0@[i].function is Some,
        chunk.choices@[0].delta.tool_calls->0@[i].function->0.arguments is Some,
        chunk.choices@[0].delta.tool_calls->0@[i].function->0.arguments->0@.len() > 0,
    ensures
        0 <= at < chunk_events(table, chunk).len(),
        ({
            let calls = chunk.choices@[0].delta.tool_calls->0@;
            let events = chunk_events(table, chunk);
            &&& events[at] matches Event::ToolCallDelta { id, args_delta }
            &&& args_delta == calls[i].function->0.arguments->0@
            &&& id_after(table, calls.take(i + 1), calls[i].index as int, id)
            &&& calls[i].id matches Some(brought) ==> id == brought@
            &&& calls[i].function->0.name matches Some(brought) ==> at > 0 && events[at - 1]
                == Event::ToolCallStart { id, name: brought@ }
        }),
{
    let calls = chunk.choices@[0].delta.tool_calls->0@;
    let own = call_events(all_noted(table, calls.take(i)), calls[i]);
    let from = lemma_call_among_chunk(table, chunk, i);
    assert(calls.take(i + 1).drop_last() == calls.take(i));
    lemma_noted_id(table, calls.take(i + 1), calls[i].index as int);
    let found = chunk_events(table, chunk).subrange(from, from + own.len() as int);
    let at = from + own.len() - 1;
    assert(found[own.len() - 1] == chunk_events(table, chunk)[at]);
    if calls[i].function->0.name is Some {
        assert(found[0] == chunk_events(table, chunk)[from]);
    }
    at
}

/// The text deltas among some events.
pub open spec fn text_deltas(events: Seq<Event>) -> Seq<Event> {
    events.filter(|event: Event| event is TextDelta)
}

/// The usage reports among some events.
pub open spec fn usage_reports(events: Seq<Event>) -> Seq<Event> {
    events.filter(|event: Event| event is Usage)
}

/// The function names of the starts among some events, in order.
pub open spec fn started_names(events: Seq<Event>) -> Seq<Seq<char>> {
    events.filter(|event: Event| event is ToolCallStart).map_values(
        |event: Event| event->ToolCallStart_name,
    )
}

/// The arguments of the tool call deltas among some events, in order.
pub open spec fn published_arguments(events: Seq<Event>) -> Seq<Seq<char>> {
    events.filter(|event: Event| event is ToolCallDelta).map_values(
        |event: Event| event->ToolCallDelta_args_delta,
    )
}

/// The ids of the ends among some events, in order.
pub open spec fn ended_ids(events: Seq<Event>) -> Seq<Seq<char>> {
    events.filter(|event: Event| event is ToolCallEnd).map_values(
        |event: Event| event->ToolCallEnd_id,
    )
}

/// The function names that some calls bring, in order.
pub open spec fn brought_names(calls: Seq<ToolCallDelta>) -> Seq<Seq<char>> {
    calls.filter(|call: ToolCallDelta| call.function is Some && call.function->0.name is Some)
        .map_values(|call: ToolCallDelta| call.function->0.name->0@)
}

/// The arguments that some calls bring, in order.
pub open spec fn brought_arguments(calls: Seq<ToolCallDelta>) -> Seq<Seq<char>> {
    calls.filter(
        |call: ToolCallDelta|
            call.function is Some && call.function->0.arguments is Some
                && call.function->0.arguments->0@.len() > 0,
    ).map_values(|call: ToolCallDelta| call.function->0.arguments->0@)
}

/// Picking events of a chunk is picking among those of each of its parts.
proof fn lemma_filter_parts(
    table: ToolTable,
    chunk: ChatCompletionChunk,
    pred: spec_fn(Event) -> bool,
)
    requires
        chunk.choices@.len() > 0,
    ensures
        chunk_events(table, chunk).filter(pred) == usage_events(chunk).filter(pred) + text_events(
            chunk.choices@[0],
        ).filter(pred) + all_call_events(table, choice_calls(chunk.choices@[0])).filter(pred) + (
        if ends_calls(chunk.choices@[0]) {
            end_events(all_noted(table, choice_calls(chunk.choices@[0]))).filter(pred)
        } else {
            Seq::empty()
        }),
{
    let choice = chunk.choices@[0];
    let usage = usage_events(chunk);
    let text = text_events(choice);
    let calls = all_call_events(table, choice_calls(choice));
    let ends = if ends_calls(choice) {
        end_events(all_noted(table, choice_calls(choice)))
    } else {
        Seq::empty()
    };
    lemma_filter_none(Seq::<Event>::empty(), pred);
    assert(chunk_events(table, chunk) == usage + text + calls + ends);
    Seq::filter_distributes_over_add(usage + text + calls, ends, pred);
    Seq::filter_distributes_over_add(usage + text, calls, pred);
    Seq::filter_distributes_over_add(usage, text, pred);
}

/// Ends are nothing but ends.
proof fn lemma_ends_are_ends(table: ToolTable, pred: spec_fn(Event) -> bool)
    requires
        forall|event: Event| event is ToolCallEnd ==> !#[trigger] pred(event),
    ensures
        end_events(table).filter(pred) == Seq::<Event>::empty(),
{
    lemma_filter_none(end_events(table), pred);
}

/// Calls lead to nothing but starts and deltas.
proof fn lemma_calls_are_calls(
    table: ToolTable,
    calls: Seq<ToolCallDelta>,
    pred: spec_fn(Event) -> bool,
)
    requires
        forall|event: Event|
            event is ToolCallStart || event is ToolCallDelta ==> !#[trigger] pred(event),
    ensures
        all_call_events(table, calls).filter(pred) == Seq::<Event>::empty(),
{
    let events = all_call_events(table, calls);
    lemma_call_kinds(table, calls);
    assert forall|i: int| 0 <= i < events.len() implies !pred(#[trigger] events[i]) by {
        assert(rank(events[i]) == 2);
    }
    lemma_filter_none(events, pred);
}

/// Usage and text lead to nothing else.
proof fn lemma_head_is_head(chunk: ChatCompletionChunk, pred: spec_fn(Event) -> bool)
    requires
        chunk.choices@.len() > 0,
    ensures
        (forall|event: Event| event is Usage ==> !#[trigger] pred(event)) ==> usage_events(
            chunk,
        ).filter(pred) == Seq::<Event>::empty(),
        (forall|event: Event| event is TextDelta ==> !#[trigger] pred(event)) ==> text_events(
            chunk.choices@[0],
        ).filter(pred) == Seq::<Event>::empty(),
        (forall|event: Event| event is Usage ==> #[trigger] pred(event)) ==> usage_events(
            chunk,
        ).filter(pred) == usage_events(chunk),
        (forall|event: Event| event is TextDelta ==> #[trigger] pred(event)) ==> text_events(
            chunk.choices@[0],
        ).filter(pred) == text_events(chunk.choices@[0]),
{
    let usage = usage_events(chunk);
    let text = text_events(chunk.choices@[0]);
    if forall|event: Event| event is Usage ==> !#[trigger] pred(event) {
        lemma_filter_none(usage, pred);
    }
    if forall|event: Event| event is TextDelta ==> !#[trigger] pred(event) {
        lemma_filter_none(text, pred);
    }
    if forall|event: Event| event is Usage ==> #[trigger] pred(event) {
        lemma_filter_all(usage, pred);
    }
    if forall|event: Event| event is TextDelta ==> #[trigger] pred(event) {
        lemma_filter_all(text, pred);
    }
}

/// The text that the first choice of a chunk adds is published exactly once, as it
/// is; without any, no text is published. Only the empty text is none.
pub proof fn text_is_published_exactly_once(table: ToolTable, chunk: ChatCompletionChunk)
    requires
        chunk.choices@.len() > 0,
    ensures
        chunk.choices@[0].delta.content matches Some(text) && text@.len() > 0 ==> text_deltas(
            chunk_events(table, chunk),
        ) == seq![Event::TextDelta(chunk.choices@[0].delta.content->0@)],
        chunk.choices@[0].delta.content is None || chunk.choices@[0].delta.content->0@.len() == 0
            ==> text_deltas(chunk_events(table, chunk)) == Seq::<Event>::empty(),
{
    let pred = |event: Event| event is TextDelta;
    lemma_filter_parts(table, chunk, pred);
    lemma_head_is_head(chunk, pred);
    lemma_calls_are_calls(table, choice_calls(chunk.choices@[0]), pred);
    lemma_ends_are_ends(all_noted(table, choice_calls(chunk.choices@[0])), pred);
}

/// The usage that a chunk reports is published exactly once and first; without a
/// report, none is.
pub proof fn usage_is_published_exactly_once(table: ToolTable, chunk: ChatCompletionChunk)
    ensures
        match chunk.usage {
            Some(usage) => {
                let report = Event::Usage {
                    input_tokens: usage.prompt_tokens,
                    output_tokens: usage.completion_tokens,
                };
                &&& usage_reports(chunk_events(table, chunk)) == seq![report]
                &&& chunk_events(table, chunk)[0] == report
            },
            None => usage_reports(chunk_events(table, chunk)) == Seq::<Event>::empty(),
        },
{
    let pred = |event: Event| event is Usage;
    if chunk.choices@.len() == 0 {
        assert(chunk_events(table, chunk) == usage_events(chunk));
        lemma_filter_all(usage_events(chunk), pred);
    } else {
        lemma_filter_parts(table, chunk, pred);
        lemma_head_is_head(chunk, pred);
        lemma_calls_are_calls(table, choice_calls(chunk.choices@[0]), pred);
        lemma_ends_are_ends(all_noted(table, choice_calls(chunk.choices@[0])), pred);
    }
}

/// Picking from one event more, or from many, is picking from each part.
proof fn lemma_picked_concat(some: Seq<Event>, others: Seq<Event>)
    ensures
        started_names(some + others) == started_names(some) + started_names(others),
        published_arguments(some + others) == published_arguments(some) + published_arguments(
            others,
        ),
{
    let is_start = |event: Event| event is ToolCallStart;
    let is_delta = |event: Event| event is ToolCallDelta;
    Seq::filter_distributes_over_add(some, others, is_start);
    Seq::filter_distributes_over_add(some, others, is_delta);
    assert(started_names(some + others) == started_names(some) + started_names(others));
    assert(published_arguments(some + others) == published_arguments(some) + published_arguments(
        others,
    ));
}

/// Nothing is picked from nothing, and a start or a delta from itself.
proof fn lemma_picked_single(id: Seq<char>, text: Seq<char>)
    ensures
        started_names(Seq::empty()) == Seq::<Seq<char>>::empty(),
        published_arguments(Seq::empty()) == Seq::<Seq<char>>::empty(),
        started_names(seq![Event::ToolCallStart { id, name: text }]) == seq![text],
        published_arguments(seq![Event::ToolCallStart { id, name: text }])
            == Seq::<Seq<char>>::empty(),
        started_names(seq![Event::ToolCallDelta { id, args_delta: text }])
            == Seq::<Seq<char>>::empty(),
        published_arguments(seq![Event::ToolCallDelta { id, args_delta: text }]) == seq![text],
{
    let is_start = |event: Event| event is ToolCallStart;
    let is_delta = |event: Event| event is ToolCallDelta;
    let start = seq![Event::ToolCallStart { id, name: text }];
    let delta = seq![Event::ToolCallDelta { id, args_delta: text }];
    lemma_filter_none(Seq::<Event>::empty(), is_start);
    lemma_filter_none(Seq::<Event>::empty(), is_delta);
    lemma_filter_all(start, is_start);
    lemma_filter_none(start, is_delta);
    lemma_filter_none(delta, is_start);
    lemma_filter_all(delta, is_delta);
    assert(started_names(Seq::empty()) == Seq::<Seq<char>>::empty());
    assert(published_arguments(Seq::empty()) == Seq::<Seq<char>>::empty());
    assert(started_names(start) == seq![text]);
    assert(published_arguments(delta) == seq![text]);
    assert(started_names(delta) == Seq::<Seq<char>>::empty());
    assert(published_arguments(start) == Seq::<Seq<char>>::empty());
}

/// One call publishes the name and the arguments that it brings.
proof fn lemma_picked_call(table: ToolTable, call: ToolCallDelta)
    ensures
        started_names(call_events(table, call)) == if call.function is Some
            && call.function->0.name is Some {
            seq![call.function->0.name->0@]
        } else {
            Seq::empty()
        },
        published_arguments(call_events(table, call)) == if call.function is Some
            && call.function->0.arguments is Some && call.function->0.arguments->0@.len() > 0 {
            seq![call.function->0.arguments->0@]
        } else {
            Seq::empty()
        },
{
    let id = noted(table, call)[call.index as int].0;
    lemma_picked_single(id, Seq::empty());
    if call.function is Some {
        let function = call.function->0;
        let start = if function.name is Some {
            seq![Event::ToolCallStart { id, name: function.name->0@ }]
        } else {
            Seq::empty()
        };
        let delta = if function.arguments is Some && function.arguments->0@.len() > 0 {
            seq![Event::ToolCallDelta { id, args_delta: function.arguments->0@ }]
        } else {
            Seq::empty()
        };
        assert(call_events(table, call) == start + delta);
        lemma_picked_concat(start, delta);
        if function.name is Some {
            lemma_picked_single(id, function.name->0@);
        }
        if function.arguments is Some {
            lemma_picked_single(id, function.arguments->0@);
        }
    }
}

/// One call more brings its own name and arguments.
proof fn lemma_brought_step(calls: Seq<ToolCallDelta>)
    requires
        calls.len() > 0,
    ensures
        ({
            let last = calls.last();
            &&& brought_names(calls) == brought_names(calls.drop_last()) + (if last.function is Some
                && last.function->0.name is Some {
                seq![last.function->0.name->0@]
            } else {
                Seq::empty()
            })
            &&& brought_arguments(calls) == brought_arguments(calls.drop_last()) + (
            if last.function is Some && last.function->0.arguments is Some
                && last.function->0.arguments->0@.len() > 0 {
                seq![last.function->0.arguments->0@]
            } else {
                Seq::empty()
            })
        }),
{
    let n = calls.len() - 1;
    assert(calls.take(n + 1) == calls);
    assert(calls.take(n) == calls.drop_last());
    lemma_filter_step(
        calls,
        n,
        |call: ToolCallDelta| call.function is Some && call.function->0.name is Some,
    );
    lemma_filter_step(
        calls,
        n,
        |call: ToolCallDelta|
            call.function is Some && call.function->0.arguments is Some
                && call.function->0.arguments->0@.len() > 0,
    );
}

/// The names and the arguments of a list of calls are published in its order.
proof fn lemma_calls_in_order(table: ToolTable, calls: Seq<ToolCallDelta>)
    ensures
        started_names(all_call_events(table, calls)) == brought_names(calls),
        published_arguments(all_call_events(table, calls)) == brought_arguments(calls),
    decreases calls.len(),
{
    if calls.len() == 0 {
        lemma_picked_single(Seq::empty(), Seq::empty());
        lemma_nothing_is_brought();
        assert(calls == Seq::<ToolCallDelta>::empty());
    } else {
        let head = calls.drop_last();
        let before = all_noted(table, head);
        lemma_calls_in_order(table, head);
        lemma_picked_concat(all_call_events(table, head), call_events(before, calls.last()));
        lemma_picked_call(before, calls.last());
        lemma_brought_step(calls);
    }
}

/// No calls bring nothing.
proof fn lemma_nothing_is_brought()
    ensures
        brought_names(Seq::empty()) == Seq::<Seq<char>>::empty(),
        brought_arguments(Seq::empty()) == Seq::<Seq<char>>::empty(),
{
    reveal(Seq::filter);
    assert(brought_names(Seq::empty()) == Seq::<Seq<char>>::empty());
    assert(brought_arguments(Seq::empty()) == Seq::<Seq<char>>::empty());
}

/// The names and the arguments that the calls of a chunk bring are published once
/// each, in their order, and no others, whatever text and finish reason come with
/// them.
pub proof fn calls_are_published_once_and_in_order(table: ToolTable, chunk: ChatCompletionChunk)
    requires
        chunk.choices@.len() > 0,
    ensures
        match chunk.choices@[0].delta.tool_calls {
            Some(calls) => {
                &&& started_names(chunk_events(table, chunk)) == brought_names(calls@)
                &&& published_arguments(chunk_events(table, chunk)) == brought_arguments(calls@)
            },
            None => {
                &&& started_names(chunk_events(table, chunk)) == Seq::<Seq<char>>::empty()
                &&& published_arguments(chunk_events(table, chunk)) == Seq::<Seq<char>>::empty()
            },
        },
{
    let is_start = |event: Event| event is ToolCallStart;
    let is_delta = |event: Event| event is ToolCallDelta;
    let calls = choice_calls(chunk.choices@[0]);
    lemma_filter_parts(table, chunk, is_start);
    lemma_filter_parts(table, chunk, is_delta);
    lemma_head_is_head(chunk, is_start);
    lemma_head_is_head(chunk, is_delta);
    lemma_ends_are_ends(all_noted(table, calls), is_start);
    lemma_ends_are_ends(all_noted(table, calls), is_delta);
    lemma_calls_in_order(table, calls);
    lemma_nothing_is_brought();
    assert(chunk_events(table, chunk).filter(is_start) == all_call_events(table, calls).filter(
        is_start,
    ));
    assert(chunk_events(table, chunk).filter(is_delta) == all_call_events(table, calls).filter(
        is_delta,
    ));
}

/// Whether two chunks report the same usage.
pub open spec fn same_usage(some: ChatCompletionChunk, other: ChatCompletionChunk) -> bool {
    match (some.usage, other.usage) {
        (Some(a), Some(b)) => a.prompt_tokens == b.prompt_tokens && a.completion_tokens
            == b.completion_tokens,
        (None, None) => true,
        _ => false,
    }
}

/// Whether the first choices of two chunks add the same text.
pub open spec fn same_content(some: ChatCompletionChunk, other: ChatCompletionChunk) -> bool {
    match (some.choices@[0].delta.content, other.choices@[0].delta.content) {
        (Some(a), Some(b)) => a@ == b@,
        (None, None) => true,
        _ => false,
    }
}

/// Whether the first choice of a chunk says that the tool calls are complete.
pub open spec fn says_calls_are_complete(chunk: ChatCompletionChunk) -> bool {
    chunk.choices@[0].finish_reason matches Some(reason) && reason@ == "tool_calls"@
}

/// The calls of a chunk could as well come in two: the events are those of a chunk
/// with the first of them, and the usage and the text, and then those of a chunk
/// with the others, and the finish reason.
pub proof fn calls_may_come_in_two_chunks(
    table: ToolTable,
    whole: ChatCompletionChunk,
    first: ChatCompletionChunk,
    second: ChatCompletionChunk,
)
    requires
        whole.choices@.len() > 0,
        first.choices@.len() > 0,
        second.choices@.len() > 0,
        same_usage(whole, first),
        second.usage is None,
        same_content(whole, first),
        second.choices@[0].delta.content is None,
        whole.choices@[0].delta.tool_calls is Some,
        first.choices@[0].delta.tool_calls is Some,
        second.choices@[0].delta.tool_calls is Some,
        whole.choices@[0].delta.tool_calls->0@ == first.choices@[0].delta.tool_calls->0@
            + second.choices@[0].delta.tool_calls->0@,
        first.choices@[0].finish_reason is None,
        says_calls_are_complete(whole) == says_calls_are_complete(second),
    ensures
        chunk_events(table, whole) == chunk_events(table, first) + chunk_events(
            chunk_table(table, first),
            second,
        ),
        chunk_table(table, whole) == chunk_table(chunk_table(table, first), second),
{
    lemma_calls_split(
        table,
        first.choices@[0].delta.tool_calls->0@,
        second.choices@[0].delta.tool_calls->0@,
    );
    assert(chunk_events(table, whole) == chunk_events(table, first) + chunk_events(
        chunk_table(table, first),
        second,
    ));
}

/// A chunk with one call and nothing else: the call is started where it brings a
/// name, its arguments follow where it brings any, and its entry, which is there
/// then, takes on what it brings. No other entry changes.
pub proof fn one_call_is_taken_in(table: ToolTable, chunk: ChatCompletionChunk, call: ToolCallDelta)
    requires
        chunk.usage is None,
        chunk.choices@.len() > 0,
        chunk.choices@[0].delta.content is None,
        chunk.choices@[0].delta.tool_calls is Some,
        chunk.choices@[0].delta.tool_calls->0@ == seq![call],
        chunk.choices@[0].finish_reason is None,
    ensures
        ({
            let events = chunk_events(table, chunk);
            let after = chunk_table(table, chunk);
            let index = call.index as int;
            let starts: int = if call.function is Some && call.function->0.name is Some {
                1
            } else {
                0
            };
            let deltas: int = if call.function is Some && call.function->0.arguments is Some
                && call.function->0.arguments->0@.len() > 0 {
                1
            } else {
                0
            };
            &&& events.len() == starts + deltas
            &&& starts == 1 ==> events[0] == Event::ToolCallStart {
                id: after[index].0,
                name: call.function->0.name->0@,
            }
            &&& deltas == 1 ==> events.last() == Event::ToolCallDelta {
                id: after[index].0,
                args_delta: call.function->0.arguments->0@,
            }
            &&& after.len() == if index < table.len() {
                table.len() as int
            } else {
                index + 1
            }
            &&& call.id matches Some(id) ==> after[index].0 == id@
            &&& call.id is None && index < table.len() ==> after[index].0 == table[index].0
            &&& call.id is None && index >= table.len() ==> after[index].0.len() == 0
            &&& starts == 1 ==> after[index].1 == call.function->0.name->0@
            &&& starts == 0 && index < table.len() ==> after[index].1 == table[index].1
            &&& starts == 0 && index >= table.len() ==> after[index].1.len() == 0
            &&& forall|other: int|
                0 <= other < table.len() && other != index ==> #[trigger] after[other]
                    == table[other]
            &&& forall|other: int|
                table.len() <= other < index ==> (#[trigger] after[other]).0.len() == 0
                    && after[other].1.len() == 0
        }),
{
    let calls = seq![call];
    assert(calls.drop_last() == Seq::<ToolCallDelta>::empty());
    assert(calls.last() == call);
    reveal_with_fuel(all_noted, 2);
    reveal_with_fuel(all_call_events, 2);
    assert(all_call_events(table, calls) == call_events(table, call));
    assert(chunk_events(table, chunk) == call_events(table, call));
    assert(chunk_table(table, chunk) == noted(table, call));
}

/// What a chunk says of the ids: each call in progress has the last that was brought
/// for it, or else the one it had.
pub proof fn calls_in_progress_have_their_ids(
    table: ToolTable,
    chunk: ChatCompletionChunk,
    index: int,
)
    requires
        chunk.choices@.len() > 0,
        chunk.choices@[0].delta.tool_calls is Some,
        !says_calls_are_complete(chunk),
    ensures
        chunk_table(table, chunk).len() >= table.len(),
        forall|i: int|
            0 <= i < chunk.choices@[0].delta.tool_calls->0@.len() ==> (
            #[trigger] chunk.choices@[0].delta.tool_calls->0@[i]).index < chunk_table(
                table,
                chunk,
            ).len(),
        0 <= index < chunk_table(table, chunk).len() ==> id_after(
            table,
            chunk.choices@[0].delta.tool_calls->0@,
            index,
            chunk_table(table, chunk)[index].0,
        ),
{
    let calls = chunk.choices@[0].delta.tool_calls->0@;
    lemma_noted_len(table, calls);
    if 0 <= index < chunk_table(table, chunk).len() {
        lemma_noted_id(table, calls, index);
    }
}

/// The ids of the ends are the known ids, in order.
proof fn lemma_known_ids(table: ToolTable)
    ensures
        ended_ids(end_events(table)) == table.map_values(
            |entry: (Seq<char>, Seq<char>)| entry.0,
        ).filter(|id: Seq<char>| id.len() > 0),
        forall|i: int|
            0 <= i < end_events(table).len() ==> (#[trigger] end_events(table)[i]) is ToolCallEnd,
{
    let part = |entry: (Seq<char>, Seq<char>)| entry.0;
    let known = |entry: (Seq<char>, Seq<char>)| entry.0.len() > 0;
    let known_id = |id: Seq<char>| id.len() > 0;
    let ends = end_events(table);
    lemma_filter_all(ends, |event: Event| event is ToolCallEnd);
    lemma_filter_after_map(table, part, known, known_id);
    assert(ended_ids(ends) == table.filter(known).map_values(part));
}

/// Filtering by what is mapped is mapping what is filtered.
proof fn lemma_filter_after_map<A, B>(
    s: Seq<A>,
    part: spec_fn(A) -> B,
    before: spec_fn(A) -> bool,
    after: spec_fn(B) -> bool,
)
    requires
        forall|x: A| #[trigger] before(x) == after(part(x)),
    ensures
        s.map_values(part).filter(after) == s.filter(before).map_values(part),
    decreases s.len(),
{
    if s.len() == 0 {
        lemma_filter_none(s, before);
        lemma_filter_none(s.map_values(part), after);
        assert(s.map_values(part).filter(after) == s.filter(before).map_values(part));
    } else {
        let n = s.len() - 1;
        let head = s.drop_last();
        lemma_filter_after_map(head, part, before, after);
        lemma_filter_step(s, n, before);
        lemma_filter_step(s.map_values(part), n, after);
        assert(s.take(n + 1) == s && s.take(n) == head);
        assert(s.map_values(part).take(n + 1) == s.map_values(part));
        assert(s.map_values(part).take(n) == head.map_values(part));
        assert(before(s[n]) == after(part(s[n])));
        assert(s.map_values(part).filter(after) == s.filter(before).map_values(part));
    }
}

/// When the tool calls are complete, every one in progress with a known id is
/// ended, in the order of the indices, behind everything else the chunk leads to;
/// then none is in progress.
pub proof fn complete_calls_are_ended(
    table: ToolTable,
    chunk: ChatCompletionChunk,
    unfinished: ChatCompletionChunk,
)
    requires
        chunk.choices@.len() > 0,
        unfinished.choices@.len() > 0,
        same_usage(chunk, unfinished),
        chunk.choices@[0].delta == unfinished.choices@[0].delta,
        says_calls_are_complete(chunk),
        unfinished.choices@[0].finish_reason is None,
    ensures
        ({
            let before = chunk_events(table, unfinished);
            let events = chunk_events(table, chunk);
            let ends = events.skip(before.len() as int);
            &&& before.is_prefix_of(events)
            &&& forall|i: int| 0 <= i < ends.len() ==> (#[trigger] ends[i]) is ToolCallEnd
            &&& ended_ids(ends) == chunk_table(table, unfinished).map_values(
                |entry: (Seq<char>, Seq<char>)| entry.0,
            ).filter(|id: Seq<char>| id.len() > 0)
            &&& ended_ids(before) == Seq::<Seq<char>>::empty()
            &&& chunk_table(table, chunk).len() == 0
        }),
{
    let calls = choice_calls(chunk.choices@[0]);
    let before = chunk_events(table, unfinished);
    let ends = end_events(all_noted(table, calls));
    assert(chunk_events(table, chunk) == before + ends);
    assert((before + ends).skip(before.len() as int) == ends);
    lemma_known_ids(all_noted(table, calls));
    lemma_nothing_ends_before(table, unfinished);
}

/// Unless the calls are complete, none is ended.
proof fn lemma_nothing_ends_before(table: ToolTable, chunk: ChatCompletionChunk)
    requires
        chunk.choices@.len() > 0,
        !says_calls_are_complete(chunk),
    ensures
        ended_ids(chunk_events(table, chunk)) == Seq::<Seq<char>>::empty(),
{
    let is_end = |event: Event| event is ToolCallEnd;
    lemma_filter_parts(table, chunk, is_end);
    lemma_head_is_head(chunk, is_end);
    lemma_calls_are_calls(table, choice_calls(chunk.choices@[0]), is_end);
    assert(chunk_events(table, chunk).filter(is_end) == Seq::<Event>::empty());
}

/// No other finish reason matters, nor how an absence of calls is written, nor any
/// choice but the first.
pub proof fn nothing_else_in_a_chunk_matters(
    table: ToolTable,
    some: ChatCompletionChunk,
    other: ChatCompletionChunk,
)
    requires
        same_usage(some, other),
        some.choices@.len() > 0,
        other.choices@.len() > 0,
        same_content(some, other),
        ({
            let calls = some.choices@[0].delta.tool_calls;
            let others = other.choices@[0].delta.tool_calls;
            ||| calls == others
            ||| calls is None && others is Some && others->0@.len() == 0
        }),
        says_calls_are_complete(some) == says_calls_are_complete(other),
    ensures
        chunk_events(table, some) == chunk_events(table, other),
        chunk_table(table, some) == chunk_table(table, other),
{
    assert(choice_calls(some.choices@[0]) == choice_calls(other.choices@[0]));
    assert(chunk_events(table, some) == chunk_events(table, other));
}

/// A chunk without choices leads to nothing but its usage, and leaves the calls in
/// progress as they are.
pub proof fn chunks_without_choices_only_report_usage(table: ToolTable, chunk: ChatCompletionChunk)
    requires
        chunk.choices@.len() == 0,
    ensures
        chunk_events(table, chunk) == usage_reports(chunk_events(table, chunk)),
        chunk_table(table, chunk) == table,
{
    lemma_filter_all(usage_events(chunk), |event: Event| event is Usage);
    assert(chunk_events(table, chunk) == usage_events(chunk));
}

/// The rank of an event within a chunk: usage, text, tool calls, ends.
pub open spec fn rank(event: Event) -> int {
    match event {
        Event::Usage { .. } => 0,
        Event::TextDelta(_) => 1,
        Event::ToolCallStart { .. } => 2,
        Event::ToolCallDelta { .. } => 2,
        Event::ToolCallEnd { .. } => 3,
        Event::Done => 4,
        Event::Error(_) => 5,
    }
}

/// The events of a chunk come in this order: usage, text, tool calls, ends.
pub proof fn events_come_in_order(table: ToolTable, chunk: ChatCompletionChunk, i: int, j: int)
    requires
        0 <= i <= j < chunk_events(table, chunk).len(),
    ensures
        rank(chunk_events(table, chunk)[i]) <= rank(chunk_events(table, chunk)[j]) <= 3,
{
    if chunk.choices@.len() > 0 {
        let calls = choice_calls(chunk.choices@[0]);
        lemma_call_kinds(table, calls);
        lemma_known_ids(all_noted(table, calls));
    }
}

/// Tool calls lead to starts and deltas only.
proof fn lemma_call_kinds(table: ToolTable, calls: Seq<ToolCallDelta>)
    ensures
        forall|i: int|
            0 <= i < all_call_events(table, calls).len() ==> rank(
                #[trigger] all_call_events(table, calls)[i],
            ) == 2,
    decreases calls.len(),
{
    if calls.len() > 0 {
        let head = calls.drop_last();
        let earlier = all_call_events(table, head);
        let own = call_events(all_noted(table, head), calls.last());
        lemma_call_kinds(table, head);
        assert forall|i: int| 0 <= i < all_call_events(table, calls).len() implies rank(
            #[trigger] all_call_events(table, calls)[i],
        ) == 2 by {
            if i < earlier.len() {
                assert(all_call_events(table, calls)[i] == earlier[i]);
            } else {
                assert(all_call_events(table, calls)[i] == own[i - earlier.len()]);
            }
        }
    }
}

/// All the text that some events publish.
pub open spec fn published_text(events: Seq<Event>) -> Seq<char>
    decreases events.len(),
{
    if events.len() == 0 {
        Seq::empty()
    } else {
        published_text(events.drop_last()) + match events.last() {
            Event::TextDelta(text) => text,
            _ => Seq::empty(),
        }
    }
}

/// Text is published piece by piece.
proof fn lemma_published_text_concat(some: Seq<Event>, others: Seq<Event>)
    ensures
        published_text(some + others) == published_text(some) + published_text(others),
    decreases others.len(),
{
    if others.len() == 0 {
        assert(some + others == some);
        assert(published_text(some) + published_text(others) == published_text(some));
    } else {
        lemma_published_text_concat(some, others.drop_last());
        assert((some + others).drop_last() == some + others.drop_last());
        assert(published_text(some + others) == published_text(some) + published_text(others));
    }
}

/// Only text deltas publish text.
proof fn lemma_published_text_of_deltas(events: Seq<Event>)
    ensures
        published_text(events) == published_text(text_deltas(events)),
    decreases events.len(),
{
    reveal(Seq::filter);
    if events.len() > 0 {
        let head = events.drop_last();
        lemma_published_text_of_deltas(head);
        if events.last() is TextDelta {
            assert(text_deltas(events) == text_deltas(head).push(events.last()));
            assert(text_deltas(events).drop_last() == text_deltas(head));
        } else {
            assert(text_deltas(events) == text_deltas(head));
            assert(published_text(events) == published_text(head));
        }
    }
}

/// The text that a payload adds: the content of the first choice, where it parses
/// as a chunk.
pub open spec fn payload_text(
    payload: Payload,
    parse: spec_fn(Seq<char>) -> Option<ChatCompletionChunk>,
) -> Seq<char> {
    match payload {
        Payload::Data(data) => match parse(data) {
            Some(chunk) => if chunk.choices@.len() > 0 {
                match chunk.choices@[0].delta.content {
                    Some(text) => text@,
                    None => Seq::empty(),
                }
            } else {
                Seq::empty()
            },
            None => Seq::empty(),
        },
        Payload::Done => Seq::empty(),
    }
}

/// The texts that chunks add, joined, are the text that is published, character for
/// character.
pub proof fn all_text_is_published(
    table: ToolTable,
    found: Seq<Payload>,
    parse: spec_fn(Seq<char>) -> Option<ChatCompletionChunk>,
)
    requires
        forall|i: int| 0 <= i < found.len() - 1 ==> !((#[trigger] found[i]) is Done),
    ensures
        published_text(payload_events(table, found, parse)) == found.map_values(
            |payload: Payload| payload_text(payload, parse),
        ).flatten(),
    decreases found.len(),
{
    let text = |payload: Payload| payload_text(payload, parse);
    reveal_with_fuel(published_text, 2);
    if found.len() == 0 {
        assert(found.map_values(text).flatten() == Seq::<char>::empty());
    } else {
        let others = found.drop_first();
        assert forall|i: int| 0 <= i < others.len() - 1 implies !((#[trigger] others[i]) is Done) by {
            assert(others[i] == found[i + 1]);
        }
        assert(found.map_values(text).drop_first() == others.map_values(text));
        assert(found.map_values(text).flatten() == payload_text(found[0], parse)
            + others.map_values(text).flatten());
        match found[0] {
            Payload::Done => {
                assert(others == Seq::<Payload>::empty());
                assert(others.map_values(text).flatten() == Seq::<char>::empty());
                assert(seq![Event::Done].drop_last() == Seq::<Event>::empty());
                assert(published_text(seq![Event::Done]) == Seq::<char>::empty());
            },
            Payload::Data(data) => match parse(data) {
                Some(chunk) => {
                    let own = chunk_events(table, chunk);
                    let after = chunk_table(table, chunk);
                    all_text_is_published(after, others, parse);
                    lemma_published_text_concat(own, payload_events(after, others, parse));
                    lemma_published_text_of_deltas(own);
                    if chunk.choices@.len() > 0 {
                        text_is_published_exactly_once(table, chunk);
                        if text_deltas(own).len() > 0 {
                            assert(text_deltas(own).drop_last() == Seq::<Event>::empty());
                        }
                    } else {
                        lemma_filter_none(usage_events(chunk), |event: Event| event is TextDelta);
                        assert(own == usage_events(chunk));
                    }
                    assert(published_text(own) == payload_text(found[0], parse));
                },
                None => {
                    all_text_is_published(table, others, parse);
                    assert(Seq::<char>::empty() + others.map_values(text).flatten()
                        == others.map_values(text).flatten());
                },
            },
        }
    }
}

/// What an event says holds everything that the event holds.
pub proof fn events_say_what_they_hold(event: StreamEvent)
    ensures
        match event {
            StreamEvent::TextDelta(text) => event@ matches Event::TextDelta(said) && said == text@,
            StreamEvent::ToolCallStart { id, name } => event@ matches Event::ToolCallStart {
                id: said,
                name: named,
            } && said == id@ && named == name@,
            StreamEvent::ToolCallDelta { id, args_delta } => event@ matches Event::ToolCallDelta {
                id: said,
                args_delta: added,
            } && said == id@ && added == args_delta@,
            StreamEvent::ToolCallEnd { id } => event@ matches Event::ToolCallEnd { id: said }
                && said == id@,
            StreamEvent::Usage { input_tokens, output_tokens } => event@ matches Event::Usage {
                input_tokens: i,
                output_tokens: o,
            } && i == input_tokens && o == output_tokens,
            StreamEvent::Done => event@ is Done,
            StreamEvent::Error(message) => event@ matches Event::Error(said) && said == message@,
        },
{
}

/// Lists of events and of calls in progress are read element by element.
pub proof fn events_and_calls_are_read_in_order(
    events: Seq<StreamEvent>,
    entries: Seq<(String, String)>,
    i: int,
)
    ensures
        events_of(events).len() == events.len(),
        0 <= i < events.len() ==> events_of(events)[i] == events[i]@,
        table_of(entries).len() == entries.len(),
        0 <= i < entries.len() ==> table_of(entries)[i] == (entries[i].0@, entries[i].1@),
{
}

/// A chunk fits where each call of its first choice has an index with another behind
/// it; a chunk without such calls always does.
pub proof fn chunks_fit_by_their_indices(chunk: ChatCompletionChunk)
    ensures
        chunk.choices@.len() == 0 ==> chunk_fits(chunk),
        chunk.choices@.len() > 0 ==> match chunk.choices@[0].delta.tool_calls {
            Some(calls) => chunk_fits(chunk) <==> forall|i: int|
                0 <= i < calls@.len() ==> (#[trigger] calls@[i]).index + 1 <= usize::MAX,
            None => chunk_fits(chunk),
        },
{
}

} // verus!
