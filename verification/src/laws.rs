//! What holds of the library as a whole.

use crate::json::Json;
use crate::lists::{
    lemma_filter_all, lemma_filter_contains, lemma_filter_none, lemma_filter_partition,
};
use crate::message::{message_json, role_text, Message, MessageContent, MessageRole};
use crate::models::{
    advertised, is_model, is_other_model, provider_json, usable_ids, REQUEST_TOPIC, STREAM_TOPIC,
};
use crate::request::{
    body_members, conversation, offered_tools, resolved_model, spoken, system_json, temperature,
    token_limit, LlmToolDefinition,
};
use crate::response::{cut_is_clean, kept, too_long, MAX_ERROR_BODY};
use crate::settings::{endpoint, Settings};
use crate::sse::{
    exceeds_limit, given_up, has_line, lemma_line_len, lemma_line_len_unique, lemma_scan_shrinks,
    line_len, line_payload, payload_events, payloads, scan, stream_events, Payload,
};
use crate::stream::{
    all_call_events, all_noted, call_events, choice_calls, chunk_events, chunk_table, end_events,
    noted, ChatCompletionChunk, Event, ToolCallDelta, ToolTable,
};
use crate::text::{blank, lemma_encode_concat};
use vstd::prelude::*;
use vstd::utf8::{decode_utf8, encode_utf8, valid_utf8};

verus! {

/// A line that is complete stays the first line, whatever follows.
proof fn lemma_line_len_extends(a: Seq<char>, b: Seq<char>)
    requires
        has_line(a),
    ensures
        line_len(a + b) == line_len(a),
{
    lemma_line_len(a);
    let n = line_len(a) as int;
    assert forall|i: int| 0 <= i < n implies #[trigger] (a + b)[i] != '\n' by {
        assert((a + b)[i] == a[i]);
    }
    lemma_line_len_unique(a + b, n);
}

/// A payload found in `a` is found in `a + b`; where none is, the search goes on
/// with what `a` leaves and `b`.
proof fn lemma_scan_extends(a: Seq<char>, b: Seq<char>)
    ensures
        scan(a).0 is Some ==> scan(a + b) == (scan(a).0, scan(a).1 + b),
        scan(a).0 is None ==> scan(a + b) == scan(scan(a).1 + b),
    decreases a.len(),
{
    if has_line(a) {
        lemma_line_len_extends(a, b);
        let n = line_len(a) as int;
        assert((a + b).take(n) == a.take(n));
        assert((a + b).skip(n + 1) == a.skip(n + 1) + b);
        lemma_scan_extends(a.skip(n + 1), b);
    }
}

/// How a response is cut into reads does not matter: the events published read by
/// read are those for the payloads of the whole text, whatever parsing makes of
/// each, unless the stream is given up for a read that exceeds the line buffer.
pub proof fn reads_lead_to_the_events_of_the_whole_text(
    buffer: Seq<char>,
    table: ToolTable,
    texts: Seq<Seq<char>>,
    parse: spec_fn(Seq<char>) -> Option<ChatCompletionChunk>,
)
    requires
        !given_up(buffer, texts),
    ensures
        stream_events(buffer, table, texts, parse) == payload_events(
            table,
            payloads(buffer + texts.flatten()),
            parse,
        ),
    decreases texts.len(), buffer.len(),
{
    let whole = buffer + texts.flatten();
    lemma_scan_shrinks(buffer);
    lemma_scan_extends(buffer, texts.flatten());
    match scan(buffer) {
        (Some(Payload::Data(data)), rest) => {
            let others = payloads(rest + texts.flatten());
            assert(payloads(whole) == seq![Payload::Data(data)] + others);
            assert(payloads(whole)[0] == Payload::Data(data));
            assert(payloads(whole).drop_first() == others);
            let after = match parse(data) {
                Some(chunk) => chunk_table(table, chunk),
                None => table,
            };
            reads_lead_to_the_events_of_the_whole_text(rest, after, texts, parse);
        },
        (Some(Payload::Done), _) => {
            assert(payloads(whole) == seq![Payload::Done]);
        },
        (None, rest) => {
            assert(scan(rest) == (None::<Payload>, rest));
            if texts.len() == 0 {
                assert(whole == buffer);
            } else {
                let others = texts.drop_first();
                assert(texts.flatten() == texts[0] + others.flatten());
                assert(rest + texts.flatten() == (rest + texts[0]) + others.flatten());
                assert(payloads(whole) == payloads(rest + texts.flatten()));
                reads_lead_to_the_events_of_the_whole_text(rest + texts[0], table, others, parse);
            }
        },
    }
}

/// Two ways of cutting the same response into reads lead to the same events, where
/// neither is given up.
pub proof fn reads_do_not_change_the_events(
    some: Seq<Seq<char>>,
    others: Seq<Seq<char>>,
    parse: spec_fn(Seq<char>) -> Option<ChatCompletionChunk>,
)
    requires
        some.flatten() == others.flatten(),
        !given_up(Seq::empty(), some),
        !given_up(Seq::empty(), others),
    ensures
        stream_events(Seq::empty(), Seq::empty(), some, parse) == stream_events(
            Seq::empty(),
            Seq::empty(),
            others,
            parse,
        ),
{
    reads_lead_to_the_events_of_the_whole_text(Seq::empty(), Seq::empty(), some, parse);
    reads_lead_to_the_events_of_the_whole_text(Seq::empty(), Seq::empty(), others, parse);
}

/// Decoding valid UTF-8 piece by piece gives what decoding it at once gives.
proof fn lemma_decode_concat(a: Seq<u8>, b: Seq<u8>)
    requires
        valid_utf8(a),
        valid_utf8(b),
    ensures
        valid_utf8(a + b),
        decode_utf8(a + b) == decode_utf8(a) + decode_utf8(b),
{
    vstd::utf8::decode_utf8_encode_utf8(a);
    vstd::utf8::decode_utf8_encode_utf8(b);
    lemma_encode_concat(decode_utf8(a), decode_utf8(b));
    vstd::utf8::encode_utf8_valid_utf8(decode_utf8(a) + decode_utf8(b));
    vstd::utf8::encode_utf8_decode_utf8(decode_utf8(a) + decode_utf8(b));
}

/// A response whose reads are each valid UTF-8 leads to the events for the payloads
/// of its decoded bytes, however it is cut, where it is not given up.
pub proof fn valid_reads_lead_to_the_events_of_the_whole_response(
    reads: Seq<Seq<u8>>,
    parse: spec_fn(Seq<char>) -> Option<ChatCompletionChunk>,
)
    requires
        forall|i: int| 0 <= i < reads.len() ==> valid_utf8(#[trigger] reads[i]),
        !given_up(Seq::empty(), reads.map_values(|read: Seq<u8>| decode_utf8(read))),
    ensures
        stream_events(
            Seq::empty(),
            Seq::empty(),
            reads.map_values(|read: Seq<u8>| decode_utf8(read)),
            parse,
        ) == payload_events(Seq::empty(), payloads(decode_utf8(reads.flatten())), parse),
{
    let texts = reads.map_values(|read: Seq<u8>| decode_utf8(read));
    lemma_decode_flatten(reads);
    reads_lead_to_the_events_of_the_whole_text(Seq::empty(), Seq::empty(), texts, parse);
    assert(Seq::<char>::empty() + texts.flatten() == texts.flatten());
}

/// Decoding a list of reads one by one gives what decoding them at once gives.
proof fn lemma_decode_flatten(reads: Seq<Seq<u8>>)
    requires
        forall|i: int| 0 <= i < reads.len() ==> valid_utf8(#[trigger] reads[i]),
    ensures
        valid_utf8(reads.flatten()),
        reads.map_values(|read: Seq<u8>| decode_utf8(read)).flatten() == decode_utf8(
            reads.flatten(),
        ),
    decreases reads.len(),
{
    let decode = |read: Seq<u8>| decode_utf8(read);
    let texts = reads.map_values(decode);
    if reads.len() > 0 {
        let others = reads.drop_first();
        assert forall|i: int| 0 <= i < others.len() implies valid_utf8(#[trigger] others[i]) by {
            assert(others[i] == reads[i + 1]);
        }
        lemma_decode_flatten(others);
        lemma_decode_concat(reads[0], others.flatten());
        assert(texts.drop_first() == others.map_values(decode));
        assert(texts.flatten() == texts[0] + texts.drop_first().flatten());
        assert(reads.flatten() == reads[0] + others.flatten());
    } else {
        assert(reads.flatten() == Seq::<u8>::empty());
        assert(texts.flatten() == Seq::<char>::empty());
    }
}

/// What a scan leaves is the end of what it was given.
proof fn lemma_scan_rest_is_a_suffix(buffer: Seq<char>) -> (cut: Seq<char>)
    ensures
        buffer == cut + scan(buffer).1,
    decreases buffer.len(),
{
    if has_line(buffer) {
        let n = line_len(buffer) as int;
        let line = buffer.take(n + 1);
        let rest = buffer.skip(n + 1);
        assert(buffer == line + rest);
        match line_payload(buffer.take(n)) {
            Some(_) => line,
            None => {
                let cut = lemma_scan_rest_is_a_suffix(rest);
                assert(buffer == (line + cut) + scan(rest).1);
                line + cut
            },
        }
    } else {
        assert(buffer == Seq::<char>::empty() + buffer);
        Seq::empty()
    }
}

/// A buffer within the limit stays within it as lines are cut off, and holds no
/// complete line when more is to be read.
pub proof fn the_buffer_stays_bounded(buffer: Seq<char>)
    requires
        !exceeds_limit(buffer),
    ensures
        !exceeds_limit(scan(buffer).1),
        scan(buffer).0 is None ==> !has_line(scan(buffer).1),
{
    let cut = lemma_scan_rest_is_a_suffix(buffer);
    lemma_encode_concat(cut, scan(buffer).1);
    lemma_scan_shrinks(buffer);
}

/// A response that fits the line buffer as a whole is never given up.
pub proof fn short_responses_are_never_given_up(buffer: Seq<char>, texts: Seq<Seq<char>>)
    requires
        !exceeds_limit(buffer + texts.flatten()),
    ensures
        !given_up(buffer, texts),
    decreases texts.len(), buffer.len(),
{
    lemma_scan_shrinks(buffer);
    let cut = lemma_scan_rest_is_a_suffix(buffer);
    let rest = scan(buffer).1;
    let whole = texts.flatten();
    assert(buffer + whole == cut + (rest + whole));
    lemma_encode_concat(cut, rest + whole);
    match scan(buffer) {
        (Some(Payload::Data(_)), _) => {
            short_responses_are_never_given_up(rest, texts);
        },
        (Some(Payload::Done), _) => {},
        (None, _) => {
            if texts.len() > 0 {
                let others = texts.drop_first();
                assert(whole == texts[0] + others.flatten());
                assert(rest + whole == (rest + texts[0]) + others.flatten());
                lemma_encode_concat(rest + texts[0], others.flatten());
                short_responses_are_never_given_up(rest + texts[0], others);
            }
        },
    }
}

/// Nothing is found behind the end of the stream.
pub proof fn nothing_follows_the_end(buffer: Seq<char>, i: int)
    requires
        0 <= i < payloads(buffer).len(),
        payloads(buffer)[i] is Done,
    ensures
        i == payloads(buffer).len() - 1,
    decreases buffer.len(),
{
    lemma_scan_shrinks(buffer);
    match scan(buffer) {
        (Some(Payload::Data(data)), rest) => {
            assert(payloads(buffer) == seq![Payload::Data(data)] + payloads(rest));
            assert(i > 0);
            assert(payloads(buffer)[i] == payloads(rest)[i - 1]);
            nothing_follows_the_end(rest, i - 1);
        },
        (Some(Payload::Done), _) => {},
        (None, _) => {},
    }
}

/// Lines that carry nothing leave no trace.
pub proof fn idle_lines_are_passed_over(line: Seq<char>, rest: Seq<char>)
    requires
        !line.contains('\n'),
        line_payload(line) is None,
    ensures
        payloads(line + seq!['\n'] + rest) == payloads(rest),
{
    let buffer = line + seq!['\n'] + rest;
    assert forall|i: int| 0 <= i < line.len() implies #[trigger] buffer[i] != '\n' by {
        assert(buffer[i] == line[i]);
        assert(line.contains(line[i]));
    }
    lemma_line_len_unique(buffer, line.len() as int);
    assert(buffer.take(line.len() as int) == line);
    assert(buffer.skip(line.len() as int + 1) == rest);
    assert(scan(buffer) == scan(rest));
}

/// A chunk never ends the stream or reports a failure by itself.
pub proof fn chunks_never_end_the_stream(table: ToolTable, chunk: ChatCompletionChunk, i: int)
    requires
        0 <= i < chunk_events(table, chunk).len(),
    ensures
        !(chunk_events(table, chunk)[i] is Done),
        !(chunk_events(table, chunk)[i] is Error),
{
    if chunk.choices@.len() > 0 {
        let calls = choice_calls(chunk.choices@[0]);
        lemma_call_events_kind(table, calls);
        let ends = end_events(all_noted(table, calls));
        assert forall|j: int| 0 <= j < ends.len() implies (#[trigger] ends[j]) is ToolCallEnd by {}
    }
}

/// Tool calls lead to starts and deltas only.
proof fn lemma_call_events_kind(table: ToolTable, calls: Seq<ToolCallDelta>)
    ensures
        forall|i: int|
            0 <= i < all_call_events(table, calls).len() ==> {
                ||| (#[trigger] all_call_events(table, calls)[i]) is ToolCallStart
                ||| all_call_events(table, calls)[i] is ToolCallDelta
            },
    decreases calls.len(),
{
    if calls.len() > 0 {
        lemma_call_events_kind(table, calls.drop_last());
    }
}

/// The end of the stream is published at most once, and last.
pub proof fn done_is_the_last_event(
    table: ToolTable,
    found: Seq<Payload>,
    parse: spec_fn(Seq<char>) -> Option<ChatCompletionChunk>,
    i: int,
)
    requires
        0 <= i < payload_events(table, found, parse).len(),
        payload_events(table, found, parse)[i] is Done,
    ensures
        i == payload_events(table, found, parse).len() - 1,
    decreases found.len(),
{
    if found.len() > 0 {
        match found[0] {
            Payload::Done => {},
            Payload::Data(data) => match parse(data) {
                Some(chunk) => {
                    let first = chunk_events(table, chunk);
                    let after = chunk_table(table, chunk);
                    if i < first.len() {
                        chunks_never_end_the_stream(table, chunk, i);
                    } else {
                        done_is_the_last_event(after, found.drop_first(), parse, i - first.len());
                    }
                },
                None => {
                    done_is_the_last_event(table, found.drop_first(), parse, i);
                },
            },
        }
    }
}

/// Where the end of the stream is found, it is published.
pub proof fn the_end_is_published(
    table: ToolTable,
    found: Seq<Payload>,
    parse: spec_fn(Seq<char>) -> Option<ChatCompletionChunk>,
)
    requires
        found.contains(Payload::Done),
    ensures
        payload_events(table, found, parse).len() > 0,
        payload_events(table, found, parse).last() is Done,
    decreases found.len(),
{
    let k = choose|k: int| 0 <= k < found.len() && found[k] == Payload::Done;
    if let Payload::Data(data) = found[0] {
        let others = found.drop_first();
        assert(others[k - 1] == Payload::Done);
        assert(others.contains(Payload::Done));
        let after = match parse(data) {
            Some(chunk) => chunk_table(table, chunk),
            None => table,
        };
        the_end_is_published(after, others, parse);
    }
}

/// A tool call leaves every other call in progress as it was.
pub proof fn parallel_calls_do_not_interfere(table: ToolTable, call: ToolCallDelta, other: int)
    requires
        0 <= other < table.len(),
        other != call.index,
    ensures
        noted(table, call).len() >= table.len(),
        noted(table, call)[other] == table[other],
{
}

/// A call in progress keeps its id until another comes: what later chunks add to
/// it is published under that id.
pub proof fn calls_keep_their_id(table: ToolTable, call: ToolCallDelta, i: int)
    requires
        call.index < table.len(),
        call.id is None,
        0 <= i < call_events(table, call).len(),
    ensures
        noted(table, call)[call.index as int].0 == table[call.index as int].0,
        match call_events(table, call)[i] {
            Event::ToolCallStart { id, .. } => id == table[call.index as int].0,
            Event::ToolCallDelta { id, .. } => id == table[call.index as int].0,
            _ => false,
        },
{
}

/// An id that a call brings is what the call's own events are published under.
pub proof fn calls_take_their_id(table: ToolTable, call: ToolCallDelta, i: int)
    requires
        call.id is Some,
        0 <= i < call_events(table, call).len(),
    ensures
        noted(table, call)[call.index as int].0 == call.id->0@,
        match call_events(table, call)[i] {
            Event::ToolCallStart { id, .. } => id == call.id->0@,
            Event::ToolCallDelta { id, .. } => id == call.id->0@,
            _ => false,
        },
{
}

/// Every call in progress with a known id is ended, and no other.
pub proof fn all_known_calls_are_ended(table: ToolTable, id: Seq<char>)
    ensures
        end_events(table).contains(Event::ToolCallEnd { id }) <==> id.len() > 0 && exists|j: int|
            0 <= j < table.len() && (#[trigger] table[j]).0 == id,
{
    let known = |entry: (Seq<char>, Seq<char>)| entry.0.len() > 0;
    let ended = table.filter(known);
    let ends = end_events(table);
    if ends.contains(Event::ToolCallEnd { id }) {
        let k = choose|k: int| 0 <= k < ends.len() && ends[k] == Event::ToolCallEnd { id };
        lemma_filter_contains(table, known, ended[k]);
        assert(ended.contains(ended[k]));
        assert(ended[k].0 == id);
        let j = choose|j: int| 0 <= j < table.len() && table[j] == ended[k];
        assert(table[j].0 == id);
    }
    if id.len() > 0 && exists|j: int| 0 <= j < table.len() && (#[trigger] table[j]).0 == id {
        let j = choose|j: int| 0 <= j < table.len() && (#[trigger] table[j]).0 == id;
        lemma_filter_contains(table, known, table[j]);
        assert(table.contains(table[j]));
        let k = choose|k: int| 0 <= k < ended.len() && ended[k] == table[j];
        assert(ends[k] == Event::ToolCallEnd { id });
    }
}

/// Calls leave the id at an index alone, unless they bring another for it.
proof fn lemma_ids_are_kept(table: ToolTable, calls: Seq<ToolCallDelta>, index: int)
    requires
        0 <= index < table.len(),
        forall|i: int|
            0 <= i < calls.len() && (#[trigger] calls[i]).index == index ==> calls[i].id is None,
    ensures
        all_noted(table, calls).len() >= table.len(),
        all_noted(table, calls)[index].0 == table[index].0,
    decreases calls.len(),
{
    if calls.len() > 0 {
        let head = calls.drop_last();
        assert forall|i: int|
            0 <= i < head.len() && (#[trigger] head[i]).index == index implies head[i].id is None by {
            assert(head[i] == calls[i]);
        }
        lemma_ids_are_kept(table, head, index);
        assert(calls[calls.len() - 1] == calls.last());
    }
}

/// A call with a known id is ended under that id when the tool calls finish,
/// whatever other calls add in between, unless its index is given another id.
pub proof fn known_calls_are_ended_under_their_id(
    table: ToolTable,
    call: ToolCallDelta,
    later: Seq<ToolCallDelta>,
)
    requires
        noted(table, call)[call.index as int].0.len() > 0,
        forall|i: int|
            0 <= i < later.len() && (#[trigger] later[i]).index == call.index ==> later[i].id is None,
    ensures
        end_events(all_noted(noted(table, call), later)).contains(
            Event::ToolCallEnd { id: noted(table, call)[call.index as int].0 },
        ),
{
    let index = call.index as int;
    let id = noted(table, call)[index].0;
    let finished = all_noted(noted(table, call), later);
    lemma_ids_are_kept(noted(table, call), later, index);
    all_known_calls_are_ended(finished, id);
    assert(finished[index].0 == id);
}

/// The usable ids are exactly the listed ones that are not blank, each once.
pub proof fn usable_ids_are_distinct_and_complete(ids: Seq<Seq<char>>)
    ensures
        usable_ids(ids).no_duplicates(),
        forall|id: Seq<char>| #[trigger]
            usable_ids(ids).contains(id) <==> ids.contains(id) && !blank(id),
        usable_ids(ids).len() <= ids.len(),
    decreases ids.len(),
{
    if ids.len() > 0 {
        let head = ids.drop_last();
        let last = ids.last();
        usable_ids_are_distinct_and_complete(head);
        assert(ids == head.push(last));
        assert forall|id: Seq<char>| #[trigger]
            usable_ids(ids).contains(id) <==> ids.contains(id) && !blank(id) by {
            vstd::seq_lib::lemma_seq_contains_after_push(head, last, id);
            vstd::seq_lib::lemma_seq_contains_after_push(usable_ids(head), last, id);
        }
        let earlier = usable_ids(head);
        if !blank(last) && !earlier.contains(last) {
            assert forall|i: int, j: int|
                0 <= i < usable_ids(ids).len() && 0 <= j < usable_ids(ids).len() && i
                    != j implies usable_ids(ids)[i] != usable_ids(ids)[j] by {
                if i < earlier.len() {
                    assert(earlier.contains(earlier[i]));
                }
                if j < earlier.len() {
                    assert(earlier.contains(earlier[j]));
                }
            }
        }
    }
}

/// Where an id is listed first.
pub open spec fn first_at(ids: Seq<Seq<char>>, i: int) -> bool {
    &&& 0 <= i < ids.len()
    &&& forall|j: int| 0 <= j < i ==> #[trigger] ids[j] != ids[i]
}

/// The usable ids stand in the order in which they are first listed.
pub proof fn usable_ids_keep_the_order(ids: Seq<Seq<char>>, i: int, j: int)
    requires
        0 <= i < j < usable_ids(ids).len(),
    ensures
        exists|p: int, q: int|
            #![trigger ids[p], ids[q]]
            p < q && first_at(ids, p) && first_at(ids, q) && ids[p] == usable_ids(ids)[i] && ids[q]
                == usable_ids(ids)[j],
    decreases ids.len(),
{
    let head = ids.drop_last();
    let last = ids.last();
    let earlier = usable_ids(head);
    usable_ids_are_distinct_and_complete(head);
    if j < earlier.len() {
        usable_ids_keep_the_order(head, i, j);
        let (p, q) = choose|p: int, q: int|
            #![trigger head[p], head[q]]
            p < q && first_at(head, p) && first_at(head, q) && head[p] == earlier[i] && head[q]
                == earlier[j];
        lemma_first_at_extends(ids, p);
        lemma_first_at_extends(ids, q);
        assert(ids[p] == head[p] && ids[q] == head[q]);
    } else {
        assert(earlier.contains(earlier[i]));
        assert(head.contains(earlier[i]));
        let p = lemma_first_listing(head, earlier[i]);
        lemma_first_at_extends(ids, p);
        let q = ids.len() - 1;
        assert(!head.contains(last));
        assert forall|k: int| 0 <= k < q implies #[trigger] ids[k] != ids[q] by {
            assert(ids[k] == head[k]);
            assert(head.contains(head[k]));
        }
        assert(first_at(ids, q));
        assert(ids[p] == head[p]);
        assert(ids[q] == last);
    }
}

/// A first listing stays first, whatever is listed behind it.
proof fn lemma_first_at_extends(ids: Seq<Seq<char>>, i: int)
    requires
        ids.len() > 0,
        first_at(ids.drop_last(), i),
    ensures
        first_at(ids, i),
{
    let head = ids.drop_last();
    assert forall|j: int| 0 <= j < i implies #[trigger] ids[j] != ids[i] by {
        assert(head[j] != head[i]);
    }
}

/// What is listed is listed somewhere first.
proof fn lemma_first_listing(ids: Seq<Seq<char>>, id: Seq<char>) -> (p: int)
    requires
        ids.contains(id),
    ensures
        first_at(ids, p),
        ids[p] == id,
    decreases ids.len(),
{
    let head = ids.drop_last();
    if head.contains(id) {
        let p = lemma_first_listing(head, id);
        lemma_first_at_extends(ids, p);
        p
    } else {
        let p = choose|p: int| 0 <= p < ids.len() && ids[p] == id;
        assert forall|j: int| 0 <= j < p implies #[trigger] ids[j] != ids[p] by {
            assert(ids[j] == head[j]);
            assert(head.contains(head[j]));
        }
        p
    }
}

/// Extracting twice is extracting once.
pub proof fn usable_ids_are_usable(ids: Seq<Seq<char>>)
    ensures
        usable_ids(usable_ids(ids)) == usable_ids(ids),
{
    usable_ids_are_distinct_and_complete(ids);
    let usable = usable_ids(ids);
    assert forall|i: int| 0 <= i < usable.len() implies !blank(#[trigger] usable[i]) by {
        assert(usable.contains(usable[i]));
    }
    lemma_distinct_ids_are_kept(usable);
}

/// Of distinct ids without blank ones, all are usable.
proof fn lemma_distinct_ids_are_kept(ids: Seq<Seq<char>>)
    requires
        ids.no_duplicates(),
        forall|i: int| 0 <= i < ids.len() ==> !blank(#[trigger] ids[i]),
    ensures
        usable_ids(ids) == ids,
    decreases ids.len(),
{
    if ids.len() > 0 {
        let head = ids.drop_last();
        assert forall|i: int| 0 <= i < head.len() implies !blank(#[trigger] head[i]) by {
            assert(head[i] == ids[i]);
        }
        lemma_distinct_ids_are_kept(head);
        assert(!head.contains(ids.last()));
        assert(!blank(ids.last()));
        assert(ids == head.push(ids.last()));
    }
}

/// Every model is advertised, as often as it is offered.
pub proof fn every_model_is_advertised(ids: Seq<Seq<char>>, default_model: Seq<char>)
    ensures
        advertised(ids, default_model).to_multiset() == ids.to_multiset(),
        advertised(ids, default_model).len() == ids.len(),
{
    let is_default = is_model(default_model);
    lemma_filter_partition(ids, is_default);
    assert((|id: Seq<char>| !is_default(id)) =~= is_other_model(default_model));
}

/// No discovered model is advertised twice, however often the catalogue lists it.
pub proof fn no_discovered_model_is_advertised_twice(
    listed: Seq<Seq<char>>,
    default_model: Seq<char>,
)
    ensures
        advertised(usable_ids(listed), default_model).no_duplicates(),
{
    usable_ids_are_distinct_and_complete(listed);
    every_model_is_advertised(usable_ids(listed), default_model);
    usable_ids(listed).lemma_multiset_has_no_duplicates();
    advertised(usable_ids(listed), default_model).lemma_multiset_has_no_duplicates_conv();
}

/// The default model is advertised first, where it is offered.
pub proof fn the_default_model_comes_first(ids: Seq<Seq<char>>, default_model: Seq<char>)
    requires
        ids.contains(default_model),
    ensures
        advertised(ids, default_model).len() > 0,
        advertised(ids, default_model)[0] == default_model,
{
    let is_default = is_model(default_model);
    let first = ids.filter(is_default);
    lemma_filter_contains(ids, is_default, default_model);
    lemma_filter_contains(ids, is_default, first[0]);
    assert(first.contains(first[0]));
}

/// Models offered once each are advertised as the default model, then the others
/// in their order.
pub proof fn the_other_models_keep_their_order(
    before: Seq<Seq<char>>,
    default_model: Seq<char>,
    after: Seq<Seq<char>>,
)
    requires
        !before.contains(default_model),
        !after.contains(default_model),
    ensures
        advertised(before + seq![default_model] + after, default_model) == seq![default_model]
            + before + after,
{
    let is_default = is_model(default_model);
    let is_other = is_other_model(default_model);
    let ids = before + seq![default_model] + after;
    assert forall|i: int| 0 <= i < before.len() implies !is_default(#[trigger] before[i]) by {
        assert(before.contains(before[i]));
    }
    assert forall|i: int| 0 <= i < after.len() implies !is_default(#[trigger] after[i]) by {
        assert(after.contains(after[i]));
    }
    let middle = seq![default_model];
    Seq::filter_distributes_over_add(before + middle, after, is_default);
    Seq::filter_distributes_over_add(before, middle, is_default);
    Seq::filter_distributes_over_add(before + middle, after, is_other);
    Seq::filter_distributes_over_add(before, middle, is_other);
    lemma_filter_none(before, is_default);
    lemma_filter_none(after, is_default);
    lemma_filter_all(middle, is_default);
    lemma_filter_all(before, is_other);
    lemma_filter_all(after, is_other);
    lemma_filter_none(middle, is_other);
    assert(advertised(ids, default_model) == middle + before + after);
}

/// Without the default model among them, the models are advertised as offered.
pub proof fn models_without_the_default_keep_their_order(
    ids: Seq<Seq<char>>,
    default_model: Seq<char>,
)
    requires
        !ids.contains(default_model),
    ensures
        advertised(ids, default_model) == ids,
{
    let is_default = is_model(default_model);
    let is_other = is_other_model(default_model);
    assert forall|i: int| 0 <= i < ids.len() implies !is_default(#[trigger] ids[i]) by {
        assert(ids.contains(ids[i]));
    }
    lemma_filter_none(ids, is_default);
    lemma_filter_all(ids, is_other);
    assert(Seq::<Seq<char>>::empty() + ids == ids);
}

/// Every advertisement names the model and the capsule's topics, and none marks
/// the default model.
pub proof fn advertisements_share_their_topics(id: Seq<char>, context_window: u64, max_output: u64)
    ensures
        ({
            let members = provider_json(id, context_window, max_output)->Object_0;
            &&& members.dom().contains("id"@) && members["id"@] == Json::Text(id)
            &&& members.dom().contains("request_topic"@) && members["request_topic"@] == Json::Text(
                REQUEST_TOPIC@,
            )
            &&& members.dom().contains("stream_topic"@) && members["stream_topic"@] == Json::Text(
                STREAM_TOPIC@,
            )
            &&& !members.dom().contains("default"@)
        }),
{
    reveal_strlit("id");
    reveal_strlit("description");
    reveal_strlit("capabilities");
    reveal_strlit("request_topic");
    reveal_strlit("stream_topic");
    reveal_strlit("context_window");
    reveal_strlit("max_output_tokens");
    reveal_strlit("default");
    assert("id"@.len() == 2);
    assert("description"@.len() == 11);
    assert("capabilities"@.len() == 12);
    assert("request_topic"@.len() == 13);
    assert("stream_topic"@.len() == 12);
    assert("context_window"@.len() == 14);
    assert("max_output_tokens"@.len() == 17);
    assert("default"@.len() == 7);
    assert("stream_topic"@[0] == 's' && "capabilities"@[0] == 'c');
}

/// The system prompt, where there is one, is the first message on the wire.
pub proof fn the_system_prompt_comes_first(system: Seq<char>, messages: Seq<Message>)
    ensures
        system.len() > 0 ==> conversation(system, messages).len() == spoken(messages).len() + 1
            && conversation(system, messages)[0] == system_json(system),
        system.len() == 0 ==> conversation(system, messages).len() == spoken(messages).len(),
{
}

/// The member names of a message are distinct, and so are the roles.
proof fn lemma_message_words()
    ensures
        "role"@ != "content"@,
        "role"@ != "tool_calls"@,
        "role"@ != "tool_call_id"@,
        "system"@ != "user"@,
        "system"@ != "assistant"@,
        "system"@ != "tool"@,
{
    reveal_strlit("role");
    reveal_strlit("content");
    reveal_strlit("tool_calls");
    reveal_strlit("tool_call_id");
    reveal_strlit("system");
    reveal_strlit("user");
    reveal_strlit("assistant");
    reveal_strlit("tool");
    assert("role"@.len() == 4 && "content"@.len() == 7 && "tool_calls"@.len() == 10
        && "tool_call_id"@.len() == 12);
    assert("system"@.len() == 6 && "user"@.len() == 4 && "assistant"@.len() == 9 && "tool"@.len()
        == 4);
}

/// No message but the system prompt speaks as the system.
pub proof fn only_the_prompt_speaks_as_the_system(
    system: Seq<char>,
    messages: Seq<Message>,
    i: int,
)
    requires
        0 <= i < conversation(system, messages).len(),
        system.len() > 0 ==> i > 0,
    ensures
        conversation(system, messages)[i] is Object,
        conversation(system, messages)[i]->Object_0.dom().contains("role"@),
        conversation(system, messages)[i]->Object_0["role"@] != Json::Text("system"@),
{
    let pred = |message: Message| message.role != MessageRole::System;
    let k: int = if system.len() > 0 {
        i - 1
    } else {
        i
    };
    let message = spoken(messages)[k];
    assert(spoken(messages).contains(message));
    lemma_filter_contains(messages, pred, message);
    assert(conversation(system, messages)[i] == message_json(message));
    lemma_message_words();
    let members = message_json(message)->Object_0;
    match message.content {
        MessageContent::Text(text) => {
            assert(members["role"@] == Json::Text(role_text(message.role)));
        },
        MessageContent::ToolCalls(calls) => {
            assert(members["role"@] == Json::Text("assistant"@));
        },
        MessageContent::ToolResult(result) => {
            assert(members["role"@] == Json::Text("tool"@));
        },
        MessageContent::MultiPart(parts) => {
            assert(members["role"@] == Json::Text(role_text(message.role)));
        },
    }
}

/// The member names of a request body.
spec fn body_words() -> Seq<Seq<char>> {
    seq![
        "model"@,
        "messages"@,
        "stream"@,
        "stream_options"@,
        "max_tokens"@,
        "temperature"@,
        "tools"@,
    ]
}

/// The member names of a request body are distinct.
proof fn lemma_body_words()
    ensures
        body_words().no_duplicates(),
        body_words().len() == 7,
        body_words()[0] == "model"@,
        body_words()[1] == "messages"@,
        body_words()[2] == "stream"@,
        body_words()[3] == "stream_options"@,
        body_words()[4] == "max_tokens"@,
        body_words()[5] == "temperature"@,
        body_words()[6] == "tools"@,
{
    reveal_strlit("model");
    reveal_strlit("messages");
    reveal_strlit("stream");
    reveal_strlit("stream_options");
    reveal_strlit("max_tokens");
    reveal_strlit("temperature");
    reveal_strlit("tools");
    assert("model"@.len() == 5 && "messages"@.len() == 8 && "stream"@.len() == 6
        && "stream_options"@.len() == 14 && "max_tokens"@.len() == 10 && "temperature"@.len() == 11
        && "tools"@.len() == 5);
    assert("model"@[0] == 'm' && "tools"@[0] == 't');
}

/// Every request names its model and its messages and asks for a stream with
/// usage, whatever else it holds.
pub proof fn requests_hold_what_is_required(
    settings: Settings,
    model: Seq<char>,
    messages: Seq<Message>,
    tools: Seq<LlmToolDefinition>,
    system: Seq<char>,
)
    ensures
        ({
            let members = body_members(settings, model, messages, tools, system);
            &&& members.dom().contains("model"@)
            &&& members["model"@] == Json::Text(resolved_model(settings, model))
            &&& members.dom().contains("messages"@)
            &&& members["messages"@] == Json::List(conversation(system, messages))
            &&& members.dom().contains("stream"@)
            &&& members["stream"@] == Json::Bool(true)
            &&& members.dom().contains("stream_options"@)
            &&& members["stream_options"@] == Json::Object(
                map!["include_usage"@ => Json::Bool(true)],
            )
        }),
{
    lemma_body_words();
}

/// A request holds a token limit, a temperature and tools exactly where there are
/// any.
pub proof fn requests_hold_options_where_given(
    settings: Settings,
    model: Seq<char>,
    messages: Seq<Message>,
    tools: Seq<LlmToolDefinition>,
    system: Seq<char>,
)
    ensures
        ({
            let members = body_members(settings, model, messages, tools, system);
            &&& members.dom().contains("max_tokens"@) <==> token_limit(settings) is Some
            &&& token_limit(settings) matches Some(limit) ==> members["max_tokens"@] == limit
            &&& members.dom().contains("temperature"@) <==> temperature(settings) is Some
            &&& temperature(settings) matches Some(value) ==> members["temperature"@] == value
            &&& members.dom().contains("tools"@) <==> tools.len() > 0
            &&& offered_tools(tools) matches Some(list) ==> members["tools"@] == list
        }),
{
    lemma_body_words();
}

/// Slashes at the end of the configured origin make no difference.
pub proof fn slashes_behind_the_origin_make_no_difference(
    some: Settings,
    other: Settings,
    path: Seq<char>,
)
    requires
        some.base_url is Some,
        other.base_url is Some,
        other.base_url->0@ == some.base_url->0@.push('/'),
    ensures
        endpoint(other, path) == endpoint(some, path),
{
    let base = some.base_url->0@;
    assert(base.push('/').drop_last() == base);
}

/// Of a refusal's body, no more than the limit is kept, and what is kept is the
/// start of it.
pub proof fn refusals_keep_the_start_of_the_body(body: Seq<char>)
    ensures
        kept(body).len() <= MAX_ERROR_BODY,
        kept(body).is_prefix_of(encode_utf8(body)),
{
}

/// Once the body of a refusal is full, reading on would change nothing.
pub proof fn reading_on_changes_no_full_refusal(read: Seq<char>, unread: Seq<char>)
    requires
        too_long(read),
    ensures
        too_long(read + unread),
        kept(read + unread) == kept(read),
{
    lemma_encode_concat(read, unread);
}

/// A clean cut of a whole body is a clean cut of every prefix of it, and once a
/// prefix is long enough to be cut, reading on changes nothing about whether the
/// cut is clean.
pub proof fn reading_on_changes_no_cut(read: Seq<char>, unread: Seq<char>)
    ensures
        cut_is_clean(read + unread) ==> cut_is_clean(read),
        too_long(read) ==> cut_is_clean(read + unread) == cut_is_clean(read),
{
    let whole = encode_utf8(read + unread);
    let start = encode_utf8(read);
    lemma_encode_concat(read, unread);
    vstd::utf8::encode_utf8_valid_utf8(read);
    vstd::utf8::encode_utf8_valid_utf8(read + unread);
    if too_long(read) {
        let cut = MAX_ERROR_BODY as int;
        assert(whole[cut] == start[cut]);
        vstd::utf8::is_char_boundary_iff_not_is_continuation_byte(start, cut);
        vstd::utf8::is_char_boundary_iff_not_is_continuation_byte(whole, cut);
    }
}

/// Of a refusal whose reads are each valid UTF-8, the first bytes are kept, up to
/// the limit, however the body is cut into reads.
pub proof fn valid_reads_keep_the_first_bytes(reads: Seq<Seq<u8>>)
    requires
        forall|i: int| 0 <= i < reads.len() ==> valid_utf8(#[trigger] reads[i]),
    ensures
        kept(reads.map_values(|read: Seq<u8>| decode_utf8(read)).flatten()) == if reads.flatten().len()
            > MAX_ERROR_BODY {
            reads.flatten().take(MAX_ERROR_BODY as int)
        } else {
            reads.flatten()
        },
{
    lemma_decode_flatten(reads);
    vstd::utf8::decode_utf8_encode_utf8(reads.flatten());
}

} // verus!
