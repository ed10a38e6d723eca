//! What holds of the lines of a streamed response.

use crate::chunk_laws::{all_text_is_published, payload_text, published_text};
use crate::laws::{nothing_follows_the_end, reads_lead_to_the_events_of_the_whole_text};
use crate::request_laws::lemma_trimmed_end;
use crate::sse::{
    events_for, exceeds_limit, given_up, has_line, lemma_line_len, lemma_line_len_unique,
    line_len, line_payload, lossy_text, next_for, parses_as, payloads, read_texts, scan,
    stream_events, Next, Payload,
};
use crate::stream::{chunk_events, chunk_table, ChatCompletionChunk, Event, ToolTable};
use crate::text::trimmed_end;
use vstd::prelude::*;
use vstd::utf8::encode_utf8;

verus! {

/// A line that begins with `data: `, ended by any number of carriage returns and a
/// newline, with `rest` behind it.
pub open spec fn data_line(data: Seq<char>, crs: nat, rest: Seq<char>) -> Seq<char> {
    "data: "@ + data + Seq::new(crs, |i: int| '\r') + seq!['\n'] + rest
}

/// Whether a text can stand in a data line as it is: it has no newline, and no
/// carriage return at its end.
pub open spec fn fits_a_line(data: Seq<char>) -> bool {
    &&& !data.contains('\n')
    &&& data.len() > 0 ==> data.last() != '\r'
}

/// The first complete line is what stands before the first newline.
proof fn lemma_first_line(line: Seq<char>, rest: Seq<char>)
    requires
        !line.contains('\n'),
    ensures
        ({
            let buffer = line + seq!['\n'] + rest;
            scan(buffer) == match line_payload(line) {
                Some(payload) => (Some(payload), rest),
                None => scan(rest),
            }
        }),
{
    let buffer = line + seq!['\n'] + rest;
    assert forall|i: int| 0 <= i < line.len() implies #[trigger] buffer[i] != '\n' by {
        assert(buffer[i] == line[i]);
        assert(line.contains(line[i]));
    }
    lemma_line_len_unique(buffer, line.len() as int);
    assert(buffer.take(line.len() as int) == line);
    assert(buffer.skip(line.len() as int + 1) == rest);
}

/// What stands behind `data: ` in a line, without the carriage returns at its end,
/// is found as it is, and then what follows the line is left. `[DONE]` is the end.
pub proof fn data_lines_carry_their_data(data: Seq<char>, crs: nat, rest: Seq<char>)
    requires
        fits_a_line(data),
    ensures
        data != "[DONE]"@ ==> scan(data_line(data, crs, rest)) == (
            Some(Payload::Data(data)),
            rest,
        ),
        data == "[DONE]"@ ==> scan(data_line(data, crs, rest)) == (Some(Payload::Done), rest),
{
    reveal_strlit("data: ");
    let prefix = "data: "@;
    let ends = Seq::new(crs, |i: int| '\r');
    let text = prefix + data;
    let line = text + ends;
    assert(prefix.len() == 6 && prefix[5] == ' ');
    assert(!line.contains('\n')) by {
        assert forall|i: int| 0 <= i < line.len() implies #[trigger] line[i] != '\n' by {
            if i < 6 {
                assert(line[i] == prefix[i]);
            } else if i < text.len() {
                assert(line[i] == data[i - 6]);
                assert(data.contains(data[i - 6]));
            } else {
                assert(line[i] == ends[i - text.len()]);
            }
        }
    }
    lemma_trimmed_run(text, crs);
    assert(text.skip(6) == data);
    assert(text.subrange(0, 6) == prefix);
    assert(prefix.is_prefix_of(text));
    lemma_first_line(line, rest);
}

/// Trimming a run takes off that run.
proof fn lemma_trimmed_run(text: Seq<char>, crs: nat)
    requires
        text.len() > 0,
        text.last() != '\r',
    ensures
        trimmed_end(text + Seq::new(crs, |i: int| '\r'), '\r') == text,
    decreases crs,
{
    let ends = Seq::new(crs, |i: int| '\r');
    if crs == 0 {
        assert(text + ends == text);
    } else {
        let fewer = Seq::new((crs - 1) as nat, |i: int| '\r');
        assert((text + ends).drop_last() == text + fewer);
        lemma_trimmed_run(text, (crs - 1) as nat);
    }
}

/// A line that does not begin with `data: ` carries nothing.
pub proof fn other_lines_carry_nothing(line: Seq<char>, rest: Seq<char>)
    requires
        !line.contains('\n'),
        !"data: "@.is_prefix_of(line),
    ensures
        scan(line + seq!['\n'] + rest) == scan(rest),
{
    let prefix = "data: "@;
    let trimmed = trimmed_end(line, '\r');
    lemma_trimmed_end(line, '\r');
    if prefix.is_prefix_of(trimmed) {
        assert(trimmed.subrange(0, prefix.len() as int) == line.subrange(0, prefix.len() as int));
        assert(prefix.is_prefix_of(line));
    }
    lemma_first_line(line, rest);
}

/// Nothing is found in a line before its newline has come, and nothing is lost.
pub proof fn incomplete_lines_wait(buffer: Seq<char>)
    requires
        !buffer.contains('\n'),
    ensures
        scan(buffer) == (None::<Payload>, buffer),
{
    lemma_line_len(buffer);
    if has_line(buffer) {
        assert(buffer.contains(buffer[line_len(buffer) as int]));
    }
}

/// A data line leads to the events of its chunk, and then to those of what follows.
/// One that is no chunk is passed over, and the end of the stream is published and
/// ends it.
pub proof fn streams_follow_their_lines(
    data: Seq<char>,
    crs: nat,
    rest: Seq<char>,
    table: ToolTable,
    reads: Seq<Seq<char>>,
    parse: spec_fn(Seq<char>) -> Option<ChatCompletionChunk>,
)
    requires
        fits_a_line(data),
    ensures
        ({
            let buffer = data_line(data, crs, rest);
            let events = stream_events(buffer, table, reads, parse);
            if data == "[DONE]"@ {
                &&& events == seq![Event::Done]
                &&& !given_up(buffer, reads)
            } else {
                &&& given_up(buffer, reads) == given_up(rest, reads)
                &&& match parse(data) {
                    Some(chunk) => events == chunk_events(table, chunk) + stream_events(
                        rest,
                        chunk_table(table, chunk),
                        reads,
                        parse,
                    ),
                    None => events == stream_events(rest, table, reads, parse),
                }
            }
        }),
{
    data_lines_carry_their_data(data, crs, rest);
}

/// A line that does not begin with `data: ` makes no difference to a stream.
pub proof fn streams_pass_other_lines_over(
    line: Seq<char>,
    rest: Seq<char>,
    table: ToolTable,
    reads: Seq<Seq<char>>,
    parse: spec_fn(Seq<char>) -> Option<ChatCompletionChunk>,
)
    requires
        !line.contains('\n'),
        !"data: "@.is_prefix_of(line),
    ensures
        stream_events(line + seq!['\n'] + rest, table, reads, parse) == stream_events(
            rest,
            table,
            reads,
            parse,
        ),
        given_up(line + seq!['\n'] + rest, reads) == given_up(rest, reads),
{
    other_lines_carry_nothing(line, rest);
}

/// Without a complete line, the next read is joined to what waits. The stream ends
/// where there is none, and is given up, with nothing more published, where the two
/// are together more than 1048576 bytes.
pub proof fn streams_read_on(
    buffer: Seq<char>,
    table: ToolTable,
    reads: Seq<Seq<char>>,
    parse: spec_fn(Seq<char>) -> Option<ChatCompletionChunk>,
)
    requires
        !buffer.contains('\n'),
    ensures
        ({
            let events = stream_events(buffer, table, reads, parse);
            if reads.len() == 0 {
                &&& events.len() == 0
                &&& !given_up(buffer, reads)
            } else {
                let more = buffer + reads[0];
                if encode_utf8(more).len() > 1048576 {
                    &&& events.len() == 0
                    &&& given_up(buffer, reads)
                } else {
                    &&& events == stream_events(more, table, reads.drop_first(), parse)
                    &&& given_up(buffer, reads) == given_up(more, reads.drop_first())
                }
            }
        }),
{
    incomplete_lines_wait(buffer);
}

/// All the text that the chunks of a response add is published, character for
/// character, however the response is cut into reads, where it is not given up.
pub proof fn all_text_of_a_stream_is_published(
    reads: Seq<Seq<char>>,
    parse: spec_fn(Seq<char>) -> Option<ChatCompletionChunk>,
)
    requires
        !given_up(Seq::empty(), reads),
    ensures
        published_text(stream_events(Seq::empty(), Seq::empty(), reads, parse)) == payloads(
            reads.flatten(),
        ).map_values(|payload: Payload| payload_text(payload, parse)).flatten(),
{
    let found = payloads(reads.flatten());
    reads_lead_to_the_events_of_the_whole_text(Seq::empty(), Seq::empty(), reads, parse);
    assert(Seq::<char>::empty() + reads.flatten() == reads.flatten());
    assert forall|i: int| 0 <= i < found.len() - 1 implies !((#[trigger] found[i]) is Done) by {
        if found[i] is Done {
            nothing_follows_the_end(reads.flatten(), i);
        }
    }
    all_text_is_published(Seq::empty(), found, parse);
}

/// What is found tells what to do next, and only the end of the stream is an event
/// of its own.
pub proof fn what_is_found_is_acted_on(data: Seq<char>, next: Next)
    ensures
        next_for(None, next) <==> next is Read,
        next_for(Some(Payload::Done), next) <==> next is Stop,
        next_for(Some(Payload::Data(data)), next) <==> next is Parse && next->Parse_0@ == data,
        events_for(None).len() == 0,
        events_for(Some(Payload::Data(data))).len() == 0,
        events_for(Some(Payload::Done)) == seq![Event::Done],
{
}

/// A text exceeds the line buffer where it is more than 1048576 bytes.
pub proof fn the_line_buffer_holds_a_mebibyte(text: Seq<char>)
    ensures
        exceeds_limit(text) <==> encode_utf8(text).len() > 1048576,
{
}

/// Reads are decoded element by element.
pub proof fn reads_are_read_in_order(reads: Seq<Vec<u8>>, i: int)
    ensures
        read_texts(reads).len() == reads.len(),
        0 <= i < reads.len() ==> read_texts(reads)[i] == lossy_text(reads[i]@),
{
}

/// A parse means what each of its results is.
pub proof fn parses_mean_their_results<F: Fn(&str) -> Option<ChatCompletionChunk>>(
    parse: F,
    meaning: spec_fn(Seq<char>) -> Option<ChatCompletionChunk>,
)
    requires
        forall|data: &str, parsed: Option<ChatCompletionChunk>| #[trigger]
            call_ensures(parse, (data,), parsed) ==> parsed == meaning(data@),
    ensures
        parses_as(parse, meaning),
{
}

} // verus!
