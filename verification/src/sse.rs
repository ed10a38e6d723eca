//! Server-sent events: cutting a streamed response into payloads, and the state
//! machine that runs one streamed completion.

use crate::error::ProviderError;
use crate::provider::OpenAICompatProvider;
use crate::stream::{
    chunk_events, chunk_fits, chunk_table, events_of, table_of, ChatCompletionChunk, Event,
    StreamEvent, ToolTable,
};
use crate::text::{
    chars_of, same_text, strip_prefix, trim_end_char, trimmed_end, without_prefix,
};
use vstd::prelude::*;
use vstd::string::*;
use vstd::utf8::{decode_utf8, encode_utf8, valid_utf8};

verus! {

/// The most bytes that the line buffer may hold (1 MB).
pub const MAX_LINE_BUFFER_SIZE: usize = 1048576;

/// Whether a text is more than the line buffer may hold.
pub open spec fn exceeds_limit(text: Seq<char>) -> bool {
    encode_utf8(text).len() > MAX_LINE_BUFFER_SIZE
}

/// The text that lossy UTF-8 decoding gives for a run of bytes.
pub uninterp spec fn lossy_text(bytes: Seq<u8>) -> Seq<char>;

/// `String::from_utf8_lossy`: a function of the bytes alone. Bytes that are valid
/// UTF-8 are decoded unchanged; which replacement characters stand for invalid
/// ones is left unsaid.
#[verifier::external_body]
pub(crate) fn decode_lossy(bytes: &[u8]) -> (text: String)
    ensures
        text@ == lossy_text(bytes@),
        valid_utf8(bytes@) ==> text@ == decode_utf8(bytes@),
{
    String::from_utf8_lossy(bytes).into_owned()
}

/// What a data line carries.
pub enum Payload {
    /// A chunk of the completion, as JSON text.
    Data(Seq<char>),
    /// The end of the stream.
    Done,
}

/// How many characters stand before the first newline; all of them, where there
/// is none.
pub open spec fn line_len(buffer: Seq<char>) -> nat
    decreases buffer.len(),
{
    if buffer.len() == 0 || buffer[0] == '\n' {
        0
    } else {
        1 + line_len(buffer.drop_first())
    }
}

/// Whether `buffer` holds a complete line.
pub open spec fn has_line(buffer: Seq<char>) -> bool {
    line_len(buffer) < buffer.len()
}

/// What a line carries: what follows `data: `, once carriage returns at the end
/// are taken off. Other lines carry nothing.
pub open spec fn line_payload(line: Seq<char>) -> Option<Payload> {
    match without_prefix(trimmed_end(line, '\r'), "data: "@) {
        Some(data) => if data == "[DONE]"@ {
            Some(Payload::Done)
        } else {
            Some(Payload::Data(data))
        },
        None => None,
    }
}

/// The first payload among the complete lines of `buffer`, and what follows its
/// line; without one, what follows the last complete line.
pub open spec fn scan(buffer: Seq<char>) -> (Option<Payload>, Seq<char>)
    decreases buffer.len(),
{
    if has_line(buffer) {
        let rest = buffer.skip(line_len(buffer) as int + 1);
        match line_payload(buffer.take(line_len(buffer) as int)) {
            Some(payload) => (Some(payload), rest),
            None => scan(rest),
        }
    } else {
        (None, buffer)
    }
}

/// Every payload of the complete lines of `buffer`, in order, up to and with the
/// end of the stream.
pub open spec fn payloads(buffer: Seq<char>) -> Seq<Payload>
    decreases buffer.len(),
{
    proof {
        lemma_scan_shrinks(buffer);
    }
    match scan(buffer) {
        (Some(Payload::Data(data)), rest) => seq![Payload::Data(data)] + payloads(rest),
        (Some(Payload::Done), _) => seq![Payload::Done],
        (None, _) => Seq::empty(),
    }
}

/// The events for a run of payloads, given the tool calls in progress and what
/// parsing makes of a text.
pub open spec fn payload_events(
    table: ToolTable,
    found: Seq<Payload>,
    parse: spec_fn(Seq<char>) -> Option<ChatCompletionChunk>,
) -> Seq<Event>
    decreases found.len(),
{
    if found.len() == 0 {
        Seq::empty()
    } else {
        match found[0] {
            Payload::Done => seq![Event::Done],
            Payload::Data(data) => match parse(data) {
                Some(chunk) => chunk_events(table, chunk) + payload_events(
                    chunk_table(table, chunk),
                    found.drop_first(),
                    parse,
                ),
                None => payload_events(table, found.drop_first(), parse),
            },
        }
    }
}

/// The events of a stream with `buffer` waiting and `texts` still to be read: each
/// payload is parsed as soon as its line is complete, and a text is read when no
/// line is. The stream is given up at a read that exceeds the line buffer.
pub open spec fn stream_events(
    buffer: Seq<char>,
    table: ToolTable,
    texts: Seq<Seq<char>>,
    parse: spec_fn(Seq<char>) -> Option<ChatCompletionChunk>,
) -> Seq<Event>
    decreases texts.len(), buffer.len(),
{
    proof {
        lemma_scan_shrinks(buffer);
    }
    match scan(buffer) {
        (Some(Payload::Data(data)), rest) => match parse(data) {
            Some(chunk) => chunk_events(table, chunk) + stream_events(
                rest,
                chunk_table(table, chunk),
                texts,
                parse,
            ),
            None => stream_events(rest, table, texts, parse),
        },
        (Some(Payload::Done), _) => seq![Event::Done],
        (None, rest) => if texts.len() == 0 || exceeds_limit(rest + texts[0]) {
            Seq::empty()
        } else {
            stream_events(rest + texts[0], table, texts.drop_first(), parse)
        },
    }
}

/// Whether a stream with `buffer` waiting and `texts` still to be read is given up.
pub open spec fn given_up(buffer: Seq<char>, texts: Seq<Seq<char>>) -> bool
    decreases texts.len(), buffer.len(),
{
    proof {
        lemma_scan_shrinks(buffer);
    }
    match scan(buffer) {
        (Some(Payload::Data(_)), rest) => given_up(rest, texts),
        (Some(Payload::Done), _) => false,
        (None, rest) => texts.len() > 0 && (exceeds_limit(rest + texts[0]) || given_up(
            rest + texts[0],
            texts.drop_first(),
        )),
    }
}

/// The first newline is where `line_len` says, and there is none before it.
pub proof fn lemma_line_len(buffer: Seq<char>)
    ensures
        line_len(buffer) <= buffer.len(),
        forall|i: int| 0 <= i < line_len(buffer) ==> #[trigger] buffer[i] != '\n',
        has_line(buffer) ==> buffer[line_len(buffer) as int] == '\n',
    decreases buffer.len(),
{
    if buffer.len() > 0 && buffer[0] != '\n' {
        let tail = buffer.drop_first();
        lemma_line_len(tail);
        assert forall|i: int| 0 <= i < line_len(buffer) implies #[trigger] buffer[i] != '\n' by {
            if i > 0 {
                assert(buffer[i] == tail[i - 1]);
            }
        }
    }
}

/// `line_len` is the only index with the first newline.
pub proof fn lemma_line_len_unique(buffer: Seq<char>, n: int)
    requires
        0 <= n <= buffer.len(),
        forall|i: int| 0 <= i < n ==> #[trigger] buffer[i] != '\n',
        n < buffer.len() ==> buffer[n] == '\n',
    ensures
        line_len(buffer) == n,
{
    lemma_line_len(buffer);
    let m = line_len(buffer) as int;
    if m < n {
        assert(buffer[m] != '\n');
    } else if n < m {
        assert(buffer[n] != '\n');
    }
}

/// What a scan leaves is no longer than what it was given, and shorter where it
/// found a payload.
pub proof fn lemma_scan_shrinks(buffer: Seq<char>)
    ensures
        scan(buffer).1.len() <= buffer.len(),
        scan(buffer).0 is Some ==> scan(buffer).1.len() < buffer.len(),
        scan(buffer).0 is None ==> !has_line(scan(buffer).1),
    decreases buffer.len(),
{
    if has_line(buffer) {
        lemma_scan_shrinks(buffer.skip(line_len(buffer) as int + 1));
    }
}

/// What to do next about a stream.
#[derive(Debug, PartialEq)]
pub enum Next {
    /// Read more of the response.
    Read,
    /// Parse this text as a chunk of the completion.
    Parse(String),
    /// Nothing: the stream is complete.
    Stop,
}

/// A step of a stream: the events to publish, in order, and what to do then.
#[derive(Debug, PartialEq)]
pub struct Step {
    pub events: Vec<StreamEvent>,
    pub next: Next,
}

/// Whether `next` is what a scan calls for.
pub open spec fn next_for(found: Option<Payload>, next: Next) -> bool {
    match found {
        None => next is Read,
        Some(Payload::Data(data)) => next matches Next::Parse(text) && text@ == data,
        Some(Payload::Done) => next is Stop,
    }
}

/// The event that a scan calls for: the end of the stream.
pub open spec fn events_for(found: Option<Payload>) -> Seq<Event> {
    match found {
        Some(Payload::Done) => seq![Event::Done],
        _ => Seq::empty(),
    }
}

/// The texts of a list of reads.
pub open spec fn read_texts(reads: Seq<Vec<u8>>) -> Seq<Seq<char>> {
    reads.map_values(|read: Vec<u8>| lossy_text(read@))
}

/// Decodes each of a list of reads.
pub(crate) fn decode_reads(reads: &[Vec<u8>]) -> (decoded: Vec<String>)
    ensures
        decoded@.len() == reads@.len(),
        forall|i: int|
            0 <= i < reads@.len() ==> (#[trigger] decoded@[i])@ == lossy_text(reads@[i]@),
        forall|i: int|
            0 <= i < reads@.len() && valid_utf8((#[trigger] reads@[i])@) ==> lossy_text(reads@[i]@)
                == decode_utf8(reads@[i]@),
{
    let mut decoded: Vec<String> = Vec::new();
    let mut i: usize = 0;
    while i < reads.len()
        invariant
            i <= reads@.len(),
            decoded@.len() == i,
            forall|j: int| 0 <= j < i ==> (#[trigger] decoded@[j])@ == lossy_text(reads@[j]@),
            forall|j: int|
                0 <= j < i && valid_utf8((#[trigger] reads@[j])@) ==> lossy_text(reads@[j]@)
                    == decode_utf8(reads@[j]@),
        decreases reads@.len() - i,
    {
        decoded.push(decode_lossy(reads[i].as_slice()));
        i = i + 1;
    }
    decoded
}

/// Whether `parse` gives for every text what `meaning` says.
pub open spec fn parses_as<F: Fn(&str) -> Option<ChatCompletionChunk>>(
    parse: F,
    meaning: spec_fn(Seq<char>) -> Option<ChatCompletionChunk>,
) -> bool {
    forall|data: &str, parsed: Option<ChatCompletionChunk>| #[trigger]
        call_ensures(parse, (data,), parsed) ==> parsed == meaning(data@)
}

/// The events still to come of a stream whose last scan found `found` and left
/// `buffer`.
spec fn events_to_come(
    found: Option<Payload>,
    buffer: Seq<char>,
    table: ToolTable,
    texts: Seq<Seq<char>>,
    parse: spec_fn(Seq<char>) -> Option<ChatCompletionChunk>,
) -> Seq<Event> {
    match found {
        Some(Payload::Data(data)) => match parse(data) {
            Some(chunk) => chunk_events(table, chunk) + stream_events(
                buffer,
                chunk_table(table, chunk),
                texts,
                parse,
            ),
            None => stream_events(buffer, table, texts, parse),
        },
        Some(Payload::Done) => Seq::empty(),
        None => stream_events(buffer, table, texts, parse),
    }
}

/// Whether a stream whose last scan found `found` and left `buffer` will be given
/// up.
spec fn to_be_given_up(found: Option<Payload>, buffer: Seq<char>, texts: Seq<Seq<char>>) -> bool {
    !(found matches Some(Payload::Done)) && given_up(buffer, texts)
}

/// The events of a stream are those of a scan and then those still to come.
proof fn lemma_events_to_come(
    buffer: Seq<char>,
    table: ToolTable,
    texts: Seq<Seq<char>>,
    parse: spec_fn(Seq<char>) -> Option<ChatCompletionChunk>,
)
    ensures
        stream_events(buffer, table, texts, parse) == events_for(scan(buffer).0) + events_to_come(
            scan(buffer).0,
            scan(buffer).1,
            table,
            texts,
            parse,
        ),
{
    lemma_scan_shrinks(buffer);
    let (found, rest) = scan(buffer);
    if found is None {
        assert(scan(rest) == (found, rest));
        assert(stream_events(rest, table, texts, parse) == stream_events(
            buffer,
            table,
            texts,
            parse,
        ));
    }
}

/// A stream is given up exactly where it will be after a scan.
proof fn lemma_to_be_given_up(buffer: Seq<char>, texts: Seq<Seq<char>>)
    ensures
        given_up(buffer, texts) == to_be_given_up(scan(buffer).0, scan(buffer).1, texts),
{
    lemma_scan_shrinks(buffer);
    let (found, rest) = scan(buffer);
    if found is None {
        assert(scan(rest) == (found, rest));
    }
}

/// What one line calls for.
fn read_line(line: &str) -> (next: Next)
    ensures
        next_for(line_payload(line@), next),
{
    let trimmed: String = trim_end_char(line, '\r');
    match strip_prefix(trimmed.as_str(), "data: ") {
        Some(data) => if same_text(data.as_str(), "[DONE]") {
            Next::Stop
        } else {
            Next::Parse(data)
        },
        None => Next::Read,
    }
}

/// One streamed completion: the text not yet cut into lines, and the tool calls
/// in progress.
pub struct SseStream {
    line_buffer: String,
    active_tools: Vec<(String, String)>,
}

impl SseStream {
    /// The text not yet cut into lines.
    pub closed spec fn buffer(&self) -> Seq<char> {
        self.line_buffer@
    }

    /// The tool calls in progress.
    pub closed spec fn tools(&self) -> ToolTable {
        table_of(self.active_tools@)
    }

    /// A stream of which nothing has been read.
    pub fn new() -> (stream: SseStream)
        ensures
            stream.buffer() == Seq::<char>::empty(),
            stream.tools() == Seq::<(Seq<char>, Seq<char>)>::empty(),
    {
        let stream = SseStream { line_buffer: String::new(), active_tools: Vec::new() };
        assert(stream.tools() == Seq::<(Seq<char>, Seq<char>)>::empty());
        stream
    }

    /// Cuts complete lines off the buffer, up to and with the first that carries
    /// a payload.
    fn next_payload(&mut self) -> (next: Next)
        ensures
            next_for(scan(old(self).buffer()).0, next),
            final(self).buffer() == scan(old(self).buffer()).1,
            final(self).tools() == old(self).tools(),
    {
        loop
            invariant
                scan(self.buffer()) == scan(old(self).buffer()),
                self.tools() == old(self).tools(),
            decreases self.buffer().len(),
        {
            let ghost buffer = self.line_buffer@;
            let chars: Vec<char> = chars_of(self.line_buffer.as_str());
            let mut end: usize = 0;
            while end < chars.len() && chars[end] != '\n'
                invariant
                    chars@ == buffer,
                    end <= chars@.len(),
                    forall|i: int| 0 <= i < end ==> #[trigger] buffer[i] != '\n',
                decreases chars@.len() - end,
            {
                end = end + 1;
            }
            proof {
                lemma_line_len_unique(buffer, end as int);
            }
            if end == chars.len() {
                return Next::Read;
            }
            let line: String = self.line_buffer.as_str().substring_char(0, end).to_owned();
            let rest: String = self.line_buffer.as_str().substring_char(
                end + 1,
                chars.len(),
            ).to_owned();
            proof {
                assert(line@ == buffer.take(end as int));
                assert(rest@ == buffer.skip(end + 1));
            }
            self.line_buffer = rest;
            match read_line(line.as_str()) {
                Next::Read => {},
                next => {
                    return next;
                },
            }
        }
    }

    /// Goes on with what the buffer holds, behind `events`.
    fn proceed(&mut self, events: Vec<StreamEvent>) -> (step: Step)
        ensures
            events_of(step.events@) == events_of(events@) + events_for(
                scan(old(self).buffer()).0,
            ),
            next_for(scan(old(self).buffer()).0, step.next),
            final(self).buffer() == scan(old(self).buffer()).1,
            final(self).tools() == old(self).tools(),
    {
        let mut events: Vec<StreamEvent> = events;
        let ghost before = events@;
        let next: Next = self.next_payload();
        if let Next::Stop = next {
            events.push(StreamEvent::Done);
            assert(events_of(events@) == events_of(before).push(Event::Done));
        }
        Step { events, next }
    }

    /// Takes in the next text of the response. It is refused, and the stream to be
    /// given up, where the buffer then exceeds its limit.
    pub fn on_text(&mut self, text: &str) -> (result: Result<Step, ProviderError>)
        ensures
            final(self).tools() == old(self).tools(),
            ({
                let full = old(self).buffer() + text@;
                match result {
                    Ok(step) => {
                        &&& !exceeds_limit(full)
                        &&& events_of(step.events@) == events_for(scan(full).0)
                        &&& next_for(scan(full).0, step.next)
                        &&& final(self).buffer() == scan(full).1
                    },
                    Err(error) => {
                        &&& exceeds_limit(full)
                        &&& error is LineBufferExceeded
                        &&& final(self).buffer() == full
                    },
                }
            }),
    {
        self.line_buffer.append(text);
        if self.line_buffer.as_str().as_bytes().len() > MAX_LINE_BUFFER_SIZE {
            return Err(ProviderError::LineBufferExceeded);
        }
        let step: Step = self.proceed(Vec::new());
        Ok(step)
    }

    /// Takes in the next bytes of the response, as `on_text` does their text.
    pub fn on_bytes(&mut self, bytes: &[u8]) -> (result: Result<Step, ProviderError>)
        ensures
            final(self).tools() == old(self).tools(),
            valid_utf8(bytes@) ==> lossy_text(bytes@) == decode_utf8(bytes@),
            ({
                let full = old(self).buffer() + lossy_text(bytes@);
                match result {
                    Ok(step) => {
                        &&& !exceeds_limit(full)
                        &&& events_of(step.events@) == events_for(scan(full).0)
                        &&& next_for(scan(full).0, step.next)
                        &&& final(self).buffer() == scan(full).1
                    },
                    Err(error) => {
                        &&& exceeds_limit(full)
                        &&& error is LineBufferExceeded
                        &&& final(self).buffer() == full
                    },
                }
            }),
    {
        let text: String = decode_lossy(bytes);
        self.on_text(text.as_str())
    }

    /// Takes in what parsing a payload gave. A payload that is no chunk is passed
    /// over.
    pub fn on_parsed(&mut self, parsed: Option<ChatCompletionChunk>) -> (step: Step)
        requires
            parsed matches Some(chunk) ==> chunk_fits(chunk),
        ensures
            ({
                let found = scan(old(self).buffer()).0;
                &&& match parsed {
                    Some(chunk) => {
                        &&& events_of(step.events@) == chunk_events(old(self).tools(), chunk)
                            + events_for(found)
                        &&& final(self).tools() == chunk_table(old(self).tools(), chunk)
                    },
                    None => {
                        &&& events_of(step.events@) == events_for(found)
                        &&& final(self).tools() == old(self).tools()
                    },
                }
                &&& next_for(found, step.next)
                &&& final(self).buffer() == scan(old(self).buffer()).1
            }),
    {
        let events: Vec<StreamEvent> = match parsed {
            Some(chunk) => OpenAICompatProvider::process_chunk(&chunk, &mut self.active_tools),
            None => Vec::new(),
        };
        assert(parsed is None ==> events_of(events@) == Seq::<Event>::empty());
        self.proceed(events)
    }

    /// Runs a whole stream over the given reads, each decoded as `on_bytes` decodes
    /// it, with `parse` for its payloads: the events, in order, and an error where
    /// the stream was given up. Of the events this says what they are wherever
    /// `parse` gives one result per text.
    pub fn follow<F: Fn(&str) -> Option<ChatCompletionChunk>>(reads: &[Vec<u8>], parse: F) -> (run:
        (Vec<StreamEvent>, Result<(), ProviderError>))
        requires
            forall|data: &str| call_requires(parse, (data,)),
            forall|data: &str, parsed: Option<ChatCompletionChunk>| #[trigger]
                call_ensures(parse, (data,), parsed) ==> (parsed matches Some(chunk) ==> chunk_fits(
                    chunk,
                )),
        ensures
            forall|meaning: spec_fn(Seq<char>) -> Option<ChatCompletionChunk>| #[trigger]
                parses_as(parse, meaning) ==> events_of(run.0@) == stream_events(
                    Seq::empty(),
                    Seq::empty(),
                    read_texts(reads@),
                    meaning,
                ),
            match run.1 {
                Ok(_) => !given_up(Seq::empty(), read_texts(reads@)),
                Err(error) => {
                    &&& error is LineBufferExceeded
                    &&& given_up(Seq::empty(), read_texts(reads@))
                },
            },
            forall|i: int|
                0 <= i < reads@.len() && valid_utf8((#[trigger] reads@[i])@) ==> lossy_text(
                    reads@[i]@,
                ) == decode_utf8(reads@[i]@),
    {
        let ghost texts = read_texts(reads@);
        let ghost mut found: Option<Payload> = None;
        let decoded: Vec<String> = decode_reads(reads);
        let mut stream: SseStream = SseStream::new();
        let mut events: Vec<StreamEvent> = Vec::new();
        let mut next: Next = Next::Read;
        let mut i: usize = 0;
        proof {
            assert(texts.skip(0) == texts);
            assert(events_of(events@) == Seq::<Event>::empty());
        }
        loop
            invariant
                texts == read_texts(reads@),
                decoded@.len() == reads@.len(),
                forall|j: int|
                    0 <= j < reads@.len() ==> (#[trigger] decoded@[j])@ == lossy_text(reads@[j]@),
                forall|j: int|
                    0 <= j < reads@.len() && valid_utf8((#[trigger] reads@[j])@) ==> lossy_text(
                        reads@[j]@,
                    ) == decode_utf8(reads@[j]@),
                i <= reads@.len(),
                forall|data: &str| call_requires(parse, (data,)),
                forall|data: &str, parsed: Option<ChatCompletionChunk>| #[trigger]
                    call_ensures(parse, (data,), parsed) ==> (parsed matches Some(chunk)
                        ==> chunk_fits(chunk)),
                next_for(found, next),
                found is None ==> !has_line(stream.buffer()),
                given_up(Seq::empty(), texts) == to_be_given_up(
                    found,
                    stream.buffer(),
                    texts.skip(i as int),
                ),
                forall|meaning: spec_fn(Seq<char>) -> Option<ChatCompletionChunk>| #[trigger]
                    parses_as(parse, meaning) ==> stream_events(
                        Seq::empty(),
                        Seq::empty(),
                        texts,
                        meaning,
                    ) == events_of(events@) + events_to_come(
                        found,
                        stream.buffer(),
                        stream.tools(),
                        texts.skip(i as int),
                        meaning,
                    ),
            decreases
                    reads@.len() - i,
                    stream.buffer().len() + if next is Parse { 1int } else { 0 },
        {
            let ghost buffer = stream.buffer();
            let ghost table = stream.tools();
            let ghost waiting = texts.skip(i as int);
            let ghost published = events@;
            let ghost mut full = buffer;
            let ghost mut head = Seq::<Event>::empty();
            let step: Step = match next {
                Next::Read => {
                    if i == decoded.len() {
                        return (events, Ok(()));
                    }
                    let text: &String = &decoded[i];
                    i = i + 1;
                    assert(waiting[0] == text@);
                    assert(waiting.drop_first() == texts.skip(i as int));
                    proof {
                        full = buffer + waiting[0];
                    }
                    match stream.on_text(text.as_str()) {
                        Ok(step) => step,
                        Err(error) => {
                            return (events, Err(error));
                        },
                    }
                },
                Next::Parse(data) => {
                    let parsed: Option<ChatCompletionChunk> = parse(data.as_str());
                    proof {
                        if parsed is Some {
                            head = chunk_events(table, parsed->0);
                        }
                    }
                    stream.on_parsed(parsed)
                },
                Next::Stop => {
                    return (events, Ok(()));
                },
            };
            let ghost before = found;
            proof {
                found = scan(full).0;
                lemma_scan_shrinks(full);
                lemma_to_be_given_up(full, texts.skip(i as int));
            }
            let mut step: Step = step;
            events.append(&mut step.events);
            next = step.next;
            assert(events_of(events@) == events_of(published) + (head + events_for(found)));
            assert forall|meaning: spec_fn(Seq<char>) -> Option<ChatCompletionChunk>| #[trigger]
                parses_as(parse, meaning) implies stream_events(
                Seq::empty(),
                Seq::empty(),
                texts,
                meaning,
            ) == events_of(events@) + events_to_come(
                found,
                stream.buffer(),
                stream.tools(),
                texts.skip(i as int),
                meaning,
            ) by {
                let rest = texts.skip(i as int);
                lemma_events_to_come(full, stream.tools(), rest, meaning);
                assert(events_to_come(before, buffer, table, waiting, meaning) == head
                    + stream_events(full, stream.tools(), rest, meaning));
            }
        }
    }
}

} // verus!
