//! Turning parsed completion chunks into stream events.

use crate::lists::lemma_filter_step;
use crate::provider::OpenAICompatProvider;
use crate::text::same_text;
use vstd::prelude::*;

verus! {

/// One chunk of a streamed chat completion.
#[derive(Debug, PartialEq)]
pub struct ChatCompletionChunk {
    pub choices: Vec<ChunkChoice>,
    pub usage: Option<ChunkUsage>,
}

/// One alternative of a chunk; only the first is followed.
#[derive(Debug, PartialEq)]
pub struct ChunkChoice {
    pub delta: ChunkDelta,
    pub finish_reason: Option<String>,
}

/// What a chunk adds to the message.
#[derive(Debug, PartialEq)]
pub struct ChunkDelta {
    pub content: Option<String>,
    pub tool_calls: Option<Vec<ToolCallDelta>>,
}

/// What a chunk adds to the tool call numbered `index`.
#[derive(Debug, PartialEq)]
pub struct ToolCallDelta {
    pub index: usize,
    pub id: Option<String>,
    pub function: Option<FunctionDelta>,
}

/// What a chunk adds to the function of a tool call.
#[derive(Debug, PartialEq)]
pub struct FunctionDelta {
    pub name: Option<String>,
    pub arguments: Option<String>,
}

/// Token counts, sent with the last chunk.
#[derive(Debug, PartialEq)]
pub struct ChunkUsage {
    pub prompt_tokens: usize,
    pub completion_tokens: usize,
}

/// An event of the standardized LLM stream.
#[derive(Debug, PartialEq)]
pub enum StreamEvent {
    TextDelta(String),
    ToolCallStart { id: String, name: String },
    ToolCallDelta { id: String, args_delta: String },
    ToolCallEnd { id: String },
    Usage { input_tokens: usize, output_tokens: usize },
    Done,
    Error(String),
}

/// What a stream event says.
pub enum Event {
    TextDelta(Seq<char>),
    ToolCallStart { id: Seq<char>, name: Seq<char> },
    ToolCallDelta { id: Seq<char>, args_delta: Seq<char> },
    ToolCallEnd { id: Seq<char> },
    Usage { input_tokens: usize, output_tokens: usize },
    Done,
    Error(Seq<char>),
}

impl View for StreamEvent {
    type V = Event;

    open spec fn view(&self) -> Event {
        match self {
            StreamEvent::TextDelta(text) => Event::TextDelta(text@),
            StreamEvent::ToolCallStart { id, name } => Event::ToolCallStart {
                id: id@,
                name: name@,
            },
            StreamEvent::ToolCallDelta { id, args_delta } => Event::ToolCallDelta {
                id: id@,
                args_delta: args_delta@,
            },
            StreamEvent::ToolCallEnd { id } => Event::ToolCallEnd { id: id@ },
            StreamEvent::Usage { input_tokens, output_tokens } => Event::Usage {
                input_tokens: *input_tokens,
                output_tokens: *output_tokens,
            },
            StreamEvent::Done => Event::Done,
            StreamEvent::Error(message) => Event::Error(message@),
        }
    }
}

/// What a list of stream events says, in order.
pub open spec fn events_of(events: Seq<StreamEvent>) -> Seq<Event> {
    events.map_values(|event: StreamEvent| event@)
}

/// The tool calls in progress: at each call index, the id and the name known so
/// far, empty where nothing is known.
pub type ToolTable = Seq<(Seq<char>, Seq<char>)>;

/// The table that a vector of pairs holds.
pub open spec fn table_of(entries: Seq<(String, String)>) -> ToolTable {
    entries.map_values(|entry: (String, String)| (entry.0@, entry.1@))
}

/// `table`, filled up with unknown calls to at least `len` entries.
pub open spec fn grown(table: ToolTable, len: nat) -> ToolTable {
    if table.len() >= len {
        table
    } else {
        table + Seq::new(
            (len - table.len()) as nat,
            |i: int| (Seq::<char>::empty(), Seq::<char>::empty()),
        )
    }
}

/// The table once `call` has been taken in: the entry at its index is there, with
/// the id and the name that `call` brings.
pub open spec fn noted(table: ToolTable, call: ToolCallDelta) -> ToolTable {
    let wide = grown(table, call.index as nat + 1);
    let known = wide[call.index as int];
    let id = match call.id {
        Some(id) => id@,
        None => known.0,
    };
    let name = match call.function {
        Some(function) => match function.name {
            Some(name) => name@,
            None => known.1,
        },
        None => known.1,
    };
    wide.update(call.index as int, (id, name))
}

/// The events for `call`: a start where it brings a name, then a delta where it
/// brings arguments, both under the id known once it has been taken in.
pub open spec fn call_events(table: ToolTable, call: ToolCallDelta) -> Seq<Event> {
    let id = noted(table, call)[call.index as int].0;
    match call.function {
        Some(function) => {
            (match function.name {
                Some(name) => seq![Event::ToolCallStart { id, name: name@ }],
                None => Seq::empty(),
            }) + (match function.arguments {
                Some(arguments) => if arguments@.len() > 0 {
                    seq![Event::ToolCallDelta { id, args_delta: arguments@ }]
                } else {
                    Seq::empty()
                },
                None => Seq::empty(),
            })
        },
        None => Seq::empty(),
    }
}

/// The table once every call of a list has been taken in, in order.
pub open spec fn all_noted(table: ToolTable, calls: Seq<ToolCallDelta>) -> ToolTable
    decreases calls.len(),
{
    if calls.len() == 0 {
        table
    } else {
        noted(all_noted(table, calls.drop_last()), calls.last())
    }
}

/// The events for a list of calls, in order.
pub open spec fn all_call_events(table: ToolTable, calls: Seq<ToolCallDelta>) -> Seq<Event>
    decreases calls.len(),
{
    if calls.len() == 0 {
        Seq::empty()
    } else {
        all_call_events(table, calls.drop_last()) + call_events(
            all_noted(table, calls.drop_last()),
            calls.last(),
        )
    }
}

/// One end for each call with a known id, in the order of the call indices.
pub open spec fn end_events(table: ToolTable) -> Seq<Event> {
    table.filter(|entry: (Seq<char>, Seq<char>)| entry.0.len() > 0).map_values(
        |entry: (Seq<char>, Seq<char>)| Event::ToolCallEnd { id: entry.0 },
    )
}

/// The usage event of a chunk, where it reports usage.
pub open spec fn usage_events(chunk: ChatCompletionChunk) -> Seq<Event> {
    match chunk.usage {
        Some(usage) => seq![
            Event::Usage {
                input_tokens: usage.prompt_tokens,
                output_tokens: usage.completion_tokens,
            },
        ],
        None => Seq::empty(),
    }
}

/// The text event of a choice, where it adds any text.
pub open spec fn text_events(choice: ChunkChoice) -> Seq<Event> {
    match choice.delta.content {
        Some(text) => if text@.len() > 0 {
            seq![Event::TextDelta(text@)]
        } else {
            Seq::empty()
        },
        None => Seq::empty(),
    }
}

/// The tool calls that a choice adds to.
pub open spec fn choice_calls(choice: ChunkChoice) -> Seq<ToolCallDelta> {
    match choice.delta.tool_calls {
        Some(calls) => calls@,
        None => Seq::empty(),
    }
}

/// Whether a choice ends the tool calls in progress.
pub open spec fn ends_calls(choice: ChunkChoice) -> bool {
    choice.finish_reason matches Some(reason) && reason@ == "tool_calls"@
}

/// The events for a chunk, given the tool calls in progress: usage, then, for the
/// first choice, its text, its tool calls, and the ends of all calls where it
/// finishes them.
pub open spec fn chunk_events(table: ToolTable, chunk: ChatCompletionChunk) -> Seq<Event> {
    usage_events(chunk) + if chunk.choices@.len() == 0 {
        Seq::empty()
    } else {
        let choice = chunk.choices@[0];
        text_events(choice) + all_call_events(table, choice_calls(choice)) + if ends_calls(choice) {
            end_events(all_noted(table, choice_calls(choice)))
        } else {
            Seq::empty()
        }
    }
}

/// The tool calls in progress after a chunk.
pub open spec fn chunk_table(table: ToolTable, chunk: ChatCompletionChunk) -> ToolTable {
    if chunk.choices@.len() == 0 {
        table
    } else if ends_calls(chunk.choices@[0]) {
        Seq::empty()
    } else {
        all_noted(table, choice_calls(chunk.choices@[0]))
    }
}

/// Whether every call index of a list leaves room for an entry.
pub open spec fn calls_fit(calls: Seq<ToolCallDelta>) -> bool {
    forall|i: int| 0 <= i < calls.len() ==> (#[trigger] calls[i]).index < usize::MAX
}

/// Whether every call index that a chunk makes use of leaves room for an entry.
pub open spec fn chunk_fits(chunk: ChatCompletionChunk) -> bool {
    chunk.choices@.len() > 0 ==> calls_fit(choice_calls(chunk.choices@[0]))
}

impl ChatCompletionChunk {
    /// Whether every call index that the chunk makes use of leaves room for an
    /// entry.
    pub fn fits(&self) -> (fits: bool)
        ensures
            fits == chunk_fits(*self),
    {
        if self.choices.len() == 0 {
            return true;
        }
        if let Some(calls) = &self.choices[0].delta.tool_calls {
            let mut i: usize = 0;
            while i < calls.len()
                invariant
                    i <= calls@.len(),
                    self.choices@.len() > 0,
                    calls@ == choice_calls(self.choices@[0]),
                    forall|j: int| 0 <= j < i ==> (#[trigger] calls@[j]).index < usize::MAX,
                decreases calls@.len() - i,
            {
                if calls[i].index == usize::MAX {
                    assert(!(choice_calls(self.choices@[0])[i as int].index < usize::MAX));
                    return false;
                }
                i = i + 1;
            }
        }
        true
    }
}

/// Takes in one tool call: updates `active_tools` and appends the call's events.
fn note_call(
    call: &ToolCallDelta,
    active_tools: &mut Vec<(String, String)>,
    events: &mut Vec<StreamEvent>,
)
    requires
        call.index < usize::MAX,
    ensures
        table_of(final(active_tools)@) == noted(table_of(old(active_tools)@), *call),
        events_of(final(events)@) == events_of(old(events)@) + call_events(
            table_of(old(active_tools)@),
            *call,
        ),
{
    let ghost table = table_of(active_tools@);
    while active_tools.len() <= call.index
        invariant
            table_of(active_tools@) == grown(table, active_tools@.len()),
            active_tools@.len() <= call.index + 1 || active_tools@.len() == table.len(),
            active_tools@.len() >= table.len(),
            call.index < usize::MAX,
        decreases call.index + 1 - active_tools@.len(),
    {
        let ghost before = active_tools@;
        active_tools.push((String::new(), String::new()));
        proof {
            let unknown = (Seq::<char>::empty(), Seq::<char>::empty());
            assert(table_of(active_tools@) == table_of(before).push(unknown));
            assert(grown(table, before.len() + 1) == grown(table, before.len()).push(unknown));
        }
    }
    let ghost wide = table_of(active_tools@);
    assert(wide == grown(table, call.index as nat + 1));
    if let Some(id) = &call.id {
        active_tools[call.index].0 = id.clone();
    }
    assert(table_of(active_tools@) == wide.update(
        call.index as int,
        (
            match call.id {
                Some(id) => id@,
                None => wide[call.index as int].0,
            },
            wide[call.index as int].1,
        ),
    ));
    if let Some(function) = &call.function {
        if let Some(name) = &function.name {
            active_tools[call.index].1 = name.clone();
            events.push(
                StreamEvent::ToolCallStart {
                    id: active_tools[call.index].0.clone(),
                    name: name.clone(),
                },
            );
        }
        if let Some(arguments) = &function.arguments {
            if !arguments.as_str().is_empty() {
                events.push(
                    StreamEvent::ToolCallDelta {
                        id: active_tools[call.index].0.clone(),
                        args_delta: arguments.clone(),
                    },
                );
            }
        }
    }
}

impl OpenAICompatProvider {
    /// Processes one parsed chunk: the events to publish, in order, and, in
    /// `active_tools`, the tool calls in progress afterwards.
    pub fn process_chunk(
        chunk: &ChatCompletionChunk,
        active_tools: &mut Vec<(String, String)>,
    ) -> (events: Vec<StreamEvent>)
        requires
            chunk_fits(*chunk),
        ensures
            events_of(events@) == chunk_events(table_of(old(active_tools)@), *chunk),
            table_of(final(active_tools)@) == chunk_table(table_of(old(active_tools)@), *chunk),
    {
        let ghost table = table_of(active_tools@);
        let mut events: Vec<StreamEvent> = Vec::new();
        if let Some(usage) = &chunk.usage {
            events.push(
                StreamEvent::Usage {
                    input_tokens: usage.prompt_tokens,
                    output_tokens: usage.completion_tokens,
                },
            );
        }
        assert(events_of(events@) == usage_events(*chunk));
        if chunk.choices.len() == 0 {
            return events;
        }
        let choice: &ChunkChoice = &chunk.choices[0];
        if let Some(text) = &choice.delta.content {
            if !text.as_str().is_empty() {
                events.push(StreamEvent::TextDelta(text.clone()));
            }
        }
        let ghost head = usage_events(*chunk) + text_events(*choice);
        assert(events_of(events@) == head);
        if let Some(calls) = &choice.delta.tool_calls {
            let mut i: usize = 0;
            while i < calls.len()
                invariant
                    i <= calls@.len(),
                    calls_fit(calls@),
                    table_of(active_tools@) == all_noted(table, calls@.take(i as int)),
                    events_of(events@) == head + all_call_events(table, calls@.take(i as int)),
                decreases calls@.len() - i,
            {
                assert(calls@.take(i + 1).drop_last() == calls@.take(i as int));
                note_call(&calls[i], active_tools, &mut events);
                i = i + 1;
            }
            assert(calls@.take(calls@.len() as int) == calls@);
        }
        if let Some(reason) = &choice.finish_reason {
            if same_text(reason.as_str(), "tool_calls") {
                end_calls(active_tools, &mut events);
                active_tools.clear();
            }
        }
        events
    }
}

/// The ends of one more entry: its own, where its id is known.
proof fn lemma_end_events_step(table: ToolTable, i: int)
    requires
        0 <= i < table.len(),
    ensures
        end_events(table.take(i + 1)) == if table[i].0.len() > 0 {
            end_events(table.take(i)).push(Event::ToolCallEnd { id: table[i].0 })
        } else {
            end_events(table.take(i))
        },
{
    lemma_filter_step(table, i, |entry: (Seq<char>, Seq<char>)| entry.0.len() > 0);
}

/// Appends the end of every tool call in progress.
fn end_calls(active_tools: &Vec<(String, String)>, events: &mut Vec<StreamEvent>)
    ensures
        events_of(final(events)@) == events_of(old(events)@) + end_events(table_of(active_tools@)),
{
    let ghost table = table_of(active_tools@);
    let ghost before = events_of(events@);
    let mut i: usize = 0;
    while i < active_tools.len()
        invariant
            i <= active_tools@.len(),
            table == table_of(active_tools@),
            events_of(events@) == before + end_events(table.take(i as int)),
        decreases active_tools@.len() - i,
    {
        proof {
            lemma_end_events_step(table, i as int);
        }
        let id: &String = &active_tools[i].0;
        if !id.as_str().is_empty() {
            let ghost sent = events@;
            events.push(StreamEvent::ToolCallEnd { id: id.clone() });
            assert(events_of(events@) == events_of(sent).push(Event::ToolCallEnd { id: id@ }));
        }
        i = i + 1;
    }
    assert(table.take(table.len() as int) == table);
}

} // verus!
