//! The converter from chat completion chunks to Anthropic events.

use vstd::prelude::*;

use crate::anthropic::convert::{
    completion_usage_to_anthropic, matched_stop_sequence, stop_reason,
};
use crate::anthropic::reply::{
    AnthropicContext, AnthropicDelta, AnthropicErrorBody, AnthropicMessageDeltaBody,
    AnthropicMessageResponse, AnthropicResponseContentBlock, AnthropicStopReason,
    AnthropicStreamEvent, AnthropicUsage,
};
use crate::anthropic::stream::{
    add_text, add_texts, after_message_chunk, after_message_end, arguments_with, choices_bound,
    close_text, close_thinking, close_tools, flush, fresh_message, has_block_room, in_state,
    is_duplicate, message_error, named_tool, on_input, on_message_choice, on_message_choices,
    on_message_text, on_piece, on_pieces, on_thinking, on_tools, open_stream, open_tool,
    piece_bound, reserve_tools, reserved_tool, with_piece, MessageState, Sent, ToolState,
};
use crate::anthropic::stream_laws::{
    law_chunks_keep_blocks_distinct, law_end_closes_every_block, lemma_add_texts, lemma_block_room,
    lemma_choice_reserves, lemma_choices_grow, lemma_close_tools, lemma_piece_reserves,
    lemma_pieces_grow, lemma_reserve_tools,
};
use crate::chat::{
    ChatChoiceStream, ChatCompletionMessageContent, ChatCompletionMessageToolCallChunk,
    FinishReason, NvCreateChatCompletionStreamResponse,
};
use crate::ids::{fresh_id, fresh_ids, is_id};
use crate::json::{parse_json, parsed_json, Json, JsonView};
use crate::responses::stream::delta_text;
use crate::text::same_text;

verus! {

struct ToolCallState {
    id: String,
    name: String,
    accumulated_args: String,
    block_index: u32,
    started: bool,
    stopped: bool,
}

impl DeepView for ToolCallState {
    type V = ToolState;

    closed spec fn deep_view(&self) -> ToolState {
        ToolState {
            id: self.id@,
            name: self.name@,
            arguments: self.accumulated_args@,
            block_index: self.block_index as nat,
            started: self.started,
            stopped: self.stopped,
        }
    }
}

/// A converter from chat completion chunks to Anthropic events.
pub struct AnthropicStreamConverter {
    model: String,
    message_id: String,
    api_context: Option<AnthropicContext>,
    thinking_block_started: bool,
    thinking_block_closed: bool,
    thinking_block_index: u32,
    text_block_started: bool,
    text_block_closed: bool,
    text_block_index: u32,
    pending_text: Vec<String>,
    usage: AnthropicUsage,
    tool_call_states: Vec<ToolCallState>,
    tool_calls_sent: Vec<String>,
    next_block_index: u32,
    finish_reason: Option<FinishReason>,
    matched_stop: Option<String>,
    message_start_emitted: bool,
}

impl View for AnthropicStreamConverter {
    type V = MessageState;

    closed spec fn view(&self) -> MessageState {
        MessageState {
            model: self.model@,
            message_id: self.message_id@,
            context: self.api_context,
            thinking_started: self.thinking_block_started,
            thinking_closed: self.thinking_block_closed,
            thinking_index: self.thinking_block_index as nat,
            text_started: self.text_block_started,
            text_closed: self.text_block_closed,
            text_index: self.text_block_index as nat,
            pending: self.pending_text.deep_view(),
            usage: self.usage,
            tools: self.tool_call_states.deep_view(),
            sent_ids: self.tool_calls_sent.deep_view(),
            next_index: self.next_block_index as nat,
            finish_reason: self.finish_reason,
            matched: self.matched_stop.deep_view(),
            start_emitted: self.message_start_emitted,
        }
    }
}

/// What a converter holds and what it has emitted into `events`.
spec fn sent_by(
    converter: AnthropicStreamConverter,
    events: Vec<AnthropicStreamEvent>,
) -> Sent {
    Sent { state: converter@, events: events.deep_view() }
}

/// Appends an event.
fn push_event(events: &mut Vec<AnthropicStreamEvent>, event: AnthropicStreamEvent)
    ensures
        final(events).deep_view() == old(events).deep_view().push(event.deep_view()),
{
    events.push(event);
    assert(events.deep_view() =~= old(events).deep_view().push(event.deep_view()));
}

impl AnthropicStreamConverter {
    /// A converter that has seen nothing, with the given message id.
    pub fn from_parts(model: String, context: Option<AnthropicContext>, message_id: String) -> (converter: Self)
        ensures
            converter@ == fresh_message(model@, context, message_id@),
            converter@.wf(),
    {
        let converter = AnthropicStreamConverter {
            model,
            message_id,
            api_context: context,
            thinking_block_started: false,
            thinking_block_closed: false,
            thinking_block_index: 0,
            text_block_started: false,
            text_block_closed: false,
            text_block_index: 0,
            pending_text: Vec::new(),
            usage: AnthropicUsage {
                input_tokens: 0,
                output_tokens: 0,
                cache_creation_input_tokens: Some(0),
                cache_read_input_tokens: Some(0),
            },
            tool_call_states: Vec::new(),
            tool_calls_sent: Vec::new(),
            next_block_index: 0,
            finish_reason: None,
            matched_stop: None,
            message_start_emitted: false,
        };
        assert(converter@ =~= fresh_message(model@, context, message_id@));
        converter
    }

    /// A converter that has seen nothing, with a fresh message id.
    pub fn new(model: String) -> (converter: Self)
        ensures
            converter@ == fresh_message(model@, None, converter@.message_id),
            converter@.wf(),
            is_id("msg_"@, converter@.message_id),
    {
        Self::from_parts(model, None, fresh_id("msg_"))
    }

    /// A converter that knows what the request kept for its response.
    pub fn with_context(model: String, context: AnthropicContext) -> (converter: Self)
        ensures
            converter@ == fresh_message(model@, Some(context), converter@.message_id),
            converter@.wf(),
            is_id("msg_"@, converter@.message_id),
    {
        Self::from_parts(model, Some(context), fresh_id("msg_"))
    }

    /// What the request kept for its response.
    pub fn context(&self) -> (context: &Option<AnthropicContext>)
        ensures
            *context == self@.context,
    {
        &self.api_context
    }

    /// The token counts so far.
    pub fn usage(&self) -> (usage: AnthropicUsage)
        ensures
            usage == self@.usage,
    {
        self.usage
    }

    /// Starts the message, unless it has started.
    fn push_start(&mut self, events: &mut Vec<AnthropicStreamEvent>, input_tokens: u32)
        ensures
            sent_by(*final(self), *final(events)) == open_stream(
                sent_by(*old(self), *old(events)),
                input_tokens,
            ),
    {
        if self.message_start_emitted {
            return;
        }
        self.message_start_emitted = true;
        let message = AnthropicMessageResponse {
            id: self.message_id.clone(),
            object_type: "message".to_owned(),
            role: "assistant".to_owned(),
            content: Vec::new(),
            model: self.model.clone(),
            stop_reason: None,
            stop_sequence: None,
            usage: AnthropicUsage {
                input_tokens,
                output_tokens: self.usage.output_tokens,
                cache_creation_input_tokens: self.usage.cache_creation_input_tokens,
                cache_read_input_tokens: self.usage.cache_read_input_tokens,
            },
        };
        assert(message.content.deep_view() =~= seq![]);
        push_event(events, AnthropicStreamEvent::MessageStart { message });
    }

    /// Starts the message, unless it has started. `input_tokens` is what is known of the
    /// prompt.
    pub fn emit_start_events(&mut self, input_tokens: u32) -> (events: Vec<AnthropicStreamEvent>)
        ensures
            (Sent { state: final(self)@, events: events.deep_view() }) == open_stream(
                Sent { state: old(self)@, events: seq![] },
                input_tokens,
            ),
            old(self)@.wf() ==> final(self)@.wf(),
    {
        let mut events: Vec<AnthropicStreamEvent> = Vec::new();
        assert(events.deep_view() =~= seq![]);
        self.push_start(&mut events, input_tokens);
        assert(self@.tools == old(self)@.tools);
        assert(self@.tool_open() == old(self)@.tool_open());
        events
    }

    /// Extends the thinking block.
    fn push_thinking(&mut self, events: &mut Vec<AnthropicStreamEvent>, text: &Option<String>)
        requires
            on_thinking(sent_by(*old(self), *old(events)), *text).state.fits(),
        ensures
            sent_by(*final(self), *final(events)) == on_thinking(
                sent_by(*old(self), *old(events)),
                *text,
            ),
    {
        if let Some(thinking) = text {
            if !thinking.as_str().is_empty() {
                if !self.thinking_block_started {
                    let index: u32 = self.next_block_index;
                    self.thinking_block_started = true;
                    self.thinking_block_index = index;
                    self.next_block_index = index + 1;
                    push_event(
                        events,
                        AnthropicStreamEvent::ContentBlockStart {
                            index,
                            content_block: AnthropicResponseContentBlock::Thinking {
                                thinking: String::new(),
                                signature: String::new(),
                            },
                        },
                    );
                }
                push_event(
                    events,
                    AnthropicStreamEvent::ContentBlockDelta {
                        index: self.thinking_block_index,
                        delta: AnthropicDelta::ThinkingDelta { thinking: thinking.clone() },
                    },
                );
            }
        }
    }

    /// Closes the thinking block, if it is open.
    fn push_thinking_stop(&mut self, events: &mut Vec<AnthropicStreamEvent>)
        ensures
            sent_by(*final(self), *final(events)) == close_thinking(
                sent_by(*old(self), *old(events)),
            ),
    {
        if self.thinking_block_started && !self.thinking_block_closed {
            self.thinking_block_closed = true;
            push_event(
                events,
                AnthropicStreamEvent::ContentBlockDelta {
                    index: self.thinking_block_index,
                    delta: AnthropicDelta::SignatureDelta { signature: "erased".to_owned() },
                },
            );
            push_event(
                events,
                AnthropicStreamEvent::ContentBlockStop { index: self.thinking_block_index },
            );
        }
    }

    /// Closes the text block, if it is open.
    fn push_text_stop(&mut self, events: &mut Vec<AnthropicStreamEvent>)
        ensures
            sent_by(*final(self), *final(events)) == close_text(sent_by(*old(self), *old(events))),
    {
        if self.text_block_started && !self.text_block_closed {
            self.text_block_closed = true;
            push_event(
                events,
                AnthropicStreamEvent::ContentBlockStop { index: self.text_block_index },
            );
        }
    }

    /// Extends the text block; where none is open, a new one is.
    fn emit_text(&mut self, events: &mut Vec<AnthropicStreamEvent>, text: &String)
        requires
            add_text(sent_by(*old(self), *old(events)), text@).state.fits(),
        ensures
            sent_by(*final(self), *final(events)) == add_text(
                sent_by(*old(self), *old(events)),
                text@,
            ),
    {
        if !self.text_block_started || self.text_block_closed {
            let index: u32 = self.next_block_index;
            self.text_block_started = true;
            self.text_block_closed = false;
            self.text_block_index = index;
            self.next_block_index = index + 1;
            push_event(
                events,
                AnthropicStreamEvent::ContentBlockStart {
                    index,
                    content_block: AnthropicResponseContentBlock::Text {
                        text: String::new(),
                        citations: None,
                    },
                },
            );
        }
        push_event(
            events,
            AnthropicStreamEvent::ContentBlockDelta {
                index: self.text_block_index,
                delta: AnthropicDelta::TextDelta { text: text.clone() },
            },
        );
    }

    /// Releases the text that waited.
    fn flush_pending_text(&mut self, events: &mut Vec<AnthropicStreamEvent>)
        requires
            flush(sent_by(*old(self), *old(events))).state.fits(),
        ensures
            sent_by(*final(self), *final(events)) == flush(sent_by(*old(self), *old(events))),
    {
        let mut texts: Vec<String> = Vec::new();
        let ghost target = flush(sent_by(*self, *events));
        std::mem::swap(&mut texts, &mut self.pending_text);
        assert(self@.pending =~= seq![]);
        let ghost views = texts.deep_view();
        for i in 0..texts.len()
            invariant
                views == texts.deep_view(),
                target.state.fits(),
                target == add_texts(sent_by(*self, *events), views, i as int),
        {
            proof {
                lemma_add_texts(add_text(sent_by(*self, *events), views[i as int]), views, i + 1);
            }
            self.emit_text(events, &texts[i]);
        }
    }

    /// Whether the block of some call is open.
    fn any_tool_open(&self) -> (open: bool)
        ensures
            open == self@.tool_open(),
    {
        for j in 0..self.tool_call_states.len()
            invariant
                forall|k: int| 0 <= k < j ==> !(#[trigger] self@.tools[k]).is_open(),
        {
            let tool = &self.tool_call_states[j];
            assert(tool.deep_view() == self@.tools[j as int]);
            if tool.started && !tool.stopped {
                assert(self@.tools[j as int].is_open());
                return true;
            }
        }
        false
    }

    /// Text closes the thinking block; while a call is open it waits.
    fn push_text(
        &mut self,
        events: &mut Vec<AnthropicStreamEvent>,
        content: &Option<ChatCompletionMessageContent>,
    )
        requires
            on_message_text(
                sent_by(*old(self), *old(events)),
                delta_text(*content),
            ).state.fits(),
        ensures
            sent_by(*final(self), *final(events)) == on_message_text(
                sent_by(*old(self), *old(events)),
                delta_text(*content),
            ),
    {
        if let Some(ChatCompletionMessageContent::Text(text)) = content {
            if !text.as_str().is_empty() {
                self.push_thinking_stop(events);
                if self.any_tool_open() {
                    let ghost before = self@;
                    self.pending_text.push(text.clone());
                    assert(self@.pending =~= before.pending.push(text@));
                } else {
                    self.emit_text(events, text);
                }
            }
        }
    }

    /// Reserves calls until there are more than `index`.
    fn reserve_up_to(&mut self, index: u32)
        requires
            reserve_tools(old(self)@, (index + 1) as nat).fits(),
            index < u32::MAX,
        ensures
            final(self)@ == reserve_tools(old(self)@, (index + 1) as nat),
    {
        let ghost target = reserve_tools(self@, (index + 1) as nat);
        while self.tool_call_states.len() <= index as usize
            invariant
                target.fits(),
                target == reserve_tools(self@, (index + 1) as nat),
            decreases index + 1 - self@.tools.len(),
        {
            proof {
                lemma_reserve_tools(self@, (index + 1) as nat);
            }
            let ghost before = self@;
            let block_index: u32 = self.next_block_index;
            self.next_block_index = block_index + 1;
            self.tool_call_states.push(
                ToolCallState {
                    id: String::new(),
                    name: String::new(),
                    accumulated_args: String::new(),
                    block_index,
                    started: false,
                    stopped: false,
                },
            );
            assert(self@.tools =~= before.tools.push(reserved_tool(before.next_index)));
        }
    }

    /// Whether an id was sent before.
    fn was_sent(&self, id: &String) -> (sent: bool)
        ensures
            sent == self@.sent_ids.contains(id@),
    {
        for i in 0..self.tool_calls_sent.len()
            invariant
                forall|k: int| 0 <= k < i ==> (#[trigger] self@.sent_ids[k]) != id@,
        {
            assert(self@.sent_ids[i as int] == self.tool_calls_sent@[i as int]@);
            if same_text(self.tool_calls_sent[i].as_str(), id.as_str()) {
                return true;
            }
        }
        false
    }

    /// Starts the block of the call at position `j`, unless it has started.
    fn push_tool_start(&mut self, events: &mut Vec<AnthropicStreamEvent>, j: usize)
        requires
            j < old(self)@.tools.len(),
        ensures
            sent_by(*final(self), *final(events)) == open_tool(
                sent_by(*old(self), *old(events)),
                j as int,
            ),
    {
        if self.tool_call_states[j].started {
            return;
        }
        let ghost before = self@;
        let id = self.tool_call_states[j].id.clone();
        let name = self.tool_call_states[j].name.clone();
        let index: u32 = self.tool_call_states[j].block_index;
        self.tool_call_states[j].started = true;
        assert(self@.tools =~= before.tools.update(
            j as int,
            ToolState { started: true, ..before.tools[j as int] },
        ));
        if !id.as_str().is_empty() {
            self.tool_calls_sent.push(id.clone());
            assert(self@.sent_ids =~= before.sent_ids.push(id@));
        }
        let input = Json::Object(Vec::new());
        assert(input@ == JsonView::Object(seq![]));
        push_event(
            events,
            AnthropicStreamEvent::ContentBlockStart {
                index,
                content_block: AnthropicResponseContentBlock::ToolUse { id, name, input },
            },
        );
    }

    /// A piece of the arguments of the call at position `j`.
    fn push_input(
        &mut self,
        events: &mut Vec<AnthropicStreamEvent>,
        j: usize,
        delta: &String,
        complete: bool,
    )
        requires
            j < old(self)@.tools.len(),
        ensures
            sent_by(*final(self), *final(events)) == on_input(
                sent_by(*old(self), *old(events)),
                j as int,
                delta@,
                complete,
            ),
    {
        self.push_tool_start(events, j);
        let ghost opened = self@;
        assert(opened.tools.len() == old(self)@.tools.len());
        assert(self.tool_call_states@.len() == opened.tools.len());
        let index: u32 = self.tool_call_states[j].block_index;
        self.tool_call_states[j].accumulated_args.append(delta.as_str());
        assert(self@.tools =~= opened.tools.update(
            j as int,
            ToolState {
                arguments: opened.tools[j as int].arguments + delta@,
                ..opened.tools[j as int]
            },
        ));
        push_event(
            events,
            AnthropicStreamEvent::ContentBlockDelta {
                index,
                delta: AnthropicDelta::InputJsonDelta { partial_json: delta.clone() },
            },
        );
        let ghost told = self@;
        if !self.tool_call_states[j].id.as_str().is_empty()
            && !self.tool_call_states[j].name.as_str().is_empty()
            && !self.tool_call_states[j].stopped && complete {
            self.tool_call_states[j].stopped = true;
            assert(self@.tools =~= told.tools.update(
                j as int,
                ToolState { stopped: true, ..told.tools[j as int] },
            ));
            push_event(events, AnthropicStreamEvent::ContentBlockStop { index });
        }
    }

    /// A place for the call of a piece, and what the piece names.
    fn name_piece(&mut self, piece: &ChatCompletionMessageToolCallChunk, id: &String)
        requires
            reserve_tools(old(self)@, (piece.index + 1) as nat).fits(),
            piece.index < u32::MAX,
        ensures
            final(self)@ == with_piece(old(self)@, *piece, id@),
            piece.index < final(self)@.tools.len(),
    {
        proof {
            lemma_reserve_tools(self@, (piece.index + 1) as nat);
        }
        self.reserve_up_to(piece.index);
        let ghost reserved = self@;
        let j: usize = piece.index as usize;
        assert(self.tool_call_states@.len() == reserved.tools.len());
        assert(self.tool_call_states@[j as int].deep_view() == reserved.tools[j as int]);
        if piece.id.is_some() && self.tool_call_states[j].id.as_str().is_empty() {
            self.tool_call_states[j].id = id.clone();
        }
        if let Some(function) = &piece.function {
            if let Some(name) = &function.name {
                self.tool_call_states[j].name = name.clone();
            }
        }
        assert(self@.tools =~= reserved.tools.update(
            j as int,
            named_tool(reserved.tools[j as int], *piece, id@),
        ));
    }

    /// Whether the call at position `j` must not start because its id was sent before.
    fn repeats(&self, j: usize) -> (duplicate: bool)
        requires
            j < self@.tools.len(),
        ensures
            duplicate == is_duplicate(self@, self@.tools[j as int]),
    {
        assert(self.tool_call_states@.len() == self@.tools.len());
        let tool = &self.tool_call_states[j];
        assert(tool.deep_view() == self@.tools[j as int]);
        !tool.started && !tool.id.as_str().is_empty() && self.was_sent(&tool.id)
    }

    /// A piece of a tool call. The call takes the given id if it takes one now.
    fn push_piece(
        &mut self,
        events: &mut Vec<AnthropicStreamEvent>,
        piece: &ChatCompletionMessageToolCallChunk,
        id: &String,
        complete: bool,
    )
        requires
            on_piece(sent_by(*old(self), *old(events)), *piece, id@, complete).state.fits(),
            old(self)@.tools.len() <= old(self)@.next_index,
        ensures
            sent_by(*final(self), *final(events)) == on_piece(
                sent_by(*old(self), *old(events)),
                *piece,
                id@,
                complete,
            ),
            final(self)@.tools.len() <= final(self)@.next_index,
    {
        proof {
            lemma_reserve_tools(self@, (piece.index + 1) as nat);
            lemma_piece_reserves(sent_by(*self, *events), *piece, id@, complete);
        }
        self.name_piece(piece, id);
        let j: usize = piece.index as usize;
        if let Some(function) = &piece.function {
            if let Some(delta) = &function.arguments {
                if !self.repeats(j) {
                    self.push_input(events, j, delta, complete);
                }
            }
        }
    }

    /// A piece of a tool call. The call takes the given id if it takes one now; `complete`
    /// says whether its arguments are complete with the piece.
    pub fn apply_piece(
        &mut self,
        piece: &ChatCompletionMessageToolCallChunk,
        id: &String,
        complete: bool,
    ) -> (events: Vec<AnthropicStreamEvent>)
        requires
            old(self)@.wf(),
            on_piece(
                Sent { state: old(self)@, events: seq![] },
                *piece,
                id@,
                complete,
            ).state.fits(),
        ensures
            (Sent { state: final(self)@, events: events.deep_view() }) == on_piece(
                Sent { state: old(self)@, events: seq![] },
                *piece,
                id@,
                complete,
            ),
    {
        let mut events: Vec<AnthropicStreamEvent> = Vec::new();
        assert(events.deep_view() =~= seq![]);
        self.push_piece(&mut events, piece, id, complete);
        events
    }

    /// Whether the arguments of the call of a piece are complete with it: whether they are
    /// JSON.
    fn completes(&self, piece: &ChatCompletionMessageToolCallChunk) -> (complete: bool)
        ensures
            complete == (parsed_json(arguments_with(self@, *piece)) is Some),
    {
        let mut arguments = String::new();
        if self.tool_call_states.len() > piece.index as usize {
            arguments = self.tool_call_states[piece.index as usize].accumulated_args.clone();
        }
        if let Some(function) = &piece.function {
            if let Some(delta) = &function.arguments {
                arguments.append(delta.as_str());
            }
        }
        assert(arguments@ =~= arguments_with(self@, *piece));
        parse_json(arguments.as_str()).is_some()
    }

    /// The pieces of tool calls of one choice.
    fn push_pieces(
        &mut self,
        events: &mut Vec<AnthropicStreamEvent>,
        pieces: &Option<Vec<ChatCompletionMessageToolCallChunk>>,
        ids: &Vec<String>,
    )
        requires
            old(self)@.tools.len() <= old(self)@.next_index,
            pieces matches Some(all) ==> all@.len() <= ids@.len(),
            on_tools(sent_by(*old(self), *old(events)), *pieces, ids.deep_view()).state.fits(),
        ensures
            sent_by(*final(self), *final(events)) == on_tools(
                sent_by(*old(self), *old(events)),
                *pieces,
                ids.deep_view(),
            ),
            final(self)@.tools.len() <= final(self)@.next_index,
    {
        let ghost names = ids.deep_view();
        let ghost target = on_tools(sent_by(*self, *events), *pieces, names);
        if let Some(all) = pieces {
            self.push_thinking_stop(events);
            self.push_text_stop(events);
            for k in 0..all.len()
                invariant
                    names == ids.deep_view(),
                    all@.len() <= ids@.len(),
                    self@.tools.len() <= self@.next_index,
                    target.state.fits(),
                    target == on_pieces(sent_by(*self, *events), all@, k as int, names),
            {
                let complete = self.completes(&all[k]);
                proof {
                    lemma_pieces_grow(
                        on_piece(
                            sent_by(*self, *events),
                            all@[k as int],
                            names[k as int],
                            complete,
                        ),
                        all@,
                        k + 1,
                        names,
                    );
                }
                self.push_piece(events, &all[k], &ids[k], complete);
            }
        }
    }

    /// One choice of a chunk.
    fn push_choice(
        &mut self,
        events: &mut Vec<AnthropicStreamEvent>,
        choice: &ChatChoiceStream,
        ids: &Vec<String>,
    )
        requires
            old(self)@.tools.len() <= old(self)@.next_index,
            choice.delta.tool_calls matches Some(all) ==> all@.len() <= ids@.len(),
            on_message_choice(
                sent_by(*old(self), *old(events)),
                *choice,
                ids.deep_view(),
            ).state.fits(),
        ensures
            sent_by(*final(self), *final(events)) == on_message_choice(
                sent_by(*old(self), *old(events)),
                *choice,
                ids.deep_view(),
            ),
            final(self)@.tools.len() <= final(self)@.next_index,
    {
        proof {
            lemma_choice_reserves(sent_by(*self, *events), *choice, ids.deep_view());
        }
        if let Some(reason) = choice.finish_reason {
            self.finish_reason = Some(reason);
        }
        self.push_thinking(events, &choice.delta.reasoning_content);
        self.push_text(events, &choice.delta.content);
        self.push_pieces(events, &choice.delta.tool_calls, ids);
        if !self.any_tool_open() {
            proof {
                let called = sent_by(*self, *events);
                lemma_add_texts(
                    in_state(called, MessageState { pending: seq![], ..called.state }),
                    called.state.pending,
                    0,
                );
            }
            self.flush_pending_text(events);
        }
    }

    /// Whether the block counter is sure to fit after a chunk.
    pub fn has_room_for(&self, chunk: &NvCreateChatCompletionStreamResponse) -> (room: bool)
        requires
            self@.wf(),
        ensures
            room == has_block_room(self@, *chunk),
    {
        let choices = &chunk.inner.choices;
        let mut bound: u64 = 0;
        for c in 0..choices.len()
            invariant
                choices == chunk.inner.choices,
                bound == choices_bound(choices@.take(c as int)),
                bound <= u32::MAX + 1,
        {
            let mut own: u64 = 0;
            if let Some(pieces) = &choices[c].delta.tool_calls {
                for k in 0..pieces.len()
                    invariant
                        own == piece_bound(pieces@.take(k as int)),
                        own <= u32::MAX + 1,
                {
                    assert(pieces@.take(k + 1).drop_last() =~= pieces@.take(k as int));
                    if pieces[k].index as u64 + 1 > own {
                        own = pieces[k].index as u64 + 1;
                    }
                }
                assert(pieces@.take(pieces@.len() as int) =~= pieces@);
            }
            assert(choices@.take(c + 1).drop_last() =~= choices@.take(c as int));
            if own > bound {
                bound = own;
            }
        }
        assert(choices@.take(choices@.len() as int) =~= choices@);
        let tools: u64 = self.tool_call_states.len() as u64;
        let new_tools: u64 = if bound > tools {
            bound - tools
        } else {
            0
        };
        let limit: u64 = 0xffff_ffff;
        let used: u64 = self.next_block_index as u64 + new_tools;
        let count: u64 = choices.len() as u64;
        used <= limit && count <= limit && used + 3 * count <= limit
    }

    /// One chunk. The call of piece `k` of choice `c` takes the id `ids[c][k]`, if it takes
    /// one.
    pub fn process_chunk_with(
        &mut self,
        chunk: &NvCreateChatCompletionStreamResponse,
        ids: &Vec<Vec<String>>,
    ) -> (events: Vec<AnthropicStreamEvent>)
        requires
            old(self)@.wf(),
            has_block_room(old(self)@, *chunk),
            has_piece_ids(*chunk, ids.deep_view()),
        ensures
            (Sent { state: final(self)@, events: events.deep_view() }) == after_message_chunk(
                old(self)@,
                *chunk,
                ids.deep_view(),
            ),
            final(self)@.wf(),
    {
        let mut events: Vec<AnthropicStreamEvent> = Vec::new();
        assert(events.deep_view() =~= seq![]);
        let ghost names = ids.deep_view();
        let ghost target = after_message_chunk(self@, *chunk, names);
        proof {
            lemma_block_room(self@, *chunk, names);
            law_chunks_keep_blocks_distinct(self@, *chunk, names);
        }
        let mut input_tokens: u32 = 0;
        if let Some(usage) = chunk.inner.usage {
            self.usage = completion_usage_to_anthropic(usage);
            if usage.cached_tokens().is_some() {
                input_tokens = self.usage.input_tokens;
            }
        }
        self.push_start(&mut events, input_tokens);
        if let Some(matched) = matched_stop_sequence(&chunk.nvext, &self.api_context) {
            self.matched_stop = Some(matched);
        }
        for c in 0..chunk.inner.choices.len()
            invariant
                names == ids.deep_view(),
                has_piece_ids(*chunk, names),
                self@.tools.len() <= self@.next_index,
                target.state.fits(),
                target == on_message_choices(
                    sent_by(*self, events),
                    chunk.inner.choices@,
                    c as int,
                    names,
                ),
        {
            let choice = &chunk.inner.choices[c];
            proof {
                assert(names[c as int] == ids@[c as int].deep_view());
                assert(choice.delta.tool_calls == chunk.inner.choices@[c as int].delta.tool_calls);
                lemma_choices_grow(
                    on_message_choice(sent_by(*self, events), *choice, names[c as int]),
                    chunk.inner.choices@,
                    c + 1,
                    names,
                );
            }
            self.push_choice(&mut events, choice, &ids[c]);
        }
        events
    }

    /// One chunk. Calls get fresh ids.
    pub fn process_chunk(&mut self, chunk: &NvCreateChatCompletionStreamResponse) -> (events: Vec<
        AnthropicStreamEvent,
    >)
        requires
            old(self)@.wf(),
            has_block_room(old(self)@, *chunk),
        ensures
            exists|ids: Seq<Seq<Seq<char>>>|
                {
                    &&& has_piece_ids(*chunk, ids)
                    &&& forall|c: int, k: int|
                        0 <= c < ids.len() && 0 <= k < ids[c].len() ==> is_id(
                            "toolu_"@,
                            #[trigger] ids[c][k],
                        )
                    &&& (Sent { state: final(self)@, events: events.deep_view() })
                        == #[trigger] after_message_chunk(old(self)@, *chunk, ids)
                },
            final(self)@.wf(),
    {
        let mut ids: Vec<Vec<String>> = Vec::new();
        for c in 0..chunk.inner.choices.len()
            invariant
                ids@.len() == c,
                forall|d: int|
                    0 <= d < c && chunk.inner.choices@[d].delta.tool_calls is Some
                        ==> (#[trigger] ids@[d])@.len()
                        >= chunk.inner.choices@[d].delta.tool_calls->0@.len(),
                forall|d: int, k: int|
                    0 <= d < c && 0 <= k < ids@[d]@.len() ==> is_id(
                        "toolu_"@,
                        #[trigger] ids@[d]@[k]@,
                    ),
        {
            let count: usize = match &chunk.inner.choices[c].delta.tool_calls {
                Some(pieces) => pieces.len(),
                None => 0,
            };
            ids.push(fresh_ids("toolu_", count));
        }
        proof {
            let names = ids.deep_view();
            assert forall|d: int|
                0 <= d < chunk.inner.choices@.len() && (
                #[trigger] chunk.inner.choices@[d]).delta.tool_calls is Some implies names[d].len()
                >= chunk.inner.choices@[d].delta.tool_calls->0@.len() by {
                assert(names[d] == ids@[d].deep_view());
            }
            assert forall|c: int, k: int|
                0 <= c < names.len() && 0 <= k < names[c].len() implies is_id(
                "toolu_"@,
                #[trigger] names[c][k],
            ) by {
                assert(names[c] == ids@[c].deep_view());
                assert(names[c][k] == ids@[c]@[k]@);
            }
        }
        self.process_chunk_with(chunk, &ids)
    }

    /// Closes the blocks of the calls that are open.
    fn push_tool_stops(&mut self, events: &mut Vec<AnthropicStreamEvent>)
        ensures
            sent_by(*final(self), *final(events)) == close_tools(
                sent_by(*old(self), *old(events)),
                0,
            ),
    {
        let count: usize = self.tool_call_states.len();
        let ghost target = close_tools(sent_by(*self, *events), 0);
        for j in 0..count
            invariant
                count == self@.tools.len(),
                target == close_tools(sent_by(*self, *events), j as int),
        {
            let ghost before = self@;
            assert(self.tool_call_states@[j as int].deep_view() == before.tools[j as int]);
            if self.tool_call_states[j].started && !self.tool_call_states[j].stopped {
                let index: u32 = self.tool_call_states[j].block_index;
                self.tool_call_states[j].stopped = true;
                assert(self@.tools =~= before.tools.update(
                    j as int,
                    ToolState { stopped: true, ..before.tools[j as int] },
                ));
                push_event(events, AnthropicStreamEvent::ContentBlockStop { index });
            }
        }
    }

    /// Whether the block counter is sure to fit its machine type after the end of the stream.
    pub fn has_room_to_end(&self) -> (room: bool)
        ensures
            room == (self@.next_index < u32::MAX),
    {
        self.next_block_index < u32::MAX
    }

    /// The end of the stream: every block is closed, then the message ends.
    pub fn emit_end_events(&mut self) -> (events: Vec<AnthropicStreamEvent>)
        requires
            old(self)@.wf(),
            old(self)@.next_index < u32::MAX,
        ensures
            (Sent { state: final(self)@, events: events.deep_view() }) == after_message_end(
                old(self)@,
            ),
            final(self)@.wf(),
    {
        let mut events: Vec<AnthropicStreamEvent> = Vec::new();
        assert(events.deep_view() =~= seq![]);
        proof {
            law_end_closes_every_block(self@);
        }
        self.push_start(&mut events, 0);
        self.push_thinking_stop(&mut events);
        proof {
            let thought = sent_by(*self, events);
            lemma_close_tools(thought, 0);
            let tooled = close_tools(thought, 0);
            lemma_add_texts(
                in_state(tooled, MessageState { pending: seq![], ..tooled.state }),
                tooled.state.pending,
                0,
            );
        }
        self.push_tool_stops(&mut events);
        self.flush_pending_text(&mut events);
        self.push_text_stop(&mut events);
        let reason = match self.finish_reason {
            Some(FinishReason::Stop) => if self.matched_stop.is_some() {
                Some(AnthropicStopReason::StopSequence)
            } else {
                Some(AnthropicStopReason::EndTurn)
            },
            Some(reason) => Some(stop_reason(reason)),
            None => None,
        };
        let stop_sequence = match reason {
            Some(AnthropicStopReason::StopSequence) => self.matched_stop.clone(),
            _ => None,
        };
        push_event(
            &mut events,
            AnthropicStreamEvent::MessageDelta {
                delta: AnthropicMessageDeltaBody { stop_reason: reason, stop_sequence },
                usage: self.usage,
            },
        );
        push_event(&mut events, AnthropicStreamEvent::MessageStop);
        events
    }

    /// The event that ends the stream on a backend error.
    pub fn emit_error_events(&mut self) -> (events: Vec<AnthropicStreamEvent>)
        ensures
            events.deep_view() == seq![message_error()],
            *final(self) == *old(self),
    {
        let error = AnthropicErrorBody {
            error_type: "api_error".to_owned(),
            message: "An internal error occurred during generation.".to_owned(),
        };
        let mut events: Vec<AnthropicStreamEvent> = Vec::new();
        assert(events.deep_view() =~= seq![]);
        push_event(&mut events, AnthropicStreamEvent::Error { error });
        assert(events.deep_view() =~= seq![message_error()]);
        events
    }
}

/// Whether there is an id for every piece of a tool call.
pub open spec fn has_piece_ids(
    chunk: NvCreateChatCompletionStreamResponse,
    ids: Seq<Seq<Seq<char>>>,
) -> bool {
    &&& ids.len() >= chunk.inner.choices@.len()
    &&& forall|c: int|
        0 <= c < chunk.inner.choices@.len() && (
        #[trigger] chunk.inner.choices@[c]).delta.tool_calls is Some ==> ids[c].len()
            >= chunk.inner.choices@[c].delta.tool_calls->0@.len()
}

} // verus!
