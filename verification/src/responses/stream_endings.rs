//! When a stream begins and ends its message and its reasoning, in terms of the chunks that came.

use vstd::prelude::*;

use crate::chat::{ChatChoiceStream, ChatCompletionMessageToolCallChunk};
use crate::responses::stream::{
    after_chunk, after_end, after_start, close_call, close_calls, close_message, close_reasoning,
    delta_text, on_choice, on_choices, on_reasoning, on_text, on_tool_call, on_tool_calls,
    on_tool_delta, open_message, Emitted, StreamState,
};
use crate::responses::stream_laws::lemma_reserve_calls;
use crate::responses::stream_meaning::{
    all_pieces, all_text, calls_stand, choices_of, has_spoken, lemma_choice_stands,
    lemma_stream_stands, pieces_in, shown_reasoning, status_after, summary_asked, text_in, was_cut,
    words_stand,
};
use crate::responses::stream_order::{with_counts, with_limit};
use crate::responses::stream_run::{is_fresh, stream_so_far, whole_stream, Turn};
use crate::responses::types::{
    OutputItemView, OutputMessageContentView, OutputStatus, ResponseEventPayloadView,
    ResponseStreamEventView, ResponseView, Status, SummaryPartView,
};

verus! {

/// What an event tells of the message or the reasoning as a whole.
#[verifier::ext_equal]
pub enum WordsTold {
    ReasoningBegins { summaries: nat, status: Option<OutputStatus> },
    ReasoningEnds { text: Seq<char>, status: Option<OutputStatus> },
    MessageBegins { parts: nat, status: OutputStatus },
    MessageEnds { text: Seq<char>, status: OutputStatus },
}

/// What an event tells of the message or the reasoning as a whole, if anything.
pub open spec fn told_in(payload: ResponseEventPayloadView) -> Seq<WordsTold> {
    match payload {
        ResponseEventPayloadView::ResponseOutputItemAdded {
            item: OutputItemView::Reasoning(reasoning),
            ..
        } => seq![
            WordsTold::ReasoningBegins {
                summaries: reasoning.summary.len(),
                status: reasoning.status,
            },
        ],
        ResponseEventPayloadView::ResponseOutputItemAdded {
            item: OutputItemView::Message(message),
            ..
        } => seq![
            WordsTold::MessageBegins { parts: message.content.len(), status: message.status },
        ],
        ResponseEventPayloadView::ResponseOutputItemDone {
            item: OutputItemView::Reasoning(reasoning),
            ..
        } => seq![
            WordsTold::ReasoningEnds {
                text: match reasoning.summary[0] {
                    SummaryPartView::SummaryText(content) => content.text,
                },
                status: reasoning.status,
            },
        ],
        ResponseEventPayloadView::ResponseOutputItemDone {
            item: OutputItemView::Message(message),
            ..
        } => seq![
            WordsTold::MessageEnds {
                text: match message.content[0] {
                    OutputMessageContentView::OutputText(content) => content.text,
                    OutputMessageContentView::Refusal(refusal) => refusal,
                },
                status: message.status,
            },
        ],
        _ => seq![],
    }
}

/// What events tell of the message and the reasoning as a whole, in their order.
pub open spec fn word_log(events: Seq<ResponseStreamEventView>) -> Seq<WordsTold>
    decreases events.len(),
{
    if events.len() == 0 {
        seq![]
    } else {
        word_log(events.drop_last()) + told_in(events.last().payload)
    }
}

/// What is to be told with the last of the choices: that the reasoning begins, with the first of
/// it; that it is complete, with the first text or call; and that the message begins, with the
/// first text.
pub open spec fn told_with_last(choices: Seq<ChatChoiceStream>, shown: bool) -> Seq<WordsTold> {
    let before = choices.drop_last();
    let reasoning = shown_reasoning(choices, shown);
    let begins: Seq<WordsTold> = if reasoning.len() > 0 && shown_reasoning(before, shown).len()
        == 0 {
        seq![
            WordsTold::ReasoningBegins { summaries: 0, status: Some(OutputStatus::InProgress) },
        ]
    } else {
        seq![]
    };
    let ends: Seq<WordsTold> = if reasoning.len() > 0 && has_spoken(choices) && !has_spoken(
        before,
    ) {
        seq![
            WordsTold::ReasoningEnds { text: reasoning, status: Some(OutputStatus::Completed) },
        ]
    } else {
        seq![]
    };
    let message: Seq<WordsTold> = if all_text(choices).len() > 0 && all_text(before).len() == 0 {
        seq![WordsTold::MessageBegins { parts: 0, status: OutputStatus::InProgress }]
    } else {
        seq![]
    };
    begins + ends + message
}

/// What is to be told of the message and the reasoning.
pub open spec fn to_log(choices: Seq<ChatChoiceStream>, shown: bool) -> Seq<WordsTold>
    decreases choices.len(),
{
    if choices.len() == 0 {
        seq![]
    } else {
        to_log(choices.drop_last(), shown) + told_with_last(choices, shown)
    }
}

/// Whether events go on with some that tell nothing of the message or the reasoning.
spec fn adds_quietly(
    before: Seq<ResponseStreamEventView>,
    after: Seq<ResponseStreamEventView>,
) -> bool {
    &&& before.len() <= after.len()
    &&& forall|k: int| 0 <= k < before.len() ==> #[trigger] after[k] == before[k]
    &&& forall|k: int|
        before.len() <= k < after.len() ==> told_in((#[trigger] after[k]).payload).len() == 0
}

proof fn lemma_quiet(
    before: Seq<ResponseStreamEventView>,
    after: Seq<ResponseStreamEventView>,
)
    requires
        adds_quietly(before, after),
    ensures
        word_log(after) == word_log(before),
    decreases after.len(),
{
    if after.len() > before.len() {
        assert(told_in(after[after.len() - 1].payload).len() == 0);
        lemma_quiet(before, after.drop_last());
        assert(word_log(after) =~= word_log(before));
    } else {
        assert(after =~= before);
    }
}

/// One event that tells something, among others that tell nothing.
proof fn lemma_one(
    before: Seq<ResponseStreamEventView>,
    after: Seq<ResponseStreamEventView>,
    at: int,
)
    requires
        before.len() <= at < after.len(),
        adds_quietly(before, after.take(at)),
        adds_quietly(after.take(at + 1), after),
    ensures
        word_log(after) == word_log(before) + told_in(after[at].payload),
{
    lemma_quiet(before, after.take(at));
    lemma_quiet(after.take(at + 1), after);
    assert(after.take(at + 1).drop_last() =~= after.take(at));
}

proof fn lemma_reasoning_told(run: Emitted, text: Option<String>)
    ensures
        ({
            let after = on_reasoning(run, text);
            word_log(after.events) == word_log(run.events) + if after.state.reasoning_started
                && !run.state.reasoning_started {
                seq![
                    WordsTold::ReasoningBegins {
                        summaries: 0,
                        status: Some(OutputStatus::InProgress),
                    },
                ]
            } else {
                seq![]
            }
        }),
{
    let after = on_reasoning(run, text);
    let n = run.events.len() as int;
    if after.state.reasoning_started && !run.state.reasoning_started {
        assert(after.events.take(n) =~= run.events);
        assert(adds_quietly(run.events, after.events.take(n)));
        assert(adds_quietly(after.events.take(n + 1), after.events));
        lemma_one(run.events, after.events, n);
    } else {
        assert(adds_quietly(run.events, after.events));
        lemma_quiet(run.events, after.events);
        assert(word_log(run.events) + Seq::<WordsTold>::empty() =~= word_log(run.events));
    }
}

proof fn lemma_reasoning_ends(run: Emitted, status: OutputStatus)
    ensures
        ({
            let after = close_reasoning(run, status);
            word_log(after.events) == word_log(run.events) + if run.state.reasoning_started
                && !run.state.reasoning_done {
                seq![
                    WordsTold::ReasoningEnds {
                        text: after.state.reasoning,
                        status: Some(status),
                    },
                ]
            } else {
                seq![]
            }
        }),
{
    let after = close_reasoning(run, status);
    if run.state.reasoning_started && !run.state.reasoning_done {
        let last = after.events.len() - 1;
        assert(adds_quietly(run.events, after.events.take(last)));
        assert(after.events.take(last + 1) =~= after.events);
        assert(adds_quietly(after.events.take(last + 1), after.events));
        lemma_one(run.events, after.events, last);
        assert(told_in(after.events[last].payload) =~= seq![
            WordsTold::ReasoningEnds { text: after.state.reasoning, status: Some(status) },
        ]);
    } else {
        assert(word_log(run.events) + Seq::<WordsTold>::empty() =~= word_log(run.events));
    }
}

proof fn lemma_message_begins(run: Emitted)
    ensures
        word_log(open_message(run).events) == word_log(run.events)
            + if !run.state.message_started {
            seq![WordsTold::MessageBegins { parts: 0, status: OutputStatus::InProgress }]
        } else {
            seq![]
        },
{
    let after = open_message(run);
    let n = run.events.len() as int;
    if !run.state.message_started {
        assert(after.events.take(n) =~= run.events);
        assert(adds_quietly(run.events, after.events.take(n)));
        assert(adds_quietly(after.events.take(n + 1), after.events));
        lemma_one(run.events, after.events, n);
    } else {
        assert(word_log(run.events) + Seq::<WordsTold>::empty() =~= word_log(run.events));
    }
}

proof fn lemma_message_ends(run: Emitted)
    ensures
        word_log(close_message(run).events) == word_log(run.events) + if run.state.message_started {
            seq![
                WordsTold::MessageEnds {
                    text: run.state.text,
                    status: if run.state.output_limit_reached {
                        OutputStatus::Incomplete
                    } else {
                        OutputStatus::Completed
                    },
                },
            ]
        } else {
            seq![]
        },
{
    let after = close_message(run);
    if run.state.message_started {
        let last = after.events.len() - 1;
        assert(adds_quietly(run.events, after.events.take(last)));
        assert(after.events.take(last + 1) =~= after.events);
        assert(adds_quietly(after.events.take(last + 1), after.events));
        lemma_one(run.events, after.events, last);
    } else {
        assert(word_log(run.events) + Seq::<WordsTold>::empty() =~= word_log(run.events));
    }
}

proof fn lemma_pieces_are_quiet(
    run: Emitted,
    chunks: Seq<ChatCompletionMessageToolCallChunk>,
    from: int,
    ids: Seq<Seq<char>>,
    base: nat,
)
    ensures
        adds_quietly(run.events, on_tool_calls(run, chunks, from, ids, base).events),
    decreases chunks.len() - from,
{
    if 0 <= from < chunks.len() {
        let next = on_tool_call(run, chunks[from], ids, base);
        lemma_reserve_calls(run.state, (chunks[from].index + 1) as nat, ids, base);
        assert(adds_quietly(run.events, next.events));
        lemma_pieces_are_quiet(next, chunks, from + 1, ids, base);
    }
}

proof fn lemma_calls_close_quietly(run: Emitted, from: int)
    ensures
        adds_quietly(run.events, close_calls(run, from).events),
    decreases run.state.calls.len() - from,
{
    if 0 <= from < run.state.calls.len() {
        let next = close_call(run, from);
        assert(adds_quietly(run.events, next.events));
        lemma_calls_close_quietly(next, from + 1);
    }
}

/// What text tells: that the reasoning is complete, and that the message begins.
proof fn lemma_text_told(run: Emitted, text: Seq<char>)
    requires
        text.len() > 0,
    ensures
        ({
            let closed = close_reasoning(run, OutputStatus::Completed);
            &&& word_log(on_text(run, text).events) == word_log(closed.events)
                + if !run.state.message_started {
                seq![WordsTold::MessageBegins { parts: 0, status: OutputStatus::InProgress }]
            } else {
                seq![]
            }
            &&& on_text(run, text).state.reasoning_done
        }),
{
    let closed = close_reasoning(run, OutputStatus::Completed);
    let opened = open_message(closed);
    lemma_message_begins(closed);
    assert(adds_quietly(opened.events, on_text(run, text).events));
    lemma_quiet(opened.events, on_text(run, text).events);
}

/// That the reasoning ends, if it does.
spec fn ending(ends: bool, text: Seq<char>) -> Seq<WordsTold> {
    if ends {
        seq![WordsTold::ReasoningEnds { text, status: Some(OutputStatus::Completed) }]
    } else {
        seq![]
    }
}

/// That the reasoning begins, if it does.
spec fn beginning(begins: bool) -> Seq<WordsTold> {
    if begins {
        seq![
            WordsTold::ReasoningBegins { summaries: 0, status: Some(OutputStatus::InProgress) },
        ]
    } else {
        seq![]
    }
}

/// That the message begins, if it does.
spec fn speaking(begins: bool) -> Seq<WordsTold> {
    if begins {
        seq![WordsTold::MessageBegins { parts: 0, status: OutputStatus::InProgress }]
    } else {
        seq![]
    }
}

/// What text and calls tell: that the reasoning is complete, and that the message begins.
proof fn lemma_speech_told(run: Emitted, choice: ChatChoiceStream, ids: Seq<Seq<char>>, base: nat)
    ensures
        ({
            let texted = on_text(run, delta_text(choice.delta.content));
            let called = on_tool_delta(texted, choice.delta.tool_calls, ids, base);
            let text = text_in(choice).len() > 0;
            let speaks = text || pieces_in(choice).len() > 0;
            word_log(called.events) == word_log(run.events) + ending(
                speaks && run.state.reasoning_started && !run.state.reasoning_done,
                run.state.reasoning,
            ) + speaking(text && !run.state.message_started)
        }),
{
    let text = delta_text(choice.delta.content);
    let texted = on_text(run, text);
    let called = on_tool_delta(texted, choice.delta.tool_calls, ids, base);
    let spoken = close_reasoning(run, OutputStatus::Completed);
    let none = Seq::<WordsTold>::empty();
    let log = word_log(run.events);
    lemma_reasoning_ends(run, OutputStatus::Completed);
    assert(spoken.state.reasoning == run.state.reasoning);
    if text.len() > 0 {
        lemma_text_told(run, text);
    } else {
        assert(texted == run);
    }
    if pieces_in(choice).len() > 0 {
        let closed = close_reasoning(texted, OutputStatus::Completed);
        lemma_pieces_are_quiet(closed, pieces_in(choice), 0, ids, base);
        lemma_quiet(closed.events, called.events);
        if text.len() > 0 {
            assert(closed == texted);
        } else {
            assert(word_log(spoken.events) + none =~= word_log(spoken.events));
        }
    } else {
        assert(called == texted);
        assert(log + none + none =~= log);
    }
}

proof fn lemma_choice_told(
    prior: Seq<WordsTold>,
    run: Emitted,
    choices: Seq<ChatChoiceStream>,
    choice: ChatChoiceStream,
    ids: Seq<Seq<char>>,
    base: nat,
)
    requires
        words_stand(run.state, choices),
        prior + word_log(run.events) == to_log(choices, summary_asked(run.state.params)),
    ensures
        prior + word_log(on_choice(run, choice, ids, base).events) == to_log(
            choices.push(choice),
            summary_asked(run.state.params),
        ),
{
    let all = choices.push(choice);
    let shown = summary_asked(run.state.params);
    assert(all.drop_last() =~= choices);
    let limited = with_limit(run, choice);
    let reasoned = on_reasoning(limited, choice.delta.reasoning_content);
    let texted = on_text(reasoned, delta_text(choice.delta.content));
    let called = on_tool_delta(texted, choice.delta.tool_calls, ids, base);
    let after = on_choice(run, choice, ids, base);
    let reasoning = shown_reasoning(all, shown);
    lemma_reasoning_told(limited, choice.delta.reasoning_content);
    lemma_reasoning_stands(run.state, choices, choice, reasoned);
    lemma_speech_told(reasoned, choice, ids, base);
    lemma_calls_close_quietly(called, 0);
    if choice.finish_reason is Some {
        lemma_quiet(called.events, after.events);
    }
    let begins = beginning(reasoning.len() > 0 && shown_reasoning(choices, shown).len() == 0);
    let ends = ending(reasoning.len() > 0 && has_spoken(all) && !has_spoken(choices), reasoning);
    let message = speaking(all_text(all).len() > 0 && all_text(choices).len() == 0);
    assert(told_with_last(all, shown) == begins + ends + message);
    lemma_logs_join(prior, word_log(run.events), begins, ends, message);
}

proof fn lemma_logs_join(
    prior: Seq<WordsTold>,
    log: Seq<WordsTold>,
    begins: Seq<WordsTold>,
    ends: Seq<WordsTold>,
    message: Seq<WordsTold>,
)
    ensures
        prior + (log + begins + ends + message) == (prior + log) + (begins + ends + message),
{
    assert(prior + (log + begins + ends + message) =~= (prior + log) + (begins + ends + message));
}

/// What a converter holds once it has taken the reasoning of a choice.
proof fn lemma_reasoning_stands(
    state: StreamState,
    choices: Seq<ChatChoiceStream>,
    choice: ChatChoiceStream,
    reasoned: Emitted,
)
    requires
        words_stand(state, choices),
        exists|run: Emitted|
            {
                &&& run.state == state
                &&& reasoned == on_reasoning(
                    #[trigger] with_limit(run, choice),
                    choice.delta.reasoning_content,
                )
            },
    ensures
        ({
            let all = choices.push(choice);
            let reasoning = shown_reasoning(all, summary_asked(state.params));
            &&& reasoned.state.reasoning == reasoning
            &&& reasoned.state.reasoning_started == (reasoning.len() > 0)
            &&& reasoned.state.reasoning_done == has_spoken(choices)
            &&& reasoned.state.message_started == (all_text(choices).len() > 0)
            &&& has_spoken(all) == (has_spoken(choices) || text_in(choice).len() > 0 || pieces_in(
                choice,
            ).len() > 0)
            &&& all_text(all).len() == all_text(choices).len() + text_in(choice).len()
        }),
{
    let all = choices.push(choice);
    let shown = summary_asked(state.params);
    assert(all.drop_last() =~= choices);
    assert(state.params.wants_summary() == shown);
    assert(reasoned.state.reasoning =~= shown_reasoning(all, shown));
}

proof fn lemma_choices_told(
    prior: Seq<WordsTold>,
    run: Emitted,
    before: Seq<ChatChoiceStream>,
    choices: Seq<ChatChoiceStream>,
    from: int,
    ids: Seq<Seq<char>>,
    base: nat,
)
    requires
        0 <= from <= choices.len(),
        calls_stand(run.state, all_pieces(before + choices.take(from))),
        words_stand(run.state, before + choices.take(from)),
        prior + word_log(run.events) == to_log(
            before + choices.take(from),
            summary_asked(run.state.params),
        ),
    ensures
        prior + word_log(on_choices(run, choices, from, ids, base).events) == to_log(
            before + choices,
            summary_asked(run.state.params),
        ),
    decreases choices.len() - from,
{
    if from < choices.len() {
        let next = on_choice(run, choices[from], ids, base);
        lemma_choice_stands(run, before + choices.take(from), choices[from], ids, base);
        lemma_choice_told(prior, run, before + choices.take(from), choices[from], ids, base);
        assert((before + choices.take(from)).push(choices[from]) =~= before + choices.take(
            from + 1,
        ));
        lemma_choices_told(prior, next, before, choices, from + 1, ids, base);
    } else {
        assert(choices.take(from) =~= choices);
    }
}

proof fn lemma_told_on(
    first: Seq<ResponseStreamEventView>,
    second: Seq<ResponseStreamEventView>,
)
    ensures
        word_log(first + second) == word_log(first) + word_log(second),
    decreases second.len(),
{
    if second.len() > 0 {
        lemma_told_on(first, second.drop_last());
        assert((first + second).drop_last() =~= first + second.drop_last());
        assert((first + second).last() == second.last());
        assert(word_log(first + second) =~= word_log(first) + word_log(second));
    } else {
        assert(first + second =~= first);
        assert(word_log(first) + word_log(second) =~= word_log(first));
    }
}

/// A stream tells of its message and its reasoning when they begin and when they end, once each:
/// reasoning that is shown begins with the first of it and is complete with the first text or
/// call, with all of it that came before; the message begins with the first text. Both begin
/// empty and in progress.
pub proof fn law_words_begin_and_end_as_they_came(
    state: StreamState,
    turns: Seq<Turn>,
    started: u64,
)
    requires
        is_fresh(state),
    ensures
        word_log(stream_so_far(state, turns, started).events) == to_log(
            choices_of(turns),
            summary_asked(state.params),
        ),
    decreases turns.len(),
{
    let sent = stream_so_far(state, turns, started);
    if turns.len() > 0 {
        let rest = turns.drop_last();
        let turn = turns.last();
        let before = stream_so_far(state, rest, started);
        let choices = turn.chunk.inner.choices@;
        let prior = word_log(before.events);
        let run = Emitted { state: with_counts(before.state, turn.chunk), events: seq![] };
        let chunk = after_chunk(before.state, turn.chunk, turn.ids);
        law_words_begin_and_end_as_they_came(state, rest, started);
        lemma_stream_stands(state, rest, started);
        assert(prior + word_log(run.events) =~= prior);
        assert(choices.take(0) =~= Seq::empty());
        assert(choices_of(rest) + choices.take(0) =~= choices_of(rest));
        lemma_choices_told(
            prior,
            run,
            choices_of(rest),
            choices,
            0,
            turn.ids,
            before.state.calls.len(),
        );
        lemma_told_on(before.events, chunk.events);
    } else {
        assert(adds_quietly(seq![], sent.events));
        lemma_quiet(seq![], sent.events);
    }
}

/// The end of a stream ends what is open: reasoning that nothing followed, which ends in an
/// ellipsis where the token limit cut it off, and then the message, with all of its text. Both
/// are incomplete where the token limit cut a choice off.
pub proof fn law_ends_end_the_words(
    state: StreamState,
    turns: Seq<Turn>,
    started: u64,
    ended: u64,
)
    requires
        is_fresh(state),
    ensures
        ({
            let choices = choices_of(turns);
            let shown = summary_asked(state.params);
            let reasoning = shown_reasoning(choices, shown);
            let status = status_after(choices);
            let last: Seq<WordsTold> = if reasoning.len() > 0 && !has_spoken(choices) {
                seq![
                    WordsTold::ReasoningEnds {
                        text: if was_cut(choices) {
                            reasoning + "..."@
                        } else {
                            reasoning
                        },
                        status: Some(status),
                    },
                ]
            } else {
                seq![]
            };
            let message: Seq<WordsTold> = if all_text(choices).len() > 0 {
                seq![WordsTold::MessageEnds { text: all_text(choices), status }]
            } else {
                seq![]
            };
            word_log(whole_stream(state, turns, started, ended).events) == to_log(choices, shown)
                + last + message
        }),
{
    let sent = stream_so_far(state, turns, started);
    let status = sent.state.output_status();
    let run = Emitted { state: sent.state, events: seq![] };
    let reasoned = close_reasoning(run, status);
    let messaged = close_message(reasoned);
    let closed = close_calls(messaged, 0);
    let end = after_end(sent.state, ended);
    law_words_begin_and_end_as_they_came(state, turns, started);
    lemma_stream_stands(state, turns, started);
    lemma_reasoning_ends(run, status);
    lemma_message_ends(reasoned);
    lemma_calls_close_quietly(messaged, 0);
    lemma_quiet(messaged.events, closed.events);
    assert(adds_quietly(closed.events, end.events));
    lemma_quiet(closed.events, end.events);
    lemma_told_on(sent.events, end.events);
    let log = word_log(sent.events);
    let none = Seq::<WordsTold>::empty();
    assert(word_log(run.events) == none);
    assert(none + (word_log(reasoned.events)) =~= word_log(reasoned.events));
    lemma_ends_join(log, word_log(reasoned.events), word_log(messaged.events));
}

proof fn lemma_ends_join(log: Seq<WordsTold>, last: Seq<WordsTold>, all: Seq<WordsTold>)
    ensures
        forall|message: Seq<WordsTold>|
            all == last + message ==> log + all == #[trigger] (log + last + message),
{
    assert forall|message: Seq<WordsTold>| all == last + message implies log + all
        == #[trigger] (log + last + message) by {
        assert(log + (last + message) =~= log + last + message);
    }
}

/// A stream starts with two events: the response was created, and it is in progress. Both carry
/// the response, without any output, when it was created.
pub proof fn law_streams_start_in_progress(state: StreamState, started: u64)
    ensures
        ({
            let events = after_start(state, started).events;
            &&& events.len() == 2
            &&& events[0].payload matches ResponseEventPayloadView::ResponseCreated { response }
                && is_start(response, state)
            &&& events[1].payload matches ResponseEventPayloadView::ResponseInProgress { response }
                && is_start(response, state)
        }),
{
}

/// Whether a response is that of a stream that has sent nothing.
pub open spec fn is_start(response: ResponseView, state: StreamState) -> bool {
    &&& response.id == state.response_id
    &&& response.model == state.model
    &&& response.created_at == state.created_at
    &&& response.status == Status::InProgress
    &&& response.output.len() == 0
    &&& response.completed_at is None
    &&& response.incomplete_details is None
    &&& response.error is None
}

} // verus!
