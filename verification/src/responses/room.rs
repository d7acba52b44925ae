//! Whether the counters of a response stream are sure to stay within their machine types.

use vstd::prelude::*;

use crate::chat::{ChatChoiceStream, NvCreateChatCompletionStreamResponse};

verus! {

/// The most calls for which there is room: every call, the message and the reasoning have an
/// output index.
pub const CALL_LIMIT: u32 = 0xffff_fffd;

/// Whether every call index of a choice is below `limit`.
pub open spec fn choice_below(choice: ChatChoiceStream, limit: nat) -> bool {
    choice.delta.tool_calls matches Some(chunks) ==> forall|k: int|
        0 <= k < chunks@.len() ==> (#[trigger] chunks@[k]).index < limit
}

/// The most events that a choice can cause with at most `limit` calls.
pub open spec fn choice_cost(choice: ChatChoiceStream, limit: nat) -> nat {
    14 + 2 * limit + 2 * (match choice.delta.tool_calls {
        Some(chunks) => chunks@.len(),
        None => 0,
    })
}

/// The most events that the choices from position `from` on can cause.
pub open spec fn choices_cost(choices: Seq<ChatChoiceStream>, from: int, limit: nat) -> nat
    decreases choices.len() - from,
{
    if from < 0 || from >= choices.len() {
        0
    } else {
        choice_cost(choices[from], limit) + choices_cost(choices, from + 1, limit)
    }
}

/// Whether the call indices and the events of a chunk stay well below the machine limits.
pub open spec fn has_room(
    sequence_number: nat,
    calls: nat,
    chunk: NvCreateChatCompletionStreamResponse,
) -> bool {
    &&& calls <= CALL_LIMIT
    &&& forall|c: int|
        0 <= c < chunk.inner.choices@.len() ==> choice_below(
            #[trigger] chunk.inner.choices@[c],
            CALL_LIMIT as nat,
        )
    &&& sequence_number + choices_cost(chunk.inner.choices@, 0, CALL_LIMIT as nat) <= u64::MAX
}

proof fn lemma_choices_cost_falls(choices: Seq<ChatChoiceStream>, at: int, limit: nat)
    requires
        0 <= at,
    ensures
        choices_cost(choices, at, limit) <= choices_cost(choices, 0, limit),
    decreases at,
{
    if at > 0 {
        lemma_choices_cost_falls(choices, at - 1, limit);
    }
}

/// The most events that a choice can cause; nothing where one of its calls is out of range.
fn cost_of_choice(choice: &ChatChoiceStream) -> (cost: Option<u128>)
    ensures
        cost is Some <==> choice_below(*choice, CALL_LIMIT as nat),
        cost matches Some(n) ==> n == choice_cost(*choice, CALL_LIMIT as nat) && n < 0x10_0000_0000_0000_0000,
{
    let mut pieces: u128 = 0;
    if let Some(chunks) = &choice.delta.tool_calls {
        pieces = chunks.len() as u128;
        for k in 0..chunks.len()
            invariant
                choice.delta.tool_calls == Some(*chunks),
                forall|m: int| 0 <= m < k ==> (#[trigger] chunks@[m]).index < CALL_LIMIT,
        {
            if chunks[k].index >= CALL_LIMIT {
                return None;
            }
        }
    }
    Some(14 + 2 * (CALL_LIMIT as u128) + 2 * pieces)
}

/// Whether the call indices and the events of a chunk stay well below the machine limits.
pub fn chunk_has_room(
    sequence_number: u64,
    calls: usize,
    chunk: &NvCreateChatCompletionStreamResponse,
) -> (room: bool)
    ensures
        room == has_room(sequence_number as nat, calls as nat, *chunk),
{
    if calls > CALL_LIMIT as usize {
        return false;
    }
    let ghost choices = chunk.inner.choices@;
    let mut cost: u128 = 0;
    let mut c: usize = chunk.inner.choices.len();
    while c > 0
        invariant
            choices == chunk.inner.choices@,
            c <= choices.len(),
            cost <= u64::MAX,
            cost == choices_cost(choices, c as int, CALL_LIMIT as nat),
            forall|d: int|
                c <= d < choices.len() ==> choice_below(
                    #[trigger] choices[d],
                    CALL_LIMIT as nat,
                ),
        decreases c,
    {
        c -= 1;
        match cost_of_choice(&chunk.inner.choices[c]) {
            Some(more) => {
                cost = cost + more;
            },
            None => {
                assert(!choice_below(choices[c as int], CALL_LIMIT as nat));
                return false;
            },
        }
        proof {
            lemma_choices_cost_falls(choices, c as int, CALL_LIMIT as nat);
        }
        if cost > u64::MAX as u128 {
            return false;
        }
    }
    cost <= (u64::MAX - sequence_number) as u128
}

} // verus!
