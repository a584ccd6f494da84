//! The kinds of upstream events, and what each of them does.

use crate::json::JsonModel;
use crate::model::{State, Step};
use crate::upstream::{event_kind, event_verdict, VerdictModel};
use vstd::prelude::*;

verus! {

/// A number for each kind of event that does something, and one for the rest.
spec fn kind_number(kind: Seq<char>) -> nat {
    if kind.len() == 26 {
        if kind[16] == 'i' {
            100
        } else {
            101
        }
    } else if kind.len() == 37 {
        if kind[9] == 'r' {
            if kind[27] == 'p' {
                102
            } else {
                103
            }
        } else if kind[9] == 'o' {
            104
        } else {
            105
        }
    } else {
        kind.len()
    }
}

proof fn lemma_kind_numbers()
    ensures
        kind_number("error"@) == 5,
        kind_number("response.failed"@) == 15,
        kind_number("keepalive"@) == 9,
        kind_number("response.done"@) == 13,
        kind_number("response.created"@) == 16,
        kind_number("codex.rate_limits"@) == 17,
        kind_number("response.completed"@) == 18,
        kind_number("response.incomplete"@) == 19,
        kind_number("response.in_progress"@) == 20,
        kind_number("response.output_item.done"@) == 25,
        kind_number("response.function_call_arguments.delta"@) == 38,
        kind_number("response.output_item.added"@) == 100,
        kind_number("response.output_text.delta"@) == 101,
        kind_number("response.reasoning_summary_part.added"@) == 102,
        kind_number("response.reasoning_summary_text.delta"@) == 103,
        kind_number("response.output_text.annotation.added"@) == 104,
        kind_number("response.function_call_arguments.done"@) == 105,
{
    reveal_strlit("error");
    reveal_strlit("response.failed");
    reveal_strlit("keepalive");
    reveal_strlit("response.done");
    reveal_strlit("response.created");
    reveal_strlit("codex.rate_limits");
    reveal_strlit("response.completed");
    reveal_strlit("response.incomplete");
    reveal_strlit("response.in_progress");
    reveal_strlit("response.output_item.done");
    reveal_strlit("response.function_call_arguments.delta");
    reveal_strlit("response.output_item.added");
    reveal_strlit("response.output_text.delta");
    reveal_strlit("response.reasoning_summary_part.added");
    reveal_strlit("response.reasoning_summary_text.delta");
    reveal_strlit("response.output_text.annotation.added");
    reveal_strlit("response.function_call_arguments.done");
}

/// Whether an event ends the response.
pub open spec fn is_end(payload: JsonModel) -> bool {
    let kind = event_kind(payload);
    kind == "response.completed"@ || kind == "response.incomplete"@ || kind == "response.done"@
}

/// Whether an event is only a sign of life.
pub open spec fn is_sign_of_life(payload: JsonModel) -> bool {
    let kind = event_kind(payload);
    kind == "codex.rate_limits"@ || kind == "keepalive"@ || kind == "response.created"@ || kind
        == "response.in_progress"@
}

/// An event that brings a piece of a tool call is not a failure.
pub proof fn law_pieces_are_no_failure(payload: JsonModel)
    requires
        event_kind(payload) == "response.function_call_arguments.delta"@,
    ensures
        event_verdict(payload).failure is None,
{
    lemma_kind_numbers();
}

/// The kinds of events are told apart: each does what is its own, and no kind
/// stands in the way of another.
pub proof fn law_kinds_are_told_apart(step: Step, payload: JsonModel, verdict: VerdictModel)
    ensures
        ({
            let kind = event_kind(payload);
            let taken = step.dispatch(payload, verdict);
            &&& is_sign_of_life(payload) ==> taken.step == step.ping()
            &&& is_end(payload) ==> taken.step == step.finish(payload, verdict)
            &&& kind == "response.function_call_arguments.delta"@ ==> taken == step.tool_delta(
                payload,
            )
            &&& kind == "response.output_item.added"@ ==> taken.step == step.output_item_added(
                payload,
            )
            &&& kind == "response.output_item.done"@ ==> taken.step == step.output_item_done(
                payload,
            )
            &&& kind == "response.reasoning_summary_part.added"@ ==> taken.step
                == step.summary_part(payload)
            &&& kind == "response.reasoning_summary_text.delta"@ ==> taken.step
                == step.reasoning_delta(payload)
            &&& kind == "response.output_text.delta"@ ==> taken.step == step.text_delta(payload)
            &&& kind == "response.output_text.annotation.added"@ ==> taken.step == (Step {
                state: step.state.with_citation(payload),
                ..step
            })
            &&& kind == "response.function_call_arguments.done"@ ==> taken.step == (Step {
                state: step.state.with_arguments(payload),
                ..step
            })
            &&& kind != "response.function_call_arguments.delta"@ ==> taken.error is None
        }),
{
    lemma_kind_numbers();
}

/// What an event is answered with that is taken: the message goes on, and the
/// event is not refused.
#[verifier::opaque]
pub open spec fn is_answer(
    state: State,
    payload: JsonModel,
    verdict: VerdictModel,
    taken: Step,
) -> bool {
    &&& !state.finished
    &&& state.accepted(payload, verdict).error is None
    &&& taken == state.accepted(payload, verdict).step
}

/// The answer to an event of one kind.
pub proof fn lemma_answer_to_sign_of_life(
    state: State,
    payload: JsonModel,
    verdict: VerdictModel,
    taken: Step,
)
    requires
        is_answer(state, payload, verdict, taken),
        is_sign_of_life(payload),
    ensures
        taken == state.still().ping(),
        !state.finished,
{
    reveal(is_answer);
    law_kinds_are_told_apart(state.still(), payload, verdict);
}

/// The answer to an event of one kind.
pub proof fn lemma_answer_to_added(
    state: State,
    payload: JsonModel,
    verdict: VerdictModel,
    taken: Step,
)
    requires
        is_answer(state, payload, verdict, taken),
        event_kind(payload) == "response.output_item.added"@,
    ensures
        taken == state.still().output_item_added(payload),
        !state.finished,
{
    reveal(is_answer);
    law_kinds_are_told_apart(state.still(), payload, verdict);
}

/// The answer to an event of one kind.
pub proof fn lemma_answer_to_done(
    state: State,
    payload: JsonModel,
    verdict: VerdictModel,
    taken: Step,
)
    requires
        is_answer(state, payload, verdict, taken),
        event_kind(payload) == "response.output_item.done"@,
    ensures
        taken == state.still().output_item_done(payload),
        !state.finished,
{
    reveal(is_answer);
    law_kinds_are_told_apart(state.still(), payload, verdict);
}

/// The answer to an event of one kind.
pub proof fn lemma_answer_to_part(
    state: State,
    payload: JsonModel,
    verdict: VerdictModel,
    taken: Step,
)
    requires
        is_answer(state, payload, verdict, taken),
        event_kind(payload) == "response.reasoning_summary_part.added"@,
    ensures
        taken == state.still().summary_part(payload),
        !state.finished,
{
    reveal(is_answer);
    law_kinds_are_told_apart(state.still(), payload, verdict);
}

/// The answer to an event of one kind.
pub proof fn lemma_answer_to_thinking(
    state: State,
    payload: JsonModel,
    verdict: VerdictModel,
    taken: Step,
)
    requires
        is_answer(state, payload, verdict, taken),
        event_kind(payload) == "response.reasoning_summary_text.delta"@,
    ensures
        taken == state.still().reasoning_delta(payload),
        !state.finished,
{
    reveal(is_answer);
    law_kinds_are_told_apart(state.still(), payload, verdict);
}

/// The answer to an event of one kind.
pub proof fn lemma_answer_to_text(
    state: State,
    payload: JsonModel,
    verdict: VerdictModel,
    taken: Step,
)
    requires
        is_answer(state, payload, verdict, taken),
        event_kind(payload) == "response.output_text.delta"@,
    ensures
        taken == state.still().text_delta(payload),
        !state.finished,
{
    reveal(is_answer);
    law_kinds_are_told_apart(state.still(), payload, verdict);
}

/// The answer to an event of one kind.
pub proof fn lemma_answer_to_end(
    state: State,
    payload: JsonModel,
    verdict: VerdictModel,
    taken: Step,
)
    requires
        is_answer(state, payload, verdict, taken),
        is_end(payload),
    ensures
        taken == state.still().finish(payload, verdict),
        !state.finished,
{
    reveal(is_answer);
    law_kinds_are_told_apart(state.still(), payload, verdict);
}

/// The answer to an event of one kind.
pub proof fn lemma_answer_to_annotation(
    state: State,
    payload: JsonModel,
    verdict: VerdictModel,
    taken: Step,
)
    requires
        is_answer(state, payload, verdict, taken),
        event_kind(payload) == "response.output_text.annotation.added"@,
    ensures
        taken == state.with_citation(payload).still(),
        !state.finished,
{
    reveal(is_answer);
    law_kinds_are_told_apart(state.still(), payload, verdict);
}

/// The answer to an event of one kind.
pub proof fn lemma_answer_to_arguments(
    state: State,
    payload: JsonModel,
    verdict: VerdictModel,
    taken: Step,
)
    requires
        is_answer(state, payload, verdict, taken),
        event_kind(payload) == "response.function_call_arguments.done"@,
    ensures
        taken == state.with_arguments(payload).still(),
        !state.finished,
{
    reveal(is_answer);
    law_kinds_are_told_apart(state.still(), payload, verdict);
}

/// The answer to an event of one kind.
pub proof fn lemma_answer_to_piece(
    state: State,
    payload: JsonModel,
    verdict: VerdictModel,
    taken: Step,
)
    requires
        is_answer(state, payload, verdict, taken),
        event_kind(payload) == "response.function_call_arguments.delta"@,
    ensures
        taken == state.still().tool_delta(payload).step,
        state.still().tool_delta(payload).error is None,
        !state.finished,
{
    reveal(is_answer);
    law_kinds_are_told_apart(state.still(), payload, verdict);
}

} // verus!
