//! Small projections of the Responses wire format.

use vstd::prelude::*;
use vstd::string::*;

use crate::json::{Json, JsonModel};
use crate::llm::error::{
    allowed_code, allowlisted_provider_code, protocol_error, provider_failure, GatewayError,
    GatewayErrorModel,
};
use crate::llm::model::{saturating_sum, Usage, UsageProvenance};
use crate::text::{decimal, decimal_digits, join, join_texts, joined, same_text, starts_with};

verus! {

broadcast use crate::deep::group_models;

/// The kind of an output item.
#[derive(Clone, Copy, Debug, PartialEq, Eq, Structural)]
pub enum OutputKind {
    Message,
    Reasoning,
    FunctionCall,
    Unsupported,
}

impl DeepView for OutputKind {
    type V = OutputKind;

    open spec fn deep_view(&self) -> OutputKind {
        *self
    }
}

/// The type of a stream event, as far as the adapter tells events apart.
#[derive(Clone, Copy, Debug, PartialEq, Eq, Structural)]
pub enum EventKind {
    Created,
    InProgress,
    ItemAdded,
    TextDelta,
    TextDone,
    RefusalDone,
    ReasoningDelta,
    ReasoningDone,
    SummaryPartDone,
    ArgumentsDelta,
    ArgumentsDone,
    ItemDone,
    ContentPart,
    Completed,
    Incomplete,
    Failed,
    Lifecycle,
    Unknown,
}

/// Event types that speak of one output item.
pub open spec fn needs_output_index(event: Seq<char>) -> bool {
    ||| event == "response.output_item.added"@
    ||| event == "response.output_item.done"@
    ||| event == "response.output_text.delta"@
    ||| event == "response.output_text.done"@
    ||| event == "response.refusal.delta"@
    ||| event == "response.refusal.done"@
    ||| event == "response.reasoning_summary_text.delta"@
    ||| event == "response.reasoning_summary_text.done"@
    ||| event == "response.reasoning_summary_part.added"@
    ||| event == "response.reasoning_summary_part.done"@
    ||| event == "response.reasoning_text.delta"@
    ||| event == "response.reasoning_text.done"@
    ||| event == "response.function_call_arguments.delta"@
    ||| event == "response.function_call_arguments.done"@
    ||| event == "response.content_part.added"@
    ||| event == "response.content_part.done"@
}

/// Event types that change the structure of the output. An unknown one must not be skipped.
pub open spec fn is_structural(event: Seq<char>) -> bool {
    ||| "response.output_"@.is_prefix_of(event)
    ||| "response.reasoning_"@.is_prefix_of(event)
    ||| "response.refusal."@.is_prefix_of(event)
    ||| "response.function_call_"@.is_prefix_of(event)
    ||| "response.content_part."@.is_prefix_of(event)
    ||| "response.custom_tool_call_"@.is_prefix_of(event)
    ||| "response.image_generation_"@.is_prefix_of(event)
    ||| "response.code_interpreter_"@.is_prefix_of(event)
    ||| "response.file_search_"@.is_prefix_of(event)
    ||| "response.web_search_"@.is_prefix_of(event)
    ||| "response.mcp_"@.is_prefix_of(event)
}

/// The kind of an event type. Unknown lifecycle events that leave the output alone are allowed
/// for; any other unknown event is not.
pub open spec fn event_kind(event: Seq<char>) -> EventKind {
    if event == "response.created"@ {
        EventKind::Created
    } else if event == "response.in_progress"@ {
        EventKind::InProgress
    } else if event == "response.output_item.added"@ {
        EventKind::ItemAdded
    } else if event == "response.output_text.delta"@ || event == "response.refusal.delta"@ {
        EventKind::TextDelta
    } else if event == "response.output_text.done"@ {
        EventKind::TextDone
    } else if event == "response.refusal.done"@ {
        EventKind::RefusalDone
    } else if event == "response.reasoning_summary_text.delta"@ || event
        == "response.reasoning_text.delta"@ {
        EventKind::ReasoningDelta
    } else if event == "response.reasoning_summary_text.done"@ || event
        == "response.reasoning_text.done"@ || event == "response.reasoning_summary_part.added"@ {
        EventKind::ReasoningDone
    } else if event == "response.reasoning_summary_part.done"@ {
        EventKind::SummaryPartDone
    } else if event == "response.function_call_arguments.delta"@ {
        EventKind::ArgumentsDelta
    } else if event == "response.function_call_arguments.done"@ {
        EventKind::ArgumentsDone
    } else if event == "response.output_item.done"@ {
        EventKind::ItemDone
    } else if event == "response.content_part.added"@ || event == "response.content_part.done"@ {
        EventKind::ContentPart
    } else if event == "response.completed"@ {
        EventKind::Completed
    } else if event == "response.incomplete"@ {
        EventKind::Incomplete
    } else if event == "response.failed"@ || event == "error"@ {
        EventKind::Failed
    } else if "response."@.is_prefix_of(event) && !is_structural(event) {
        EventKind::Lifecycle
    } else {
        EventKind::Unknown
    }
}

pub fn requires_output_index(event_type: &str) -> (yes: bool)
    ensures
        yes == needs_output_index(event_type@),
{
    same_text(event_type, "response.output_item.added")
        || same_text(event_type, "response.output_item.done")
        || same_text(event_type, "response.output_text.delta")
        || same_text(event_type, "response.output_text.done")
        || same_text(event_type, "response.refusal.delta")
        || same_text(event_type, "response.refusal.done")
        || same_text(event_type, "response.reasoning_summary_text.delta")
        || same_text(event_type, "response.reasoning_summary_text.done")
        || same_text(event_type, "response.reasoning_summary_part.added")
        || same_text(event_type, "response.reasoning_summary_part.done")
        || same_text(event_type, "response.reasoning_text.delta")
        || same_text(event_type, "response.reasoning_text.done")
        || same_text(event_type, "response.function_call_arguments.delta")
        || same_text(event_type, "response.function_call_arguments.done")
        || same_text(event_type, "response.content_part.added")
        || same_text(event_type, "response.content_part.done")
}

pub fn is_structural_event(event_type: &str) -> (yes: bool)
    ensures
        yes == is_structural(event_type@),
{
    starts_with(event_type, "response.output_") || starts_with(event_type, "response.reasoning_")
        || starts_with(event_type, "response.refusal.")
        || starts_with(event_type, "response.function_call_")
        || starts_with(event_type, "response.content_part.")
        || starts_with(event_type, "response.custom_tool_call_")
        || starts_with(event_type, "response.image_generation_")
        || starts_with(event_type, "response.code_interpreter_")
        || starts_with(event_type, "response.file_search_")
        || starts_with(event_type, "response.web_search_")
        || starts_with(event_type, "response.mcp_")
}

pub fn kind_of_event(event_type: &str) -> (kind: EventKind)
    ensures
        kind == event_kind(event_type@),
{
    if same_text(event_type, "response.created") {
        EventKind::Created
    } else if same_text(event_type, "response.in_progress") {
        EventKind::InProgress
    } else if same_text(event_type, "response.output_item.added") {
        EventKind::ItemAdded
    } else if same_text(event_type, "response.output_text.delta") || same_text(
        event_type,
        "response.refusal.delta",
    ) {
        EventKind::TextDelta
    } else if same_text(event_type, "response.output_text.done") {
        EventKind::TextDone
    } else if same_text(event_type, "response.refusal.done") {
        EventKind::RefusalDone
    } else if same_text(event_type, "response.reasoning_summary_text.delta") || same_text(
        event_type,
        "response.reasoning_text.delta",
    ) {
        EventKind::ReasoningDelta
    } else if same_text(event_type, "response.reasoning_summary_text.done") || same_text(
        event_type,
        "response.reasoning_text.done",
    ) || same_text(event_type, "response.reasoning_summary_part.added") {
        EventKind::ReasoningDone
    } else if same_text(event_type, "response.reasoning_summary_part.done") {
        EventKind::SummaryPartDone
    } else if same_text(event_type, "response.function_call_arguments.delta") {
        EventKind::ArgumentsDelta
    } else if same_text(event_type, "response.function_call_arguments.done") {
        EventKind::ArgumentsDone
    } else if same_text(event_type, "response.output_item.done") {
        EventKind::ItemDone
    } else if same_text(event_type, "response.content_part.added") || same_text(
        event_type,
        "response.content_part.done",
    ) {
        EventKind::ContentPart
    } else if same_text(event_type, "response.completed") {
        EventKind::Completed
    } else if same_text(event_type, "response.incomplete") {
        EventKind::Incomplete
    } else if same_text(event_type, "response.failed") || same_text(event_type, "error") {
        EventKind::Failed
    } else if starts_with(event_type, "response.") && !is_structural_event(event_type) {
        EventKind::Lifecycle
    } else {
        EventKind::Unknown
    }
}

pub open spec fn count_or_zero(count: Option<u64>) -> u64 {
    match count {
        Some(n) => n,
        None => 0,
    }
}

/// The first count less the second, or nothing where it is smaller.
pub open spec fn saturating_difference(a: u64, b: u64) -> u64 {
    if a >= b {
        (a - b) as u64
    } else {
        0
    }
}

/// The usage in a Responses object. Input that was served from or written to a cache is counted
/// apart from the rest of the input.
#[verifier::opaque]
pub open spec fn responses_usage(value: JsonModel) -> Usage {
    let total_input = count_or_zero(value.u64_at("input_tokens"@));
    let output = count_or_zero(value.u64_at("output_tokens"@));
    let cache_read = count_or_zero(value.u64_at2("input_tokens_details"@, "cached_tokens"@));
    let cache_write = count_or_zero(value.u64_at2("input_tokens_details"@, "cache_write_tokens"@));
    Usage {
        provenance: UsageProvenance::Reported,
        input_tokens: saturating_difference(total_input, saturating_sum(cache_read, cache_write)),
        cache_read_tokens: cache_read,
        cache_write_tokens: cache_write,
        output_tokens: output,
        reasoning_tokens: count_or_zero(
            value.u64_at2("output_tokens_details"@, "reasoning_tokens"@),
        ),
        total_tokens: match value.u64_at("total_tokens"@) {
            Some(n) => n,
            None => saturating_sum(total_input, output),
        },
    }
}

pub fn parse_responses_usage(value: &Json) -> (usage: Usage)
    ensures
        usage == responses_usage(value.deep_view()),
{
    reveal(responses_usage);
    let total_input = value.u64_at("input_tokens").unwrap_or(0);
    let output = value.u64_at("output_tokens").unwrap_or(0);
    let cache_read = value.u64_at2("input_tokens_details", "cached_tokens").unwrap_or(0);
    let cache_write = value.u64_at2("input_tokens_details", "cache_write_tokens").unwrap_or(0);
    Usage {
        provenance: UsageProvenance::Reported,
        input_tokens: total_input.saturating_sub(cache_read.saturating_add(cache_write)),
        cache_read_tokens: cache_read,
        cache_write_tokens: cache_write,
        output_tokens: output,
        reasoning_tokens: value.u64_at2("output_tokens_details", "reasoning_tokens").unwrap_or(0),
        total_tokens: value.u64_at("total_tokens").unwrap_or(total_input.saturating_add(output)),
    }
}

/// The error object of a failure event.
pub open spec fn failure_object(value: JsonModel) -> JsonModel {
    match value.get2("response"@, "error"@) {
        Some(error) => error,
        None => match value.get("error"@) {
            Some(error) => error,
            None => value,
        },
    }
}

pub open spec fn failure_of(value: JsonModel) -> GatewayErrorModel {
    provider_failure("provider response failed"@, allowed_code(failure_object(value).get("code"@)))
}

pub fn response_failure(value: &Json) -> (error: GatewayError)
    ensures
        error.deep_view() == failure_of(value.deep_view()),
{
    let object = match value.get2("response", "error") {
        Some(error) => error,
        None => match value.get("error") {
            Some(error) => error,
            None => value,
        },
    };
    GatewayError::provider("provider response failed", allowlisted_provider_code(object.get("code")))
}

pub fn required_string<'a>(value: &'a Json, field: &str, error: &str) -> (result: Result<
    &'a str,
    GatewayError,
>)
    ensures
        match result {
            Ok(text) => value.deep_view().str_at(field@) == Some(text@),
            Err(failure) => value.deep_view().str_at(field@) is None && failure.deep_view()
                == protocol_error(error@),
        },
{
    match value.str_at(field) {
        Some(text) => Ok(text),
        None => Err(GatewayError::protocol(error)),
    }
}

pub open spec fn item_kind(item: JsonModel) -> OutputKind {
    if item.str_at("type"@) == Some("message"@) {
        OutputKind::Message
    } else if item.str_at("type"@) == Some("reasoning"@) {
        OutputKind::Reasoning
    } else if item.str_at("type"@) == Some("function_call"@) {
        OutputKind::FunctionCall
    } else {
        OutputKind::Unsupported
    }
}

pub fn output_kind(item: &Json) -> (kind: OutputKind)
    ensures
        kind == item_kind(item.deep_view()),
{
    match item.str_at("type") {
        Some(name) => if same_text(name, "message") {
            OutputKind::Message
        } else if same_text(name, "reasoning") {
            OutputKind::Reasoning
        } else if same_text(name, "function_call") {
            OutputKind::FunctionCall
        } else {
            OutputKind::Unsupported
        },
        None => OutputKind::Unsupported,
    }
}

/// The string members `field` of the parts that have one, in order.
pub open spec fn text_fields(parts: Seq<JsonModel>, field: Seq<char>) -> Seq<Seq<char>>
    decreases parts.len(),
{
    if parts.len() == 0 {
        Seq::empty()
    } else {
        let before = text_fields(parts.drop_last(), field);
        match parts.last().str_at(field) {
            Some(text) => before.push(text),
            None => before,
        }
    }
}

pub fn collect_text_fields(parts: &Vec<Json>, field: &str, separator: &str) -> (text: String)
    ensures
        text@ == join_texts(text_fields(parts.deep_view(), field@), separator@),
{
    let mut texts: Vec<String> = Vec::new();
    let mut i: usize = 0;
    while i < parts.len()
        invariant
            i <= parts.len(),
            texts.deep_view() == text_fields(parts.deep_view().take(i as int), field@),
        decreases parts.len() - i,
    {
        proof {
            let next = parts.deep_view().take(i + 1);
            assert(next.drop_last() =~= parts.deep_view().take(i as int));
            assert(next.last() == parts@[i as int].deep_view());
        }
        match parts[i].str_at(field) {
            Some(text) => {
                texts.push(text.to_owned());
            },
            None => {},
        }
        i += 1;
    }
    proof {
        assert(parts.deep_view().take(i as int) =~= parts.deep_view());
    }
    join(&texts, separator)
}

/// The output item that an event speaks of.
pub open spec fn index_of(value: JsonModel) -> usize {
    count_or_zero(value.u64_at("output_index"@)) as usize
}

pub fn output_index(value: &Json) -> (index: usize)
    ensures
        index == index_of(value.deep_view()),
{
    value.u64_at("output_index").unwrap_or(0) as usize
}

/// The string member `key`, or the empty string.
pub open spec fn string_or_empty(value: JsonModel, key: Seq<char>) -> Seq<char> {
    match value.str_at(key) {
        Some(text) => text,
        None => Seq::empty(),
    }
}

pub fn field_string(value: &Json, key: &str) -> (text: String)
    ensures
        text@ == string_or_empty(value.deep_view(), key@),
{
    match value.str_at(key) {
        Some(text) => text.to_owned(),
        None => String::new(),
    }
}

/// The text unless it is empty.
pub open spec fn unless_empty(text: Seq<char>) -> Option<Seq<char>> {
    if text.len() == 0 {
        None
    } else {
        Some(text)
    }
}

pub fn nonempty(value: String) -> (result: Option<String>)
    ensures
        result.deep_view() == unless_empty(value@),
{
    if value.as_str().is_empty() {
        None
    } else {
        Some(value)
    }
}

/// The identifier of a call: the provider's, or one made from its output index.
pub open spec fn call_name(call_id: Seq<char>, index: usize) -> Seq<char> {
    if call_id.len() == 0 {
        "call-"@ + decimal_digits(index as nat)
    } else {
        call_id
    }
}

pub fn call_id(id: &str, index: usize) -> (text: String)
    ensures
        text@ == call_name(id@, index),
{
    if id.is_empty() {
        joined("call-", decimal(index as u64).as_str())
    } else {
        id.to_owned()
    }
}

} // verus!
