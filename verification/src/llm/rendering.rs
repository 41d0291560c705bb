//! How an outcome is rendered for logs: everything but what was said.

use vstd::prelude::*;
use vstd::string::*;

use crate::llm::error::{error_text, option_name, option_text, quoted, quoted_text};
use crate::llm::event::{
    FinishReason, FinishReasonModel, GenerationOutcome, GenerationOutcomeModel, OutcomeStatus,
};
use crate::llm::model::{Usage, UsageProvenance};
use crate::llm::protocol::Protocol;
use crate::text::{
    decimal, decimal_digits, ends_give_their_value, gives, joined, longer_texts_give_the_same,
};

verus! {

/// What the `Debug` impl of `std::time::Duration` writes for so many nanoseconds.
pub uninterp spec fn duration_notation(nanoseconds: u64) -> Seq<char>;

/// `Debug` of `std::time::Duration`, through `format!`. The result depends on the number of
/// nanoseconds alone.
#[verifier::external_body]
fn duration_text(nanoseconds: u64) -> (text: String)
    ensures
        text@ == duration_notation(nanoseconds),
{
    format!("{:?}", std::time::Duration::from_nanos(nanoseconds))
}

pub open spec fn protocol_name(protocol: Protocol) -> Seq<char> {
    match protocol {
        Protocol::ChatCompletions => "ChatCompletions"@,
        Protocol::Responses => "Responses"@,
    }
}

pub open spec fn status_name(status: OutcomeStatus) -> Seq<char> {
    match status {
        OutcomeStatus::Completed => "Completed"@,
        OutcomeStatus::Failed => "Failed"@,
        OutcomeStatus::Cancelled => "Cancelled"@,
    }
}

pub open spec fn reason_name(reason: Option<FinishReasonModel>) -> Seq<char> {
    match reason {
        None => "None"@,
        Some(reason) => match reason {
            FinishReasonModel::Stop => "Some(Stop)"@,
            FinishReasonModel::Length => "Some(Length)"@,
            FinishReasonModel::ToolCalls => "Some(ToolCalls)"@,
            FinishReasonModel::ContentFilter => "Some(ContentFilter)"@,
            FinishReasonModel::Incomplete(text) => "Some(Incomplete("@ + quoted_text(text)
                + "))"@,
            FinishReasonModel::Other(text) => "Some(Other("@ + quoted_text(text) + "))"@,
        },
    }
}

pub open spec fn provenance_name(provenance: UsageProvenance) -> Seq<char> {
    match provenance {
        UsageProvenance::Reported => "Reported"@,
        UsageProvenance::Estimated => "Estimated"@,
        UsageProvenance::Unavailable => "Unavailable"@,
    }
}

pub open spec fn usage_text(usage: Usage) -> Seq<char> {
    "Usage { provenance: "@ + provenance_name(usage.provenance) + ", input_tokens: "@
        + decimal_digits(usage.input_tokens as nat) + ", cache_read_tokens: "@ + decimal_digits(
        usage.cache_read_tokens as nat,
    ) + ", cache_write_tokens: "@ + decimal_digits(usage.cache_write_tokens as nat)
        + ", output_tokens: "@ + decimal_digits(usage.output_tokens as nat)
        + ", reasoning_tokens: "@ + decimal_digits(usage.reasoning_tokens as nat)
        + ", total_tokens: "@ + decimal_digits(usage.total_tokens as nat) + " }"@
}

pub open spec fn time_name(time: Option<u64>) -> Seq<char> {
    match time {
        Some(time) => "Some("@ + duration_notation(time) + ")"@,
        None => "None"@,
    }
}

/// The rendering of an outcome. Of the message it tells only whether there is one.
pub open spec fn outcome_text(outcome: GenerationOutcomeModel) -> Seq<char> {
    "GenerationOutcome { request_id: "@ + quoted_text(outcome.request_id) + ", profile_id: "@
        + quoted_text(outcome.profile_id) + ", model_id: "@ + quoted_text(outcome.model_id)
        + ", protocol: "@ + protocol_name(outcome.protocol) + ", status: "@ + status_name(
        outcome.status,
    ) + ", finish_reason: "@ + reason_name(outcome.finish_reason) + ", usage: "@ + usage_text(
        outcome.usage,
    ) + ", response_id: "@ + option_name(outcome.response_id) + ", upstream_model: "@
        + option_name(outcome.upstream_model) + ", time_to_first_event: "@ + time_name(
        outcome.time_to_first_event,
    ) + ", latency: "@ + duration_notation(outcome.latency) + (match outcome.message {
        Some(_) => ", message: Some(\"[REDACTED]\")"@,
        None => ", message: None"@,
    }) + (match outcome.error {
        Some(error) => ", error: Some("@ + error_text(error) + ") }"@,
        None => ", error: None }"@,
    })
}

/// What was said never shows: outcomes that differ in their messages alone are rendered alike.
pub proof fn renderings_hide_the_message(a: GenerationOutcomeModel, b: GenerationOutcomeModel)
    requires
        a.message is Some,
        b.message is Some,
        b == (GenerationOutcomeModel { message: b.message, ..a }),
    ensures
        outcome_text(a) == outcome_text(b),
{
}

fn reason_text(reason: &Option<FinishReason>) -> (text: String)
    ensures
        text@ == reason_name(reason.deep_view()),
{
    match reason {
        None => "None".to_owned(),
        Some(FinishReason::Stop) => "Some(Stop)".to_owned(),
        Some(FinishReason::Length) => "Some(Length)".to_owned(),
        Some(FinishReason::ToolCalls) => "Some(ToolCalls)".to_owned(),
        Some(FinishReason::ContentFilter) => "Some(ContentFilter)".to_owned(),
        Some(FinishReason::Incomplete(reason)) => {
            let mut text = joined("Some(Incomplete(", quoted(reason.as_str()).as_str());
            text.append("))");
            text
        },
        Some(FinishReason::Other(reason)) => {
            let mut text = joined("Some(Other(", quoted(reason.as_str()).as_str());
            text.append("))");
            text
        },
    }
}

impl Usage {
    /// A rendering for logs.
    pub fn debug_text(&self) -> (text: String)
        ensures
            text@ == usage_text(*self),
    {
        let provenance = match self.provenance {
            UsageProvenance::Reported => "Reported",
            UsageProvenance::Estimated => "Estimated",
            UsageProvenance::Unavailable => "Unavailable",
        };
        let mut text = joined("Usage { provenance: ", provenance);
        text.append(", input_tokens: ");
        text.append(decimal(self.input_tokens).as_str());
        text.append(", cache_read_tokens: ");
        text.append(decimal(self.cache_read_tokens).as_str());
        text.append(", cache_write_tokens: ");
        text.append(decimal(self.cache_write_tokens).as_str());
        text.append(", output_tokens: ");
        text.append(decimal(self.output_tokens).as_str());
        text.append(", reasoning_tokens: ");
        text.append(decimal(self.reasoning_tokens).as_str());
        text.append(", total_tokens: ");
        text.append(decimal(self.total_tokens).as_str());
        text.append(" }");
        text
    }
}

impl GenerationOutcome {
    /// A rendering for logs: what was said stays hidden.
    pub fn debug_text(&self) -> (text: String)
        ensures
            text@ == outcome_text(self.deep_view()),
    {
        let mut text = joined(
            "GenerationOutcome { request_id: ",
            quoted(self.request_id.as_str()).as_str(),
        );
        text.append(", profile_id: ");
        text.append(quoted(self.profile_id.as_str()).as_str());
        text.append(", model_id: ");
        text.append(quoted(self.model_id.as_str()).as_str());
        text.append(", protocol: ");
        text.append(
            match self.protocol {
                Protocol::ChatCompletions => "ChatCompletions",
                Protocol::Responses => "Responses",
            },
        );
        text.append(", status: ");
        text.append(
            match self.status {
                OutcomeStatus::Completed => "Completed",
                OutcomeStatus::Failed => "Failed",
                OutcomeStatus::Cancelled => "Cancelled",
            },
        );
        text.append(", finish_reason: ");
        text.append(reason_text(&self.finish_reason).as_str());
        text.append(", usage: ");
        text.append(self.usage.debug_text().as_str());
        text.append(", response_id: ");
        text.append(option_text(&self.response_id).as_str());
        text.append(", upstream_model: ");
        text.append(option_text(&self.upstream_model).as_str());
        text.append(", time_to_first_event: ");
        match self.time_to_first_event {
            Some(time) => {
                let mut inner = joined("Some(", duration_text(time).as_str());
                inner.append(")");
                text.append(inner.as_str());
            },
            None => {
                text.append("None");
            },
        }
        text.append(", latency: ");
        text.append(duration_text(self.latency).as_str());
        match &self.message {
            Some(_) => {
                text.append(", message: Some(\"[REDACTED]\")");
            },
            None => {
                text.append(", message: None");
            },
        }
        match &self.error {
            Some(error) => {
                let mut inner = joined(", error: Some(", error.debug_text().as_str());
                inner.append(") }");
                text.append(inner.as_str());
            },
            None => {
                text.append(", error: None }");
            },
        }
        text
    }
}

/// The rendering of a usage gives each of its counts under its name.
pub proof fn renderings_give_each_count(usage: Usage)
    ensures
        gives(usage_text(usage), "Usage { provenance: "@, provenance_name(usage.provenance)),
        gives(
            usage_text(usage),
            ", input_tokens: "@,
            decimal_digits(usage.input_tokens as nat),
        ),
        gives(
            usage_text(usage),
            ", cache_read_tokens: "@,
            decimal_digits(usage.cache_read_tokens as nat),
        ),
        gives(
            usage_text(usage),
            ", cache_write_tokens: "@,
            decimal_digits(usage.cache_write_tokens as nat),
        ),
        gives(
            usage_text(usage),
            ", output_tokens: "@,
            decimal_digits(usage.output_tokens as nat),
        ),
        gives(
            usage_text(usage),
            ", reasoning_tokens: "@,
            decimal_digits(usage.reasoning_tokens as nat),
        ),
        gives(
            usage_text(usage),
            ", total_tokens: "@,
            decimal_digits(usage.total_tokens as nat),
        ),
{
    broadcast use longer_texts_give_the_same;

    let none = Seq::<char>::empty();
    let a = "Usage { provenance: "@ + provenance_name(usage.provenance);
    assert(gives(a, "Usage { provenance: "@, provenance_name(usage.provenance))) by {
        assert(a =~= none + "Usage { provenance: "@ + provenance_name(usage.provenance) + none);
    }
    let n1 = decimal_digits(usage.input_tokens as nat);
    let n2 = decimal_digits(usage.cache_read_tokens as nat);
    let n3 = decimal_digits(usage.cache_write_tokens as nat);
    let n4 = decimal_digits(usage.output_tokens as nat);
    let n5 = decimal_digits(usage.reasoning_tokens as nat);
    let n6 = decimal_digits(usage.total_tokens as nat);
    let b = a + ", input_tokens: "@ + n1;
    let c = b + ", cache_read_tokens: "@ + n2;
    let d = c + ", cache_write_tokens: "@ + n3;
    let e = d + ", output_tokens: "@ + n4;
    let f = e + ", reasoning_tokens: "@ + n5;
    let g = f + ", total_tokens: "@ + n6;
    ends_give_their_value(a, ", input_tokens: "@, n1);
    ends_give_their_value(b, ", cache_read_tokens: "@, n2);
    ends_give_their_value(c, ", cache_write_tokens: "@, n3);
    ends_give_their_value(d, ", output_tokens: "@, n4);
    ends_give_their_value(e, ", reasoning_tokens: "@, n5);
    ends_give_their_value(f, ", total_tokens: "@, n6);
    assert(usage_text(usage) == g + " }"@);
}

/// The rendering of an outcome gives what the outcome says under its name, whether there is a
/// message, and no more of the message.
pub proof fn renderings_give_the_outcome(outcome: GenerationOutcomeModel)
    ensures
        gives(outcome_text(outcome), ", profile_id: "@, quoted_text(outcome.profile_id)),
        gives(outcome_text(outcome), ", model_id: "@, quoted_text(outcome.model_id)),
        gives(outcome_text(outcome), ", protocol: "@, protocol_name(outcome.protocol)),
        gives(
            outcome_text(outcome),
            ", status: "@,
            match outcome.status {
                OutcomeStatus::Completed => "Completed"@,
                OutcomeStatus::Failed => "Failed"@,
                OutcomeStatus::Cancelled => "Cancelled"@,
            },
        ),
        gives(outcome_text(outcome), ", finish_reason: "@, reason_name(outcome.finish_reason)),
        gives(outcome_text(outcome), ", usage: "@, usage_text(outcome.usage)),
        gives(outcome_text(outcome), ", response_id: "@, option_name(outcome.response_id)),
        gives(outcome_text(outcome), ", upstream_model: "@, option_name(outcome.upstream_model)),
        gives(
            outcome_text(outcome),
            ", time_to_first_event: "@,
            time_name(outcome.time_to_first_event),
        ),
        gives(outcome_text(outcome), ", latency: "@, duration_notation(outcome.latency)),
        outcome.error is Some ==> gives(
            outcome_text(outcome),
            ", error: Some("@,
            error_text(outcome.error->0),
        ),
{
    broadcast use longer_texts_give_the_same;

    let a = "GenerationOutcome { request_id: "@ + quoted_text(outcome.request_id);
    let b = a + ", profile_id: "@ + quoted_text(outcome.profile_id);
    let c = b + ", model_id: "@ + quoted_text(outcome.model_id);
    let d = c + ", protocol: "@ + protocol_name(outcome.protocol);
    let e = d + ", status: "@ + status_name(outcome.status);
    let f = e + ", finish_reason: "@ + reason_name(outcome.finish_reason);
    let g = f + ", usage: "@ + usage_text(outcome.usage);
    let h = g + ", response_id: "@ + option_name(outcome.response_id);
    let i = h + ", upstream_model: "@ + option_name(outcome.upstream_model);
    let j = i + ", time_to_first_event: "@ + time_name(outcome.time_to_first_event);
    let k = j + ", latency: "@ + duration_notation(outcome.latency);
    ends_give_their_value(a, ", profile_id: "@, quoted_text(outcome.profile_id));
    ends_give_their_value(b, ", model_id: "@, quoted_text(outcome.model_id));
    ends_give_their_value(c, ", protocol: "@, protocol_name(outcome.protocol));
    ends_give_their_value(d, ", status: "@, status_name(outcome.status));
    ends_give_their_value(e, ", finish_reason: "@, reason_name(outcome.finish_reason));
    ends_give_their_value(f, ", usage: "@, usage_text(outcome.usage));
    ends_give_their_value(g, ", response_id: "@, option_name(outcome.response_id));
    ends_give_their_value(h, ", upstream_model: "@, option_name(outcome.upstream_model));
    ends_give_their_value(i, ", time_to_first_event: "@, time_name(outcome.time_to_first_event));
    ends_give_their_value(j, ", latency: "@, duration_notation(outcome.latency));
    let message = match outcome.message {
        Some(_) => ", message: Some(\"[REDACTED]\")"@,
        None => ", message: None"@,
    };
    let error = match outcome.error {
        Some(error) => ", error: Some("@ + error_text(error) + ") }"@,
        None => ", error: None }"@,
    };
    assert(outcome_text(outcome) == k + message + error);
    if outcome.error is Some {
        let told = error_text(outcome.error->0);
        let l = k + message;
        assert(l + error =~= l + ", error: Some("@ + told + ") }"@);
    }
}

} // verus!
