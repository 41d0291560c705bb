//! Streaming events and the outcome that ends a generation.
//!
//! The protocol adapters speak this vocabulary, so that nothing else depends on provider JSON.

use vstd::prelude::*;

use crate::llm::error::{GatewayError, GatewayErrorModel};
use crate::llm::model::{
    ContentBlock, ContentBlockModel, Message, MessageModel, ProviderMetadata,
    ProviderMetadataModel, ReasoningContent, ReasoningContentModel, ReplayMetadata, Role, ToolCall,
    ToolCallModel, Usage,
};
use crate::llm::protocol::Protocol;

verus! {

broadcast use crate::deep::group_models;

/// How a generation ended.
#[derive(Clone, Copy, Debug, PartialEq, Eq, Hash, Structural)]
pub enum OutcomeStatus {
    Completed,
    Failed,
    Cancelled,
}

/// What the provider says of a stream when it starts.
#[derive(Debug, PartialEq, Eq)]
pub struct StreamMetadata {
    pub response_id: Option<String>,
    pub upstream_model: Option<String>,
}

/// What a [`StreamMetadata`] stands for.
pub struct StreamMetadataModel {
    pub response_id: Option<Seq<char>>,
    pub upstream_model: Option<Seq<char>>,
}

impl DeepView for StreamMetadata {
    type V = StreamMetadataModel;

    open spec fn deep_view(&self) -> StreamMetadataModel {
        StreamMetadataModel {
            response_id: self.response_id.deep_view(),
            upstream_model: self.upstream_model.deep_view(),
        }
    }
}

impl Clone for StreamMetadata {
    fn clone(&self) -> (copy: Self)
        ensures
            copy.deep_view() == self.deep_view(),
    {
        StreamMetadata {
            response_id: self.response_id.clone(),
            upstream_model: self.upstream_model.clone(),
        }
    }
}

impl Default for StreamMetadata {
    fn default() -> (metadata: Self)
        ensures
            metadata.deep_view() == (StreamMetadataModel {
                response_id: None,
                upstream_model: None,
            }),
    {
        StreamMetadata { response_id: None, upstream_model: None }
    }
}

/// Why a generation ended.
#[derive(Debug, PartialEq, Eq)]
pub enum FinishReason {
    Stop,
    Length,
    ToolCalls,
    ContentFilter,
    Incomplete(String),
    Other(String),
}

/// What a [`FinishReason`] stands for.
pub enum FinishReasonModel {
    Stop,
    Length,
    ToolCalls,
    ContentFilter,
    Incomplete(Seq<char>),
    Other(Seq<char>),
}

impl DeepView for FinishReason {
    type V = FinishReasonModel;

    open spec fn deep_view(&self) -> FinishReasonModel {
        match self {
            FinishReason::Stop => FinishReasonModel::Stop,
            FinishReason::Length => FinishReasonModel::Length,
            FinishReason::ToolCalls => FinishReasonModel::ToolCalls,
            FinishReason::ContentFilter => FinishReasonModel::ContentFilter,
            FinishReason::Incomplete(value) => FinishReasonModel::Incomplete(value@),
            FinishReason::Other(value) => FinishReasonModel::Other(value@),
        }
    }
}

impl Clone for FinishReason {
    fn clone(&self) -> (copy: Self)
        ensures
            copy.deep_view() == self.deep_view(),
    {
        match self {
            FinishReason::Stop => FinishReason::Stop,
            FinishReason::Length => FinishReason::Length,
            FinishReason::ToolCalls => FinishReason::ToolCalls,
            FinishReason::ContentFilter => FinishReason::ContentFilter,
            FinishReason::Incomplete(value) => FinishReason::Incomplete(value.clone()),
            FinishReason::Other(value) => FinishReason::Other(value.clone()),
        }
    }
}

/// A content block and the protocol slot that identified it while it streamed.
#[derive(PartialEq)]
pub struct IndexedContentBlock {
    pub content_index: usize,
    pub block: ContentBlock,
}

/// What an [`IndexedContentBlock`] stands for.
pub struct IndexedContentBlockModel {
    pub content_index: usize,
    pub block: ContentBlockModel,
}

impl DeepView for IndexedContentBlock {
    type V = IndexedContentBlockModel;

    open spec fn deep_view(&self) -> IndexedContentBlockModel {
        IndexedContentBlockModel {
            content_index: self.content_index,
            block: self.block.deep_view(),
        }
    }
}

impl Clone for IndexedContentBlock {
    fn clone(&self) -> (copy: Self)
        ensures
            copy.deep_view() == self.deep_view(),
    {
        IndexedContentBlock {
            content_index: self.content_index,
            block: self.block.clone(),
        }
    }
}

/// A terminal message with each block bound to its protocol slot.
#[derive(PartialEq)]
pub struct IndexedMessage {
    pub role: Role,
    pub content: Vec<IndexedContentBlock>,
    pub provider_metadata: ProviderMetadata,
}

/// What an [`IndexedMessage`] stands for.
pub struct IndexedMessageModel {
    pub role: Role,
    pub content: Seq<IndexedContentBlockModel>,
    pub provider_metadata: ProviderMetadataModel,
}

impl DeepView for IndexedMessage {
    type V = IndexedMessageModel;

    open spec fn deep_view(&self) -> IndexedMessageModel {
        IndexedMessageModel {
            role: self.role,
            content: self.content.deep_view(),
            provider_metadata: self.provider_metadata.deep_view(),
        }
    }
}

impl Clone for IndexedMessage {
    fn clone(&self) -> (copy: Self)
        ensures
            copy.deep_view() == self.deep_view(),
    {
        let copy = IndexedMessage {
            role: self.role,
            content: self.content.clone(),
            provider_metadata: self.provider_metadata.clone(),
        };
        proof {
            assert(copy.content.deep_view() =~= self.content.deep_view());
        }
        copy
    }
}

/// How a generation ended. Times are in nanoseconds since it was prepared.
#[derive(PartialEq)]
pub struct GenerationOutcome {
    pub request_id: String,
    pub profile_id: String,
    pub model_id: String,
    pub protocol: Protocol,
    pub status: OutcomeStatus,
    pub finish_reason: Option<FinishReason>,
    pub usage: Usage,
    pub response_id: Option<String>,
    pub upstream_model: Option<String>,
    pub time_to_first_event: Option<u64>,
    pub latency: u64,
    pub message: Option<IndexedMessage>,
    pub error: Option<GatewayError>,
}

/// What a [`GenerationOutcome`] stands for.
pub struct GenerationOutcomeModel {
    pub request_id: Seq<char>,
    pub profile_id: Seq<char>,
    pub model_id: Seq<char>,
    pub protocol: Protocol,
    pub status: OutcomeStatus,
    pub finish_reason: Option<FinishReasonModel>,
    pub usage: Usage,
    pub response_id: Option<Seq<char>>,
    pub upstream_model: Option<Seq<char>>,
    pub time_to_first_event: Option<u64>,
    pub latency: u64,
    pub message: Option<IndexedMessageModel>,
    pub error: Option<GatewayErrorModel>,
}

impl DeepView for GenerationOutcome {
    type V = GenerationOutcomeModel;

    open spec fn deep_view(&self) -> GenerationOutcomeModel {
        GenerationOutcomeModel {
            request_id: self.request_id@,
            profile_id: self.profile_id@,
            model_id: self.model_id@,
            protocol: self.protocol,
            status: self.status,
            finish_reason: self.finish_reason.deep_view(),
            usage: self.usage,
            response_id: self.response_id.deep_view(),
            upstream_model: self.upstream_model.deep_view(),
            time_to_first_event: self.time_to_first_event,
            latency: self.latency,
            message: self.message.deep_view(),
            error: self.error.deep_view(),
        }
    }
}

impl Clone for GenerationOutcome {
    fn clone(&self) -> (copy: Self)
        ensures
            copy.deep_view() == self.deep_view(),
    {
        GenerationOutcome {
            request_id: self.request_id.clone(),
            profile_id: self.profile_id.clone(),
            model_id: self.model_id.clone(),
            protocol: self.protocol,
            status: self.status,
            finish_reason: self.finish_reason.clone(),
            usage: self.usage,
            response_id: self.response_id.clone(),
            upstream_model: self.upstream_model.clone(),
            time_to_first_event: self.time_to_first_event,
            latency: self.latency,
            message: self.message.clone(),
            error: self.error.clone(),
        }
    }
}

/// What a generation reports while it runs.
#[derive(PartialEq)]
pub enum GenerationEvent {
    Started(StreamMetadata),
    TextStarted { content_index: usize, id: String },
    TextDelta { content_index: usize, id: String, delta: String },
    TextFinished { content_index: usize, id: String, replay: Option<ReplayMetadata> },
    ReasoningStarted { content_index: usize, id: String },
    ReasoningDelta { content_index: usize, id: String, delta: String },
    ReasoningFinished { content_index: usize, id: String, replay: Option<ReplayMetadata> },
    /// Replaces reasoning that arrived after its block finished, without reopening the block.
    ReasoningSnapshotUpdated { content_index: usize, id: String, reasoning: ReasoningContent },
    ToolCallStarted { content_index: usize, index: usize, id: String, name: String },
    ToolCallDelta { content_index: usize, index: usize, delta: String },
    ToolCallFinished { content_index: usize, index: usize, tool_call: Box<ToolCall> },
    UsageUpdated(Usage),
    Finished(Box<GenerationOutcome>),
}

/// What a [`GenerationEvent`] stands for.
pub enum GenerationEventModel {
    Started(StreamMetadataModel),
    TextStarted { content_index: usize, id: Seq<char> },
    TextDelta { content_index: usize, id: Seq<char>, delta: Seq<char> },
    TextFinished { content_index: usize, id: Seq<char>, replay: Option<ProviderMetadataModel> },
    ReasoningStarted { content_index: usize, id: Seq<char> },
    ReasoningDelta { content_index: usize, id: Seq<char>, delta: Seq<char> },
    ReasoningFinished { content_index: usize, id: Seq<char>, replay: Option<ProviderMetadataModel> },
    ReasoningSnapshotUpdated { content_index: usize, id: Seq<char>, reasoning: ReasoningContentModel },
    ToolCallStarted { content_index: usize, index: usize, id: Seq<char>, name: Seq<char> },
    ToolCallDelta { content_index: usize, index: usize, delta: Seq<char> },
    ToolCallFinished { content_index: usize, index: usize, tool_call: ToolCallModel },
    UsageUpdated(Usage),
    Finished(GenerationOutcomeModel),
}

impl DeepView for GenerationEvent {
    type V = GenerationEventModel;

    open spec fn deep_view(&self) -> GenerationEventModel {
        match self {
            GenerationEvent::Started(value) => GenerationEventModel::Started(value.deep_view()),
            GenerationEvent::TextStarted { content_index, id } => GenerationEventModel::TextStarted {
                content_index: *content_index,
                id: id@,
            },
            GenerationEvent::TextDelta { content_index, id, delta } => GenerationEventModel::TextDelta {
                content_index: *content_index,
                id: id@,
                delta: delta@,
            },
            GenerationEvent::TextFinished { content_index, id, replay } => GenerationEventModel::TextFinished {
                content_index: *content_index,
                id: id@,
                replay: replay.deep_view(),
            },
            GenerationEvent::ReasoningStarted { content_index, id } => GenerationEventModel::ReasoningStarted {
                content_index: *content_index,
                id: id@,
            },
            GenerationEvent::ReasoningDelta { content_index, id, delta } => GenerationEventModel::ReasoningDelta {
                content_index: *content_index,
                id: id@,
                delta: delta@,
            },
            GenerationEvent::ReasoningFinished { content_index, id, replay } => GenerationEventModel::ReasoningFinished {
                content_index: *content_index,
                id: id@,
                replay: replay.deep_view(),
            },
            GenerationEvent::ReasoningSnapshotUpdated { content_index, id, reasoning } => GenerationEventModel::ReasoningSnapshotUpdated {
                content_index: *content_index,
                id: id@,
                reasoning: reasoning.deep_view(),
            },
            GenerationEvent::ToolCallStarted { content_index, index, id, name } => GenerationEventModel::ToolCallStarted {
                content_index: *content_index,
                index: *index,
                id: id@,
                name: name@,
            },
            GenerationEvent::ToolCallDelta { content_index, index, delta } => GenerationEventModel::ToolCallDelta {
                content_index: *content_index,
                index: *index,
                delta: delta@,
            },
            GenerationEvent::ToolCallFinished { content_index, index, tool_call } => GenerationEventModel::ToolCallFinished {
                content_index: *content_index,
                index: *index,
                tool_call: tool_call.deep_view(),
            },
            GenerationEvent::UsageUpdated(value) => GenerationEventModel::UsageUpdated(*value),
            GenerationEvent::Finished(value) => GenerationEventModel::Finished(value.deep_view()),
        }
    }
}

impl Clone for GenerationEvent {
    fn clone(&self) -> (copy: Self)
        ensures
            copy.deep_view() == self.deep_view(),
    {
        match self {
            GenerationEvent::Started(value) => GenerationEvent::Started(value.clone()),
            GenerationEvent::TextStarted { content_index, id } => GenerationEvent::TextStarted {
                content_index: *content_index,
                id: id.clone(),
            },
            GenerationEvent::TextDelta { content_index, id, delta } => GenerationEvent::TextDelta {
                content_index: *content_index,
                id: id.clone(),
                delta: delta.clone(),
            },
            GenerationEvent::TextFinished { content_index, id, replay } => GenerationEvent::TextFinished {
                content_index: *content_index,
                id: id.clone(),
                replay: replay.clone(),
            },
            GenerationEvent::ReasoningStarted { content_index, id } => GenerationEvent::ReasoningStarted {
                content_index: *content_index,
                id: id.clone(),
            },
            GenerationEvent::ReasoningDelta { content_index, id, delta } => GenerationEvent::ReasoningDelta {
                content_index: *content_index,
                id: id.clone(),
                delta: delta.clone(),
            },
            GenerationEvent::ReasoningFinished { content_index, id, replay } => GenerationEvent::ReasoningFinished {
                content_index: *content_index,
                id: id.clone(),
                replay: replay.clone(),
            },
            GenerationEvent::ReasoningSnapshotUpdated { content_index, id, reasoning } => GenerationEvent::ReasoningSnapshotUpdated {
                content_index: *content_index,
                id: id.clone(),
                reasoning: reasoning.clone(),
            },
            GenerationEvent::ToolCallStarted { content_index, index, id, name } => GenerationEvent::ToolCallStarted {
                content_index: *content_index,
                index: *index,
                id: id.clone(),
                name: name.clone(),
            },
            GenerationEvent::ToolCallDelta { content_index, index, delta } => GenerationEvent::ToolCallDelta {
                content_index: *content_index,
                index: *index,
                delta: delta.clone(),
            },
            GenerationEvent::ToolCallFinished { content_index, index, tool_call } => GenerationEvent::ToolCallFinished {
                content_index: *content_index,
                index: *index,
                tool_call: tool_call.clone(),
            },
            GenerationEvent::UsageUpdated(value) => GenerationEvent::UsageUpdated(*value),
            GenerationEvent::Finished(value) => GenerationEvent::Finished(value.clone()),
        }
    }
}

/// A message whose blocks are bound to their positions.
pub open spec fn indexed(message: MessageModel) -> IndexedMessageModel {
    IndexedMessageModel {
        role: message.role,
        content: Seq::new(
            message.content.len(),
            |i: int|
                IndexedContentBlockModel {
                    content_index: i as usize,
                    block: message.content[i],
                },
        ),
        provider_metadata: message.provider_metadata,
    }
}

/// An indexed message without its slots.
pub open spec fn unindexed(message: IndexedMessageModel) -> MessageModel {
    MessageModel {
        role: message.role,
        content: Seq::new(message.content.len(), |i: int| message.content[i].block),
        provider_metadata: message.provider_metadata,
    }
}

/// Binding blocks to their positions and dropping the slots again changes nothing.
pub proof fn unindexed_inverts_indexed(message: MessageModel)
    ensures
        unindexed(indexed(message)) == message,
{
    assert(unindexed(indexed(message)).content =~= message.content);
}

impl IndexedMessage {
    pub fn from_message(message: Message) -> (result: Self)
        ensures
            result.deep_view() == indexed(message.deep_view()),
    {
        let mut content: Vec<IndexedContentBlock> = Vec::new();
        let mut i: usize = 0;
        while i < message.content.len()
            invariant
                i <= message.content.len(),
                content.deep_view() == indexed(message.deep_view()).content.take(i as int),
            decreases message.content.len() - i,
        {
            content.push(IndexedContentBlock { content_index: i, block: message.content[i].clone() });
            i += 1;
            proof {
                let all = indexed(message.deep_view()).content;
                assert(all.take(i as int) =~= all.take(i - 1).push(all[i - 1]));
            }
        }
        proof {
            let all = indexed(message.deep_view()).content;
            assert(all.take(i as int) =~= all);
        }
        IndexedMessage { role: message.role, content, provider_metadata: message.provider_metadata }
    }

    pub fn into_message(self) -> (result: Message)
        ensures
            result.deep_view() == unindexed(self.deep_view()),
    {
        let mut content: Vec<ContentBlock> = Vec::new();
        let mut i: usize = 0;
        while i < self.content.len()
            invariant
                i <= self.content.len(),
                content.deep_view() == unindexed(self.deep_view()).content.take(i as int),
            decreases self.content.len() - i,
        {
            content.push(self.content[i].block.clone());
            i += 1;
            proof {
                let all = unindexed(self.deep_view()).content;
                assert(all.take(i as int) =~= all.take(i - 1).push(all[i - 1]));
            }
        }
        proof {
            let all = unindexed(self.deep_view()).content;
            assert(all.take(i as int) =~= all);
        }
        Message { role: self.role, content, provider_metadata: self.provider_metadata }
    }
}

/// Whether none of the events is a terminal one.
pub open spec fn no_terminal_event(events: Seq<GenerationEventModel>) -> bool {
    forall|i: int| 0 <= i < events.len() ==> !(#[trigger] events[i] is Finished)
}

/// The blocks of a message are numbered from zero on, in their order.
pub proof fn blocks_are_numbered(message: MessageModel, i: int)
    requires
        0 <= i < message.content.len() <= usize::MAX,
    ensures
        indexed(message).content.len() == message.content.len(),
        indexed(message).content[i].content_index == i,
        indexed(message).content[i].block == message.content[i],
        indexed(message).role == message.role,
        indexed(message).provider_metadata == message.provider_metadata,
{
}

} // verus!
