//! Protocol-neutral request, message, tool, replay and usage types.
//!
//! Messages keep their content blocks in order. Replay metadata is scoped by wire protocol and
//! never shows in a rendering.

use vstd::prelude::*;

use crate::json::{Json, JsonModel, JsonNumber, NumberModel};

verus! {

broadcast use crate::deep::group_models;

/// Who a message comes from.
#[derive(Clone, Copy, Debug, PartialEq, Eq, Structural)]
pub enum Role {
    System,
    Developer,
    User,
    Assistant,
    Tool,
}

/// The member of a Chat Completions message that carries reasoning text.
#[derive(Clone, Copy, Debug, PartialEq, Eq, Structural)]
pub enum ChatReasoningField {
    ReasoningContent,
    Reasoning,
    ReasoningText,
}

/// The name of the member on the wire.
pub open spec fn reasoning_field_name(field: ChatReasoningField) -> Seq<char> {
    match field {
        ChatReasoningField::ReasoningContent => "reasoning_content"@,
        ChatReasoningField::Reasoning => "reasoning"@,
        ChatReasoningField::ReasoningText => "reasoning_text"@,
    }
}

impl ChatReasoningField {
    pub fn as_str(self) -> (name: &'static str)
        ensures
            name@ == reasoning_field_name(self),
    {
        match self {
            ChatReasoningField::ReasoningContent => "reasoning_content",
            ChatReasoningField::Reasoning => "reasoning",
            ChatReasoningField::ReasoningText => "reasoning_text",
        }
    }
}

/// Where token counts come from.
#[derive(Clone, Copy, Debug, PartialEq, Eq, Structural)]
pub enum UsageProvenance {
    Reported,
    Estimated,
    Unavailable,
}

/// Token counts of a generation.
#[derive(Clone, Copy, Debug, PartialEq, Eq, Structural)]
pub struct Usage {
    pub provenance: UsageProvenance,
    pub input_tokens: u64,
    pub cache_read_tokens: u64,
    pub cache_write_tokens: u64,
    pub output_tokens: u64,
    pub reasoning_tokens: u64,
    pub total_tokens: u64,
}

/// No counts at all.
pub open spec fn no_usage() -> Usage {
    Usage {
        provenance: UsageProvenance::Unavailable,
        input_tokens: 0,
        cache_read_tokens: 0,
        cache_write_tokens: 0,
        output_tokens: 0,
        reasoning_tokens: 0,
        total_tokens: 0,
    }
}

impl Default for Usage {
    fn default() -> (usage: Self)
        ensures
            usage == no_usage(),
    {
        Usage {
            provenance: UsageProvenance::Unavailable,
            input_tokens: 0,
            cache_read_tokens: 0,
            cache_write_tokens: 0,
            output_tokens: 0,
            reasoning_tokens: 0,
            total_tokens: 0,
        }
    }
}

/// The sum of two counts, or the largest count where it does not fit.
pub open spec fn saturating_sum(a: u64, b: u64) -> u64 {
    if a + b > u64::MAX {
        u64::MAX
    } else {
        (a + b) as u64
    }
}

/// An estimate taints a sum; a report outranks nothing at all.
pub open spec fn joint_provenance(a: UsageProvenance, b: UsageProvenance) -> UsageProvenance {
    if a == UsageProvenance::Estimated || b == UsageProvenance::Estimated {
        UsageProvenance::Estimated
    } else if a == UsageProvenance::Reported || b == UsageProvenance::Reported {
        UsageProvenance::Reported
    } else {
        UsageProvenance::Unavailable
    }
}

/// Two usages taken together.
pub open spec fn usage_sum(a: Usage, b: Usage) -> Usage {
    Usage {
        provenance: joint_provenance(a.provenance, b.provenance),
        input_tokens: saturating_sum(a.input_tokens, b.input_tokens),
        cache_read_tokens: saturating_sum(a.cache_read_tokens, b.cache_read_tokens),
        cache_write_tokens: saturating_sum(a.cache_write_tokens, b.cache_write_tokens),
        output_tokens: saturating_sum(a.output_tokens, b.output_tokens),
        reasoning_tokens: saturating_sum(a.reasoning_tokens, b.reasoning_tokens),
        total_tokens: saturating_sum(a.total_tokens, b.total_tokens),
    }
}

impl Usage {
    /// Adds `other` to these counts.
    pub fn add_assign(&mut self, other: &Usage)
        ensures
            *final(self) == usage_sum(*old(self), *other),
    {
        self.provenance = match (self.provenance, other.provenance) {
            (UsageProvenance::Estimated, _) | (_, UsageProvenance::Estimated) => {
                UsageProvenance::Estimated
            },
            (UsageProvenance::Reported, _) | (_, UsageProvenance::Reported) => {
                UsageProvenance::Reported
            },
            _ => UsageProvenance::Unavailable,
        };
        self.input_tokens = self.input_tokens.saturating_add(other.input_tokens);
        self.cache_read_tokens = self.cache_read_tokens.saturating_add(other.cache_read_tokens);
        self.cache_write_tokens = self.cache_write_tokens.saturating_add(other.cache_write_tokens);
        self.output_tokens = self.output_tokens.saturating_add(other.output_tokens);
        self.reasoning_tokens = self.reasoning_tokens.saturating_add(other.reasoning_tokens);
        self.total_tokens = self.total_tokens.saturating_add(other.total_tokens);
    }
}

/// The order in which usages are added does not matter.
pub proof fn usage_sum_is_commutative(a: Usage, b: Usage)
    ensures
        usage_sum(a, b) == usage_sum(b, a),
{
}

/// Usages can be added in any grouping.
pub proof fn usage_sum_is_associative(a: Usage, b: Usage, c: Usage)
    ensures
        usage_sum(usage_sum(a, b), c) == usage_sum(a, usage_sum(b, c)),
{
}

/// Adding no usage changes nothing.
pub proof fn no_usage_is_neutral(a: Usage)
    ensures
        usage_sum(a, no_usage()) == a,
{
}

/// Protocol-scoped opaque state, kept only for a later request to the same wire API.
pub type ReplayMetadata = ProviderMetadata;

/// Opaque state that a Chat Completions request hands back to its provider.
#[derive(PartialEq)]
pub struct ChatReplayMetadata {
    pub reasoning_field: Option<ChatReasoningField>,
    pub reasoning_details: Option<Json>,
}

/// What a [`ChatReplayMetadata`] stands for.
pub struct ChatReplayMetadataModel {
    pub reasoning_field: Option<ChatReasoningField>,
    pub reasoning_details: Option<JsonModel>,
}

impl DeepView for ChatReplayMetadata {
    type V = ChatReplayMetadataModel;

    open spec fn deep_view(&self) -> ChatReplayMetadataModel {
        ChatReplayMetadataModel {
            reasoning_field: self.reasoning_field,
            reasoning_details: self.reasoning_details.deep_view(),
        }
    }
}

impl Clone for ChatReplayMetadata {
    fn clone(&self) -> (copy: Self)
        ensures
            copy.deep_view() == self.deep_view(),
    {
        ChatReplayMetadata {
            reasoning_field: self.reasoning_field,
            reasoning_details: self.reasoning_details.clone(),
        }
    }
}

/// Opaque state that a Responses request hands back to its provider.
#[derive(PartialEq)]
pub struct ResponsesReplayMetadata {
    pub response_id: Option<String>,
    pub item_id: Option<String>,
    pub message_id: Option<String>,
    pub call_id: Option<String>,
    pub encrypted_reasoning: Option<String>,
}

/// What a [`ResponsesReplayMetadata`] stands for.
pub struct ResponsesReplayMetadataModel {
    pub response_id: Option<Seq<char>>,
    pub item_id: Option<Seq<char>>,
    pub message_id: Option<Seq<char>>,
    pub call_id: Option<Seq<char>>,
    pub encrypted_reasoning: Option<Seq<char>>,
}

impl DeepView for ResponsesReplayMetadata {
    type V = ResponsesReplayMetadataModel;

    open spec fn deep_view(&self) -> ResponsesReplayMetadataModel {
        ResponsesReplayMetadataModel {
            response_id: self.response_id.deep_view(),
            item_id: self.item_id.deep_view(),
            message_id: self.message_id.deep_view(),
            call_id: self.call_id.deep_view(),
            encrypted_reasoning: self.encrypted_reasoning.deep_view(),
        }
    }
}

impl Clone for ResponsesReplayMetadata {
    fn clone(&self) -> (copy: Self)
        ensures
            copy.deep_view() == self.deep_view(),
    {
        ResponsesReplayMetadata {
            response_id: self.response_id.clone(),
            item_id: self.item_id.clone(),
            message_id: self.message_id.clone(),
            call_id: self.call_id.clone(),
            encrypted_reasoning: self.encrypted_reasoning.clone(),
        }
    }
}

/// Replay state, scoped by wire protocol.
#[derive(PartialEq)]
pub struct ProviderMetadata {
    pub chat: Option<ChatReplayMetadata>,
    pub responses: Option<ResponsesReplayMetadata>,
}

/// What a [`ProviderMetadata`] stands for.
pub struct ProviderMetadataModel {
    pub chat: Option<ChatReplayMetadataModel>,
    pub responses: Option<ResponsesReplayMetadataModel>,
}

impl DeepView for ProviderMetadata {
    type V = ProviderMetadataModel;

    open spec fn deep_view(&self) -> ProviderMetadataModel {
        ProviderMetadataModel {
            chat: self.chat.deep_view(),
            responses: self.responses.deep_view(),
        }
    }
}

impl Clone for ProviderMetadata {
    fn clone(&self) -> (copy: Self)
        ensures
            copy.deep_view() == self.deep_view(),
    {
        ProviderMetadata {
            chat: self.chat.clone(),
            responses: self.responses.clone(),
        }
    }
}

/// What a model reasoned, as shown and as handed back.
#[derive(PartialEq)]
pub struct ReasoningContent {
    pub display: String,
    pub replay: Option<ReplayMetadata>,
}

/// What a [`ReasoningContent`] stands for.
pub struct ReasoningContentModel {
    pub display: Seq<char>,
    pub replay: Option<ProviderMetadataModel>,
}

impl DeepView for ReasoningContent {
    type V = ReasoningContentModel;

    open spec fn deep_view(&self) -> ReasoningContentModel {
        ReasoningContentModel {
            display: self.display@,
            replay: self.replay.deep_view(),
        }
    }
}

impl Clone for ReasoningContent {
    fn clone(&self) -> (copy: Self)
        ensures
            copy.deep_view() == self.deep_view(),
    {
        ReasoningContent {
            display: self.display.clone(),
            replay: self.replay.clone(),
        }
    }
}

/// A call that a model asks for. `raw_arguments` is the text that `arguments` was read from.
#[derive(PartialEq)]
pub struct ToolCall {
    pub id: String,
    pub name: String,
    pub arguments: Json,
    pub raw_arguments: String,
    pub provider_metadata: ProviderMetadata,
}

/// What a [`ToolCall`] stands for.
pub struct ToolCallModel {
    pub id: Seq<char>,
    pub name: Seq<char>,
    pub arguments: JsonModel,
    pub raw_arguments: Seq<char>,
    pub provider_metadata: ProviderMetadataModel,
}

impl DeepView for ToolCall {
    type V = ToolCallModel;

    open spec fn deep_view(&self) -> ToolCallModel {
        ToolCallModel {
            id: self.id@,
            name: self.name@,
            arguments: self.arguments.deep_view(),
            raw_arguments: self.raw_arguments@,
            provider_metadata: self.provider_metadata.deep_view(),
        }
    }
}

impl Clone for ToolCall {
    fn clone(&self) -> (copy: Self)
        ensures
            copy.deep_view() == self.deep_view(),
    {
        ToolCall {
            id: self.id.clone(),
            name: self.name.clone(),
            arguments: self.arguments.clone(),
            raw_arguments: self.raw_arguments.clone(),
            provider_metadata: self.provider_metadata.clone(),
        }
    }
}

/// What a tool answered.
#[derive(Debug, PartialEq)]
pub struct ToolResult {
    pub call_id: String,
    pub content: String,
    pub is_error: bool,
}

/// What a [`ToolResult`] stands for.
pub struct ToolResultModel {
    pub call_id: Seq<char>,
    pub content: Seq<char>,
    pub is_error: bool,
}

impl DeepView for ToolResult {
    type V = ToolResultModel;

    open spec fn deep_view(&self) -> ToolResultModel {
        ToolResultModel {
            call_id: self.call_id@,
            content: self.content@,
            is_error: self.is_error,
        }
    }
}

impl Clone for ToolResult {
    fn clone(&self) -> (copy: Self)
        ensures
            copy.deep_view() == self.deep_view(),
    {
        ToolResult {
            call_id: self.call_id.clone(),
            content: self.content.clone(),
            is_error: self.is_error,
        }
    }
}

/// A tool that a model may call. `parameters` is its JSON schema.
#[derive(Debug, PartialEq)]
pub struct ToolDefinition {
    pub name: String,
    pub description: String,
    pub parameters: Json,
}

/// What a [`ToolDefinition`] stands for.
pub struct ToolDefinitionModel {
    pub name: Seq<char>,
    pub description: Seq<char>,
    pub parameters: JsonModel,
}

impl DeepView for ToolDefinition {
    type V = ToolDefinitionModel;

    open spec fn deep_view(&self) -> ToolDefinitionModel {
        ToolDefinitionModel {
            name: self.name@,
            description: self.description@,
            parameters: self.parameters.deep_view(),
        }
    }
}

impl Clone for ToolDefinition {
    fn clone(&self) -> (copy: Self)
        ensures
            copy.deep_view() == self.deep_view(),
    {
        ToolDefinition {
            name: self.name.clone(),
            description: self.description.clone(),
            parameters: self.parameters.clone(),
        }
    }
}

/// One block of a message.
#[derive(PartialEq)]
pub enum ContentBlock {
    Text { text: String, provider_metadata: ProviderMetadata },
    Reasoning { reasoning: ReasoningContent },
    ToolCall { tool_call: ToolCall },
    ToolResult { tool_result: ToolResult },
}

/// What a [`ContentBlock`] stands for.
pub enum ContentBlockModel {
    Text { text: Seq<char>, provider_metadata: ProviderMetadataModel },
    Reasoning { reasoning: ReasoningContentModel },
    ToolCall { tool_call: ToolCallModel },
    ToolResult { tool_result: ToolResultModel },
}

impl DeepView for ContentBlock {
    type V = ContentBlockModel;

    open spec fn deep_view(&self) -> ContentBlockModel {
        match self {
            ContentBlock::Text { text, provider_metadata } => ContentBlockModel::Text {
                text: text@,
                provider_metadata: provider_metadata.deep_view(),
            },
            ContentBlock::Reasoning { reasoning } => ContentBlockModel::Reasoning {
                reasoning: reasoning.deep_view(),
            },
            ContentBlock::ToolCall { tool_call } => ContentBlockModel::ToolCall {
                tool_call: tool_call.deep_view(),
            },
            ContentBlock::ToolResult { tool_result } => ContentBlockModel::ToolResult {
                tool_result: tool_result.deep_view(),
            },
        }
    }
}

impl Clone for ContentBlock {
    fn clone(&self) -> (copy: Self)
        ensures
            copy.deep_view() == self.deep_view(),
    {
        match self {
            ContentBlock::Text { text, provider_metadata } => ContentBlock::Text {
                text: text.clone(),
                provider_metadata: provider_metadata.clone(),
            },
            ContentBlock::Reasoning { reasoning } => ContentBlock::Reasoning {
                reasoning: reasoning.clone(),
            },
            ContentBlock::ToolCall { tool_call } => ContentBlock::ToolCall {
                tool_call: tool_call.clone(),
            },
            ContentBlock::ToolResult { tool_result } => ContentBlock::ToolResult {
                tool_result: tool_result.clone(),
            },
        }
    }
}

/// A message: ordered content blocks under one role.
#[derive(PartialEq)]
pub struct Message {
    pub role: Role,
    pub content: Vec<ContentBlock>,
    pub provider_metadata: ProviderMetadata,
}

/// What a [`Message`] stands for.
pub struct MessageModel {
    pub role: Role,
    pub content: Seq<ContentBlockModel>,
    pub provider_metadata: ProviderMetadataModel,
}

impl DeepView for Message {
    type V = MessageModel;

    open spec fn deep_view(&self) -> MessageModel {
        MessageModel {
            role: self.role,
            content: self.content.deep_view(),
            provider_metadata: self.provider_metadata.deep_view(),
        }
    }
}

impl Clone for Message {
    fn clone(&self) -> (copy: Self)
        ensures
            copy.deep_view() == self.deep_view(),
    {
        let copy = Message {
            role: self.role,
            content: self.content.clone(),
            provider_metadata: self.provider_metadata.clone(),
        };
        proof {
            assert(copy.content.deep_view() =~= self.content.deep_view());
        }
        copy
    }
}

/// What a generation is asked for. `temperature` is the number as it is written in JSON.
#[derive(PartialEq)]
pub struct GenerateRequest {
    pub model: String,
    pub conversation_id: String,
    pub turn_id: String,
    pub messages: Vec<Message>,
    pub tools: Vec<ToolDefinition>,
    pub max_output_tokens: Option<u64>,
    pub temperature: Option<JsonNumber>,
    pub metadata: Vec<(String, String)>,
}

/// What a [`GenerateRequest`] stands for.
pub struct GenerateRequestModel {
    pub model: Seq<char>,
    pub conversation_id: Seq<char>,
    pub turn_id: Seq<char>,
    pub messages: Seq<MessageModel>,
    pub tools: Seq<ToolDefinitionModel>,
    pub max_output_tokens: Option<u64>,
    pub temperature: Option<NumberModel>,
    pub metadata: Seq<(Seq<char>, Seq<char>)>,
}

impl DeepView for GenerateRequest {
    type V = GenerateRequestModel;

    open spec fn deep_view(&self) -> GenerateRequestModel {
        GenerateRequestModel {
            model: self.model@,
            conversation_id: self.conversation_id@,
            turn_id: self.turn_id@,
            messages: self.messages.deep_view(),
            tools: self.tools.deep_view(),
            max_output_tokens: self.max_output_tokens,
            temperature: self.temperature.deep_view(),
            metadata: self.metadata.deep_view(),
        }
    }
}

impl Clone for GenerateRequest {
    fn clone(&self) -> (copy: Self)
        ensures
            copy.deep_view() == self.deep_view(),
    {
        let copy = GenerateRequest {
            model: self.model.clone(),
            conversation_id: self.conversation_id.clone(),
            turn_id: self.turn_id.clone(),
            messages: self.messages.clone(),
            tools: self.tools.clone(),
            max_output_tokens: self.max_output_tokens,
            temperature: self.temperature.clone(),
            metadata: copy_pairs(&self.metadata),
        };
        proof {
            assert(copy.messages.deep_view() =~= self.messages.deep_view());
            assert(copy.tools.deep_view() =~= self.tools.deep_view());
            assert(copy.metadata.deep_view() =~= self.metadata.deep_view());
        }
        copy
    }
}

/// The same pairs of strings, in the same order.
fn copy_pairs(pairs: &Vec<(String, String)>) -> (copies: Vec<(String, String)>)
    ensures
        copies.deep_view() == pairs.deep_view(),
{
    let mut copies: Vec<(String, String)> = Vec::new();
    let mut i: usize = 0;
    while i < pairs.len()
        invariant
            i <= pairs.len(),
            copies.deep_view() == pairs.deep_view().take(i as int),
        decreases pairs.len() - i,
    {
        copies.push((pairs[i].0.clone(), pairs[i].1.clone()));
        i += 1;
        proof {
            assert(pairs.deep_view().take(i as int) =~= pairs.deep_view().take(i - 1).push(
                pairs@[i - 1].deep_view(),
            ));
        }
    }
    proof {
        assert(pairs.deep_view().take(i as int) =~= pairs.deep_view());
    }
    copies
}

/// Metadata that holds nothing.
pub open spec fn no_metadata() -> ProviderMetadataModel {
    ProviderMetadataModel { chat: None, responses: None }
}

/// Responses replay state that holds nothing.
pub open spec fn no_responses_replay() -> ResponsesReplayMetadataModel {
    ResponsesReplayMetadataModel {
        response_id: None,
        item_id: None,
        message_id: None,
        call_id: None,
        encrypted_reasoning: None,
    }
}

impl Default for ResponsesReplayMetadata {
    fn default() -> (metadata: Self)
        ensures
            metadata.deep_view() == no_responses_replay(),
    {
        ResponsesReplayMetadata {
            response_id: None,
            item_id: None,
            message_id: None,
            call_id: None,
            encrypted_reasoning: None,
        }
    }
}

impl ResponsesReplayMetadata {
    /// A rendering for logs: the values stay hidden.
    pub fn debug_text(&self) -> (text: String)
        ensures
            text@ == "ResponsesReplayMetadata([REDACTED])"@,
    {
        "ResponsesReplayMetadata([REDACTED])".to_owned()
    }
}

impl Default for ChatReplayMetadata {
    fn default() -> (metadata: Self)
        ensures
            metadata.deep_view() == (ChatReplayMetadataModel {
                reasoning_field: None,
                reasoning_details: None,
            }),
    {
        ChatReplayMetadata { reasoning_field: None, reasoning_details: None }
    }
}

impl ChatReplayMetadata {
    /// A rendering for logs: the values stay hidden.
    pub fn debug_text(&self) -> (text: String)
        ensures
            text@ == "ChatReplayMetadata([REDACTED])"@,
    {
        "ChatReplayMetadata([REDACTED])".to_owned()
    }
}

impl Default for ProviderMetadata {
    fn default() -> (metadata: Self)
        ensures
            metadata.deep_view() == no_metadata(),
    {
        ProviderMetadata { chat: None, responses: None }
    }
}

impl ProviderMetadata {
    pub fn is_empty(&self) -> (empty: bool)
        ensures
            empty == (self.deep_view() == no_metadata()),
    {
        self.chat.is_none() && self.responses.is_none()
    }

    /// A rendering for logs: the values stay hidden.
    pub fn debug_text(&self) -> (text: String)
        ensures
            text@ == "ProviderMetadata([REDACTED])"@,
    {
        "ProviderMetadata([REDACTED])".to_owned()
    }
}

impl Default for ReasoningContent {
    fn default() -> (reasoning: Self)
        ensures
            reasoning.deep_view() == (ReasoningContentModel {
                display: Seq::empty(),
                replay: None,
            }),
    {
        ReasoningContent { display: String::new(), replay: None }
    }
}

impl Default for GenerateRequest {
    fn default() -> (request: Self)
        ensures
            request.deep_view() == (GenerateRequestModel {
                model: Seq::empty(),
                conversation_id: Seq::empty(),
                turn_id: Seq::empty(),
                messages: Seq::empty(),
                tools: Seq::empty(),
                max_output_tokens: None,
                temperature: None,
                metadata: Seq::empty(),
            }),
    {
        GenerateRequest {
            model: String::new(),
            conversation_id: String::new(),
            turn_id: String::new(),
            messages: Vec::new(),
            tools: Vec::new(),
            max_output_tokens: None,
            temperature: None,
            metadata: Vec::new(),
        }
    }
}

} // verus!
