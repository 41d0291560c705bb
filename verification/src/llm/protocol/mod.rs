//! Protocol selection, compatibility policy and adapter dispatch.
//!
//! Callers use one [`ProtocolSession`]; the state of each wire API stays in its adapter.

pub mod chat_completions;
pub mod responses;

use vstd::prelude::*;

use crate::json::{Json, JsonModel};
use crate::llm::error::{protocol_error, ErrorKind, GatewayError, GatewayErrorModel};
use crate::llm::event::{
    FinishReason, FinishReasonModel, GenerationEvent, GenerationEventModel,
};
use crate::llm::model::{
    ContentBlock, ContentBlockModel, GenerateRequest, GenerateRequestModel, Message, MessageModel,
    ProviderMetadata, ProviderMetadataModel, Role, Usage,
};
use crate::llm::protocol::chat_completions::model::ChatModel;
use crate::llm::protocol::chat_completions::session::ChatCompletionsSession;
use crate::llm::protocol::responses::model::ResponsesModel;
use crate::llm::protocol::responses::state::ResponsesSession;
use crate::text::{is_white_space, same_text};

verus! {

broadcast use crate::deep::group_models;

/// The wire API of a provider.
#[derive(Clone, Copy, Debug, PartialEq, Eq, Hash, Structural)]
pub enum Protocol {
    ChatCompletions,
    Responses,
}

/// The settings key of the policy.
pub open spec fn protocol_key(value: Protocol) -> Seq<char> {
    match value {
        Protocol::ChatCompletions => "chat-completions"@,
        Protocol::Responses => "responses"@,
    }
}

/// The policy that a settings key stands for.
pub open spec fn protocol_of_key(key: Seq<char>) -> Option<Protocol> {
    if key == "chat-completions"@ {
        Some(Protocol::ChatCompletions)
    } else if key == "responses"@ {
        Some(Protocol::Responses)
    } else {
        None
    }
}

impl Default for Protocol {
    fn default() -> (value: Self)
        ensures
            value == Protocol::ChatCompletions,
    {
        Protocol::ChatCompletions
    }
}

impl Protocol {
    pub fn endpoint_path(self) -> (path: &'static str)
        ensures
            path@ == endpoint(self),
    {
        match self {
            Protocol::ChatCompletions => "/chat/completions",
            Protocol::Responses => "/responses",
        }
    }

    pub fn as_str(self) -> (key: &'static str)
        ensures
            key@ == protocol_key(self),
    {
        match self {
            Protocol::ChatCompletions => "chat-completions",
            Protocol::Responses => "responses",
        }
    }

    pub fn from_key(value: &str) -> (result: Option<Self>)
        ensures
            result == protocol_of_key(value@),
    {
        if same_text(value, "chat-completions") {
            Some(Protocol::ChatCompletions)
        } else if same_text(value, "responses") {
            Some(Protocol::Responses)
        } else {
            None
        }
    }
}

/// Each value is read back from its key.
pub proof fn protocol_keys_round_trip(value: Protocol)
    ensures
        protocol_of_key(protocol_key(value)) == Some(value),
{
    reveal_strlit("chat-completions");
    reveal_strlit("responses");
    assert("chat-completions"@.len() != "responses"@.len());
}

/// The member that limits the output of a Chat Completions request.
#[derive(Clone, Copy, Debug, PartialEq, Eq, Structural)]
pub enum MaxTokensField {
    MaxTokens,
    MaxCompletionTokens,
}

/// The settings key of the policy.
pub open spec fn max_tokens_key(value: MaxTokensField) -> Seq<char> {
    match value {
        MaxTokensField::MaxTokens => "max_tokens"@,
        MaxTokensField::MaxCompletionTokens => "max_completion_tokens"@,
    }
}

/// The policy that a settings key stands for.
pub open spec fn max_tokens_of_key(key: Seq<char>) -> Option<MaxTokensField> {
    if key == "max_tokens"@ {
        Some(MaxTokensField::MaxTokens)
    } else if key == "max_completion_tokens"@ {
        Some(MaxTokensField::MaxCompletionTokens)
    } else {
        None
    }
}

impl Default for MaxTokensField {
    fn default() -> (value: Self)
        ensures
            value == MaxTokensField::MaxCompletionTokens,
    {
        MaxTokensField::MaxCompletionTokens
    }
}

impl MaxTokensField {
    pub fn as_str(self) -> (key: &'static str)
        ensures
            key@ == max_tokens_key(self),
    {
        match self {
            MaxTokensField::MaxTokens => "max_tokens",
            MaxTokensField::MaxCompletionTokens => "max_completion_tokens",
        }
    }

    pub fn from_key(value: &str) -> (result: Option<Self>)
        ensures
            result == max_tokens_of_key(value@),
    {
        if same_text(value, "max_tokens") {
            Some(MaxTokensField::MaxTokens)
        } else if same_text(value, "max_completion_tokens") {
            Some(MaxTokensField::MaxCompletionTokens)
        } else {
            None
        }
    }
}

/// Each value is read back from its key.
pub proof fn max_tokens_keys_round_trip(value: MaxTokensField)
    ensures
        max_tokens_of_key(max_tokens_key(value)) == Some(value),
{
    reveal_strlit("max_tokens");
    reveal_strlit("max_completion_tokens");
    assert("max_tokens"@.len() != "max_completion_tokens"@.len());
}

/// How system and developer messages are labelled in a Chat Completions request.
#[derive(Clone, Copy, Debug, PartialEq, Eq, Structural)]
pub enum SystemRolePolicy {
    Preserve,
    System,
    Developer,
}

/// The settings key of the policy.
pub open spec fn system_role_key(value: SystemRolePolicy) -> Seq<char> {
    match value {
        SystemRolePolicy::Preserve => "preserve"@,
        SystemRolePolicy::System => "system"@,
        SystemRolePolicy::Developer => "developer"@,
    }
}

/// The policy that a settings key stands for.
pub open spec fn system_role_of_key(key: Seq<char>) -> Option<SystemRolePolicy> {
    if key == "preserve"@ {
        Some(SystemRolePolicy::Preserve)
    } else if key == "system"@ {
        Some(SystemRolePolicy::System)
    } else if key == "developer"@ {
        Some(SystemRolePolicy::Developer)
    } else {
        None
    }
}

impl Default for SystemRolePolicy {
    fn default() -> (value: Self)
        ensures
            value == SystemRolePolicy::Preserve,
    {
        SystemRolePolicy::Preserve
    }
}

impl SystemRolePolicy {
    pub fn as_str(self) -> (key: &'static str)
        ensures
            key@ == system_role_key(self),
    {
        match self {
            SystemRolePolicy::Preserve => "preserve",
            SystemRolePolicy::System => "system",
            SystemRolePolicy::Developer => "developer",
        }
    }

    pub fn from_key(value: &str) -> (result: Option<Self>)
        ensures
            result == system_role_of_key(value@),
    {
        if same_text(value, "preserve") {
            Some(SystemRolePolicy::Preserve)
        } else if same_text(value, "system") {
            Some(SystemRolePolicy::System)
        } else if same_text(value, "developer") {
            Some(SystemRolePolicy::Developer)
        } else {
            None
        }
    }
}

/// Each value is read back from its key.
pub proof fn system_role_keys_round_trip(value: SystemRolePolicy)
    ensures
        system_role_of_key(system_role_key(value)) == Some(value),
{
    reveal_strlit("preserve");
    reveal_strlit("system");
    reveal_strlit("developer");
    assert("preserve"@.len() != "system"@.len());
    assert("preserve"@.len() != "developer"@.len());
    assert("system"@.len() != "developer"@.len());
}

/// Which member of a Chat Completions delta carries reasoning text.
#[derive(Clone, Copy, Debug, PartialEq, Eq, Structural)]
pub enum ReasoningField {
    Auto,
    ReasoningContent,
    Reasoning,
    ReasoningText,
}

/// The settings key of the policy.
pub open spec fn reasoning_field_key(value: ReasoningField) -> Seq<char> {
    match value {
        ReasoningField::Auto => "auto"@,
        ReasoningField::ReasoningContent => "reasoning_content"@,
        ReasoningField::Reasoning => "reasoning"@,
        ReasoningField::ReasoningText => "reasoning_text"@,
    }
}

/// The policy that a settings key stands for.
pub open spec fn reasoning_field_of_key(key: Seq<char>) -> Option<ReasoningField> {
    if key == "auto"@ {
        Some(ReasoningField::Auto)
    } else if key == "reasoning_content"@ {
        Some(ReasoningField::ReasoningContent)
    } else if key == "reasoning"@ {
        Some(ReasoningField::Reasoning)
    } else if key == "reasoning_text"@ {
        Some(ReasoningField::ReasoningText)
    } else {
        None
    }
}

impl Default for ReasoningField {
    fn default() -> (value: Self)
        ensures
            value == ReasoningField::Auto,
    {
        ReasoningField::Auto
    }
}

impl ReasoningField {
    pub fn as_str(self) -> (key: &'static str)
        ensures
            key@ == reasoning_field_key(self),
    {
        match self {
            ReasoningField::Auto => "auto",
            ReasoningField::ReasoningContent => "reasoning_content",
            ReasoningField::Reasoning => "reasoning",
            ReasoningField::ReasoningText => "reasoning_text",
        }
    }

    pub fn from_key(value: &str) -> (result: Option<Self>)
        ensures
            result == reasoning_field_of_key(value@),
    {
        if same_text(value, "auto") {
            Some(ReasoningField::Auto)
        } else if same_text(value, "reasoning_content") {
            Some(ReasoningField::ReasoningContent)
        } else if same_text(value, "reasoning") {
            Some(ReasoningField::Reasoning)
        } else if same_text(value, "reasoning_text") {
            Some(ReasoningField::ReasoningText)
        } else {
            None
        }
    }
}

/// Each value is read back from its key.
pub proof fn reasoning_field_keys_round_trip(value: ReasoningField)
    ensures
        reasoning_field_of_key(reasoning_field_key(value)) == Some(value),
{
    reveal_strlit("auto");
    reveal_strlit("reasoning_content");
    reveal_strlit("reasoning");
    reveal_strlit("reasoning_text");
    assert("auto"@.len() != "reasoning_content"@.len());
    assert("auto"@.len() != "reasoning"@.len());
    assert("reasoning_content"@.len() != "reasoning"@.len());
    assert("auto"@.len() != "reasoning_text"@.len());
    assert("reasoning_content"@.len() != "reasoning_text"@.len());
    assert("reasoning"@.len() != "reasoning_text"@.len());
}

/// Where system and developer messages go in a Responses request.
#[derive(Clone, Copy, Debug, PartialEq, Eq, Structural)]
pub enum ResponsesInstructionsPolicy {
    TopLevel,
    InputItems,
}

/// The settings key of the policy.
pub open spec fn instructions_key(value: ResponsesInstructionsPolicy) -> Seq<char> {
    match value {
        ResponsesInstructionsPolicy::TopLevel => "top_level"@,
        ResponsesInstructionsPolicy::InputItems => "input_items"@,
    }
}

/// The policy that a settings key stands for.
pub open spec fn instructions_of_key(key: Seq<char>) -> Option<ResponsesInstructionsPolicy> {
    if key == "top_level"@ {
        Some(ResponsesInstructionsPolicy::TopLevel)
    } else if key == "input_items"@ {
        Some(ResponsesInstructionsPolicy::InputItems)
    } else {
        None
    }
}

impl Default for ResponsesInstructionsPolicy {
    fn default() -> (value: Self)
        ensures
            value == ResponsesInstructionsPolicy::TopLevel,
    {
        ResponsesInstructionsPolicy::TopLevel
    }
}

impl ResponsesInstructionsPolicy {
    pub fn as_str(self) -> (key: &'static str)
        ensures
            key@ == instructions_key(self),
    {
        match self {
            ResponsesInstructionsPolicy::TopLevel => "top_level",
            ResponsesInstructionsPolicy::InputItems => "input_items",
        }
    }

    pub fn from_key(value: &str) -> (result: Option<Self>)
        ensures
            result == instructions_of_key(value@),
    {
        if same_text(value, "top_level") {
            Some(ResponsesInstructionsPolicy::TopLevel)
        } else if same_text(value, "input_items") {
            Some(ResponsesInstructionsPolicy::InputItems)
        } else {
            None
        }
    }
}

/// Each value is read back from its key.
pub proof fn instructions_keys_round_trip(value: ResponsesInstructionsPolicy)
    ensures
        instructions_of_key(instructions_key(value)) == Some(value),
{
    reveal_strlit("top_level");
    reveal_strlit("input_items");
    assert("top_level"@.len() != "input_items"@.len());
}
/// The path of the wire API below a provider's base URL.
pub open spec fn endpoint(protocol: Protocol) -> Seq<char> {
    match protocol {
        Protocol::ChatCompletions => "/chat/completions"@,
        Protocol::Responses => "/responses"@,
    }
}

/// How a provider differs from the wire API that it implements.
#[derive(Clone, Copy, Debug, PartialEq, Eq, Structural)]
pub struct CompatibilityProfile {
    pub max_tokens_field: MaxTokensField,
    pub system_role: SystemRolePolicy,
    pub reasoning_field: ReasoningField,
    pub include_stream_usage: bool,
    pub allow_nullable_tool_fields: bool,
    pub allow_object_tool_arguments: bool,
    pub responses_instructions: ResponsesInstructionsPolicy,
    pub responses_store: bool,
    pub responses_include_encrypted_reasoning: bool,
}

/// The profile of a provider that follows the wire API.
pub open spec fn standard_compatibility() -> CompatibilityProfile {
    CompatibilityProfile {
        max_tokens_field: MaxTokensField::MaxCompletionTokens,
        system_role: SystemRolePolicy::Preserve,
        reasoning_field: ReasoningField::Auto,
        include_stream_usage: true,
        allow_nullable_tool_fields: true,
        allow_object_tool_arguments: true,
        responses_instructions: ResponsesInstructionsPolicy::TopLevel,
        responses_store: false,
        responses_include_encrypted_reasoning: true,
    }
}

impl Default for CompatibilityProfile {
    fn default() -> (profile: Self)
        ensures
            profile == standard_compatibility(),
    {
        CompatibilityProfile {
            max_tokens_field: MaxTokensField::MaxCompletionTokens,
            system_role: SystemRolePolicy::Preserve,
            reasoning_field: ReasoningField::Auto,
            include_stream_usage: true,
            allow_nullable_tool_fields: true,
            allow_object_tool_arguments: true,
            responses_instructions: ResponsesInstructionsPolicy::TopLevel,
            responses_store: false,
            responses_include_encrypted_reasoning: true,
        }
    }
}

/// Whether a stream ended well.
#[derive(Clone, Copy, Debug, PartialEq, Eq, Structural)]
pub enum ProtocolTerminalStatus {
    Completed,
    Failed,
}

/// How a provider ended a stream.
#[derive(PartialEq)]
pub struct ProtocolTerminal {
    pub status: ProtocolTerminalStatus,
    pub finish_reason: FinishReason,
    pub usage: Usage,
    pub response_id: Option<String>,
    pub upstream_model: Option<String>,
    pub provider_metadata: ProviderMetadata,
    pub error: Option<GatewayError>,
}

/// What a [`ProtocolTerminal`] stands for.
pub struct ProtocolTerminalModel {
    pub status: ProtocolTerminalStatus,
    pub finish_reason: FinishReasonModel,
    pub usage: Usage,
    pub response_id: Option<Seq<char>>,
    pub upstream_model: Option<Seq<char>>,
    pub provider_metadata: ProviderMetadataModel,
    pub error: Option<GatewayErrorModel>,
}

impl DeepView for ProtocolTerminal {
    type V = ProtocolTerminalModel;

    open spec fn deep_view(&self) -> ProtocolTerminalModel {
        ProtocolTerminalModel {
            status: self.status,
            finish_reason: self.finish_reason.deep_view(),
            usage: self.usage,
            response_id: self.response_id.deep_view(),
            upstream_model: self.upstream_model.deep_view(),
            provider_metadata: self.provider_metadata.deep_view(),
            error: self.error.deep_view(),
        }
    }
}

impl Clone for ProtocolTerminal {
    fn clone(&self) -> (copy: Self)
        ensures
            copy.deep_view() == self.deep_view(),
    {
        ProtocolTerminal {
            status: self.status,
            finish_reason: self.finish_reason.clone(),
            usage: self.usage,
            response_id: self.response_id.clone(),
            upstream_model: self.upstream_model.clone(),
            provider_metadata: self.provider_metadata.clone(),
            error: self.error.clone(),
        }
    }
}

/// What one frame of a stream amounts to.
#[derive(PartialEq)]
pub struct ProtocolUpdate {
    pub events: Vec<GenerationEvent>,
    pub terminal: Option<ProtocolTerminal>,
}

/// What a [`ProtocolUpdate`] stands for.
pub struct ProtocolUpdateModel {
    pub events: Seq<GenerationEventModel>,
    pub terminal: Option<ProtocolTerminalModel>,
}

impl DeepView for ProtocolUpdate {
    type V = ProtocolUpdateModel;

    open spec fn deep_view(&self) -> ProtocolUpdateModel {
        ProtocolUpdateModel {
            events: self.events.deep_view(),
            terminal: self.terminal.deep_view(),
        }
    }
}

impl Clone for ProtocolUpdate {
    fn clone(&self) -> (copy: Self)
        ensures
            copy.deep_view() == self.deep_view(),
    {
        let copy = ProtocolUpdate {
            events: self.events.clone(),
            terminal: self.terminal.clone(),
        };
        proof {
            assert(copy.events.deep_view() =~= self.events.deep_view());
        }
        copy
    }
}

impl ProtocolUpdate {
    /// Events of a stream that goes on.
    pub fn events(events: Vec<GenerationEvent>) -> (update: Self)
        ensures
            update.deep_view() == (ProtocolUpdateModel {
                events: events.deep_view(),
                terminal: None,
            }),
    {
        ProtocolUpdate { events, terminal: None }
    }
}

/// Whether a message of the role may hold the block.
pub open spec fn role_holds(role: Role, block: ContentBlockModel) -> bool {
    match block {
        ContentBlockModel::Text { .. } => role != Role::Tool,
        ContentBlockModel::Reasoning { .. } => role == Role::Assistant,
        ContentBlockModel::ToolCall { .. } => role == Role::Assistant,
        ContentBlockModel::ToolResult { .. } => role == Role::Tool,
    }
}

/// Whether every block stands in a message whose role supports it.
pub open spec fn valid_messages(messages: Seq<MessageModel>) -> bool {
    forall|i: int, j: int|
        0 <= i < messages.len() && 0 <= j < messages[i].content.len() ==> role_holds(
            messages[i].role,
            #[trigger] messages[i].content[j],
        )
}

pub open spec fn unsupported_block_error() -> GatewayErrorModel {
    protocol_error("message role does not support its content block"@)
}

pub fn validate_messages(messages: &Vec<Message>) -> (result: Result<(), GatewayError>)
    ensures
        match result {
            Ok(()) => valid_messages(messages.deep_view()),
            Err(error) => !valid_messages(messages.deep_view()) && error.deep_view()
                == unsupported_block_error(),
        },
{
    let ghost all = messages.deep_view();
    let mut i: usize = 0;
    while i < messages.len()
        invariant
            all == messages.deep_view(),
            i <= messages.len(),
            forall|k: int, j: int|
                0 <= k < i && 0 <= j < all[k].content.len() ==> role_holds(
                    all[k].role,
                    #[trigger] all[k].content[j],
                ),
        decreases messages.len() - i,
    {
        let message = &messages[i];
        let mut j: usize = 0;
        while j < message.content.len()
            invariant
                all == messages.deep_view(),
                i < messages.len(),
                *message == messages@[i as int],
                all[i as int] == message.deep_view(),
                j <= message.content.len(),
                forall|k: int| 0 <= k < j ==> role_holds(message.role, #[trigger] all[i as int].content[k]),
            decreases message.content.len() - j,
        {
            let valid = match (&message.content[j], message.role) {
                (ContentBlock::Text { .. }, Role::Tool) => false,
                (ContentBlock::Text { .. }, _) => true,
                (ContentBlock::Reasoning { .. }, Role::Assistant) => true,
                (ContentBlock::ToolCall { .. }, Role::Assistant) => true,
                (ContentBlock::ToolResult { .. }, Role::Tool) => true,
                _ => false,
            };
            proof {
                assert(all[i as int].content[j as int] == message.content@[j as int].deep_view());
            }
            if !valid {
                return Err(GatewayError::protocol("message role does not support its content block"));
            }
            j += 1;
        }
        i += 1;
    }
    Ok(())
}

/// A session of either wire API.
pub enum ProtocolSession {
    Chat(ChatCompletionsSession),
    Responses(ResponsesSession),
}

/// What a [`ProtocolSession`] stands for.
pub enum ProtocolModel {
    Chat(ChatModel),
    Responses(ResponsesModel),
}

impl DeepView for ProtocolSession {
    type V = ProtocolModel;

    open spec fn deep_view(&self) -> ProtocolModel {
        match self {
            ProtocolSession::Chat(session) => ProtocolModel::Chat(session.deep_view()),
            ProtocolSession::Responses(session) => ProtocolModel::Responses(session.deep_view()),
        }
    }
}

/// The session before its stream begins.
pub open spec fn fresh_session(
    protocol: Protocol,
    compatibility: CompatibilityProfile,
) -> ProtocolModel {
    match protocol {
        Protocol::ChatCompletions => ProtocolModel::Chat(
            chat_completions::model::fresh(compatibility),
        ),
        Protocol::Responses => ProtocolModel::Responses(responses::model::fresh(compatibility)),
    }
}

/// The body of a request, or why there is none.
pub open spec fn encoded_request(session: ProtocolModel, request: GenerateRequestModel) -> Result<
    JsonModel,
    GatewayErrorModel,
> {
    match session {
        ProtocolModel::Chat(chat) => chat_completions::encoding::encoded_request(
            chat.compatibility,
            request,
        ),
        ProtocolModel::Responses(responses) => responses::encoding::encoded_request(
            responses.compatibility,
            request,
        ),
    }
}

/// The session after a frame, and what the frame amounts to.
pub open spec fn ingested(session: ProtocolModel, data: Seq<char>) -> (
    ProtocolModel,
    Result<ProtocolUpdateModel, GatewayErrorModel>,
) {
    match session {
        ProtocolModel::Chat(chat) => {
            let step = chat_completions::model::ingest(chat, data);
            (ProtocolModel::Chat(step.state), step.result)
        },
        ProtocolModel::Responses(responses) => {
            let step = responses::model::ingest(responses, data);
            (ProtocolModel::Responses(step.state), step.result)
        },
    }
}

/// The session after the end of its stream, and what the end amounts to.
pub open spec fn ended(session: ProtocolModel) -> (
    ProtocolModel,
    Result<Option<ProtocolTerminalModel>, GatewayErrorModel>,
) {
    match session {
        ProtocolModel::Chat(chat) => {
            let (last, result) = chat_completions::model::finish_eof(chat);
            (ProtocolModel::Chat(last), result)
        },
        ProtocolModel::Responses(responses) => (
            session,
            if responses.terminal {
                Ok(None)
            } else {
                Err(protocol_error("Responses stream ended without response.completed"@))
            },
        ),
    }
}

/// The model of a result.
pub open spec fn result_model<T: DeepView>(result: Result<T, GatewayError>) -> Result<
    T::V,
    GatewayErrorModel,
> {
    match result {
        Ok(value) => Ok(value.deep_view()),
        Err(error) => Err(error.deep_view()),
    }
}

impl ProtocolSession {
    pub fn new(protocol: Protocol, compatibility: CompatibilityProfile) -> (session: Self)
        ensures
            session.deep_view() == fresh_session(protocol, compatibility),
    {
        match protocol {
            Protocol::ChatCompletions => ProtocolSession::Chat(
                ChatCompletionsSession::new(compatibility),
            ),
            Protocol::Responses => ProtocolSession::Responses(ResponsesSession::new(compatibility)),
        }
    }

    pub fn encode_request(&self, request: &GenerateRequest) -> (result: Result<Json, GatewayError>)
        ensures
            result_model(result) == encoded_request(self.deep_view(), request.deep_view()),
    {
        match self {
            ProtocolSession::Chat(session) => session.encode_request(request),
            ProtocolSession::Responses(session) => session.encode_request(request),
        }
    }

    pub fn ingest_sse_data(&mut self, data: &str) -> (result: Result<ProtocolUpdate, GatewayError>)
        ensures
            (final(self).deep_view(), result_model(result)) == ingested(
                old(self).deep_view(),
                data@,
            ),
    {
        match self {
            ProtocolSession::Chat(session) => session.ingest(data),
            ProtocolSession::Responses(session) => session.ingest(data),
        }
    }

    pub fn finish_eof(&mut self) -> (result: Result<Option<ProtocolTerminal>, GatewayError>)
        ensures
            (final(self).deep_view(), result_model(result)) == ended(old(self).deep_view()),
    {
        match self {
            ProtocolSession::Chat(session) => session.finish_eof(),
            ProtocolSession::Responses(session) => session.finish_eof(),
        }
    }
}

/// Whether a block can stand in a message of a role: tool results in those of the tools and
/// nothing else there, reasoning and tool calls in those of the assistant, text in all others.
pub open spec fn belongs(role: Role, block: ContentBlockModel) -> bool {
    &&& role == Role::Tool <==> block is ToolResult
    &&& block is Reasoning || block is ToolCall ==> role == Role::Assistant
}

/// A request is refused exactly where it names no model or holds a block in a message of a role
/// that the block does not belong to.
pub proof fn odd_requests_are_refused(session: ProtocolModel, request: GenerateRequestModel)
    ensures
        encoded_request(session, request) is Ok <==> {
            &&& exists|i: int|
                0 <= i < request.model.len() && !is_white_space(#[trigger] request.model[i])
            &&& forall|i: int, j: int|
                0 <= i < request.messages.len() && 0 <= j < request.messages[i].content.len()
                    ==> belongs(request.messages[i].role, #[trigger] request.messages[i].content[j])
        },
        encoded_request(session, request) is Err ==> encoded_request(session, request)->Err_0.kind
            == ErrorKind::Protocol,
{
    let messages = request.messages;
    assert forall|i: int, j: int|
        0 <= i < messages.len() && 0 <= j < messages[i].content.len() implies role_holds(
        messages[i].role,
        #[trigger] messages[i].content[j],
    ) == belongs(messages[i].role, messages[i].content[j]) by {}
    if valid_messages(messages) {
        assert forall|i: int, j: int|
            0 <= i < messages.len() && 0 <= j < messages[i].content.len() implies belongs(
            messages[i].role,
            #[trigger] messages[i].content[j],
        ) by {
            assert(role_holds(messages[i].role, messages[i].content[j]));
        }
    }
}

/// Each protocol is spoken at its own path.
pub proof fn protocols_have_their_paths()
    ensures
        endpoint(Protocol::ChatCompletions) == "/chat/completions"@,
        endpoint(Protocol::Responses) == "/responses"@,
{
}

/// A session speaks the protocol that it was made for.
pub proof fn sessions_speak_their_protocol(
    protocol: Protocol,
    compatibility: CompatibilityProfile,
)
    ensures
        match fresh_session(protocol, compatibility) {
            ProtocolModel::Chat(chat) => protocol == Protocol::ChatCompletions
                && chat.compatibility == compatibility && !chat.terminal,
            ProtocolModel::Responses(responses) => protocol == Protocol::Responses
                && responses.compatibility == compatibility && !responses.terminal,
        },
{
}

/// The keys of the settings file.
pub proof fn settings_have_their_keys()
    ensures
        protocol_key(Protocol::ChatCompletions) == "chat-completions"@,
        protocol_key(Protocol::Responses) == "responses"@,
        max_tokens_key(MaxTokensField::MaxTokens) == "max_tokens"@,
        max_tokens_key(MaxTokensField::MaxCompletionTokens) == "max_completion_tokens"@,
        system_role_key(SystemRolePolicy::Preserve) == "preserve"@,
        system_role_key(SystemRolePolicy::System) == "system"@,
        system_role_key(SystemRolePolicy::Developer) == "developer"@,
        reasoning_field_key(ReasoningField::Auto) == "auto"@,
        reasoning_field_key(ReasoningField::ReasoningContent) == "reasoning_content"@,
        reasoning_field_key(ReasoningField::Reasoning) == "reasoning"@,
        reasoning_field_key(ReasoningField::ReasoningText) == "reasoning_text"@,
        instructions_key(ResponsesInstructionsPolicy::TopLevel) == "top_level"@,
        instructions_key(ResponsesInstructionsPolicy::InputItems) == "input_items"@,
{
}

/// A key that is none of those of a policy names no policy.
pub proof fn other_keys_name_nothing(key: Seq<char>)
    ensures
        protocol_of_key(key) is Some <==> key == "chat-completions"@ || key == "responses"@,
        max_tokens_of_key(key) is Some <==> key == "max_tokens"@ || key
            == "max_completion_tokens"@,
        system_role_of_key(key) is Some <==> key == "preserve"@ || key == "system"@ || key
            == "developer"@,
        reasoning_field_of_key(key) is Some <==> key == "auto"@ || key == "reasoning_content"@
            || key == "reasoning"@ || key == "reasoning_text"@,
        instructions_of_key(key) is Some <==> key == "top_level"@ || key == "input_items"@,
{
}

} // verus!
