//! Turns and their parts.

use vstd::prelude::*;

use crate::llm;
use crate::llm::error::{GatewayError, GatewayErrorModel};
use crate::llm::model::{
    no_metadata, ContentBlock, ContentBlockModel, Message, MessageModel, ProviderMetadata,
    ProviderMetadataModel, ReasoningContent, ReasoningContentModel, ToolCall, ToolCallModel,
    ToolResult, ToolResultModel,
};
use crate::text::{decimal, decimal_digits, joined, same_text};

verus! {

broadcast use crate::deep::group_models;

/// Identifies a turn within a transcript.
#[derive(Clone, Copy, Debug, PartialEq, Eq, Hash, PartialOrd, Ord, Structural)]
pub struct TurnId(pub u64);

impl TurnId {
    #[must_use]
    pub fn as_u64(self) -> (value: u64)
        ensures
            value == self.0,
    {
        self.0
    }
}

impl DeepView for TurnId {
    type V = TurnId;

    open spec fn deep_view(&self) -> TurnId {
        *self
    }
}

/// Identifies a part within a transcript.
#[derive(Clone, Copy, Debug, PartialEq, Eq, Hash, PartialOrd, Ord, Structural)]
pub struct PartId(pub u64);

impl PartId {
    #[must_use]
    pub fn as_u64(self) -> (value: u64)
        ensures
            value == self.0,
    {
        self.0
    }

    /// Stands in for a part where something belongs to a whole turn.
    #[must_use]
    pub fn none() -> (id: PartId)
        ensures
            id == PartId(0),
    {
        PartId(0)
    }
}

/// Who a turn comes from.
#[derive(Clone, Copy, Debug, PartialEq, Eq, Structural)]
pub enum Role {
    User,
    Assistant,
    Tool,
}

/// The role that a message has in a transcript.
pub open spec fn role_of(role: llm::model::Role) -> Role {
    match role {
        llm::model::Role::Assistant => Role::Assistant,
        llm::model::Role::Tool => Role::Tool,
        _ => Role::User,
    }
}

/// The role that a turn has in a request.
pub open spec fn llm_role_of(role: Role) -> llm::model::Role {
    match role {
        Role::User => llm::model::Role::User,
        Role::Assistant => llm::model::Role::Assistant,
        Role::Tool => llm::model::Role::Tool,
    }
}

impl Role {
    #[must_use]
    pub fn from_llm(role: llm::model::Role) -> (result: Role)
        ensures
            result == role_of(role),
    {
        match role {
            llm::model::Role::Assistant => Role::Assistant,
            llm::model::Role::Tool => Role::Tool,
            llm::model::Role::User
            | llm::model::Role::System
            | llm::model::Role::Developer => Role::User,
        }
    }

    #[must_use]
    pub fn to_llm(self) -> (result: llm::model::Role)
        ensures
            result == llm_role_of(self),
    {
        match self {
            Role::User => llm::model::Role::User,
            Role::Assistant => llm::model::Role::Assistant,
            Role::Tool => llm::model::Role::Tool,
        }
    }
}

/// A role goes into a request and comes back the same.
pub proof fn roles_round_trip(role: Role)
    ensures
        role_of(llm_role_of(role)) == role,
{
}

/// What a part is.
#[derive(Clone, Copy, Debug, PartialEq, Eq, Structural)]
pub enum PartKind {
    Prose,
    Reasoning,
    ToolCall,
    ToolResult,
}

/// The content of a part.
#[derive(PartialEq)]
pub enum PartSource {
    Prose { text: String, replay: ProviderMetadata, stream_id: String },
    Reasoning { reasoning: ReasoningContent, stream_id: String },
    ToolCall { index: usize, id: String, name: String, tool_call: Option<ToolCall> },
    ToolResult(ToolResult),
}

/// What a [`PartSource`] stands for.
pub enum PartSourceModel {
    Prose { text: Seq<char>, replay: ProviderMetadataModel, stream_id: Seq<char> },
    Reasoning { reasoning: ReasoningContentModel, stream_id: Seq<char> },
    ToolCall { index: usize, id: Seq<char>, name: Seq<char>, tool_call: Option<ToolCallModel> },
    ToolResult(ToolResultModel),
}

impl DeepView for PartSource {
    type V = PartSourceModel;

    open spec fn deep_view(&self) -> PartSourceModel {
        match self {
            PartSource::Prose { text, replay, stream_id } => PartSourceModel::Prose {
                text: text@,
                replay: replay.deep_view(),
                stream_id: stream_id@,
            },
            PartSource::Reasoning { reasoning, stream_id } => PartSourceModel::Reasoning {
                reasoning: reasoning.deep_view(),
                stream_id: stream_id@,
            },
            PartSource::ToolCall { index, id, name, tool_call } => PartSourceModel::ToolCall {
                index: *index,
                id: id@,
                name: name@,
                tool_call: tool_call.deep_view(),
            },
            PartSource::ToolResult(value) => PartSourceModel::ToolResult(value.deep_view()),
        }
    }
}

impl Clone for PartSource {
    fn clone(&self) -> (copy: Self)
        ensures
            copy.deep_view() == self.deep_view(),
    {
        match self {
            PartSource::Prose { text, replay, stream_id } => PartSource::Prose {
                text: text.clone(),
                replay: replay.clone(),
                stream_id: stream_id.clone(),
            },
            PartSource::Reasoning { reasoning, stream_id } => PartSource::Reasoning {
                reasoning: reasoning.clone(),
                stream_id: stream_id.clone(),
            },
            PartSource::ToolCall { index, id, name, tool_call } => PartSource::ToolCall {
                index: *index,
                id: id.clone(),
                name: name.clone(),
                tool_call: tool_call.clone(),
            },
            PartSource::ToolResult(value) => PartSource::ToolResult(value.clone()),
        }
    }
}

/// A part of a turn. `content_index` is the slot that it streamed in.
#[derive(PartialEq)]
pub struct Part {
    pub part_id: PartId,
    pub content_index: usize,
    pub source: PartSource,
    pub finished: bool,
}

/// What a [`Part`] stands for.
pub struct PartModel {
    pub part_id: PartId,
    pub content_index: usize,
    pub source: PartSourceModel,
    pub finished: bool,
}

impl DeepView for Part {
    type V = PartModel;

    open spec fn deep_view(&self) -> PartModel {
        PartModel {
            part_id: self.part_id,
            content_index: self.content_index,
            source: self.source.deep_view(),
            finished: self.finished,
        }
    }
}

impl Clone for Part {
    fn clone(&self) -> (copy: Self)
        ensures
            copy.deep_view() == self.deep_view(),
    {
        Part {
            part_id: self.part_id,
            content_index: self.content_index,
            source: self.source.clone(),
            finished: self.finished,
        }
    }
}

/// A turn of a conversation.
#[derive(PartialEq)]
pub struct Turn {
    pub turn_id: TurnId,
    pub role: Role,
    pub parts: Vec<Part>,
    pub error: Option<GatewayError>,
    pub provider_metadata: ProviderMetadata,
}

/// What a [`Turn`] stands for.
pub struct TurnModel {
    pub turn_id: TurnId,
    pub role: Role,
    pub parts: Seq<PartModel>,
    pub error: Option<GatewayErrorModel>,
    pub provider_metadata: ProviderMetadataModel,
}

impl DeepView for Turn {
    type V = TurnModel;

    open spec fn deep_view(&self) -> TurnModel {
        TurnModel {
            turn_id: self.turn_id,
            role: self.role,
            parts: self.parts.deep_view(),
            error: self.error.deep_view(),
            provider_metadata: self.provider_metadata.deep_view(),
        }
    }
}

impl Clone for Turn {
    fn clone(&self) -> (copy: Self)
        ensures
            copy.deep_view() == self.deep_view(),
    {
        let copy = Turn {
            turn_id: self.turn_id,
            role: self.role,
            parts: self.parts.clone(),
            error: self.error.clone(),
            provider_metadata: self.provider_metadata.clone(),
        };
        proof {
            assert(copy.parts.deep_view() =~= self.parts.deep_view());
        }
        copy
    }
}

pub open spec fn kind_of(source: PartSourceModel) -> PartKind {
    match source {
        PartSourceModel::Prose { .. } => PartKind::Prose,
        PartSourceModel::Reasoning { .. } => PartKind::Reasoning,
        PartSourceModel::ToolCall { .. } => PartKind::ToolCall,
        PartSourceModel::ToolResult(_) => PartKind::ToolResult,
    }
}

impl PartSource {
    #[must_use]
    pub fn kind(&self) -> (kind: PartKind)
        ensures
            kind == kind_of(self.deep_view()),
    {
        match self {
            PartSource::Prose { .. } => PartKind::Prose,
            PartSource::Reasoning { .. } => PartKind::Reasoning,
            PartSource::ToolCall { .. } => PartKind::ToolCall,
            PartSource::ToolResult(_) => PartKind::ToolResult,
        }
    }

    #[must_use]
    pub fn prose_text(&self) -> (text: Option<&str>)
        ensures
            text.deep_view() == (match self.deep_view() {
                PartSourceModel::Prose { text, .. } => Some(text),
                _ => None,
            }),
    {
        match self {
            PartSource::Prose { text, .. } => Some(text.as_str()),
            _ => None,
        }
    }
}

/// The part that a block of a complete message becomes.
pub open spec fn part_of_block(
    content_index: usize,
    block: ContentBlockModel,
    part_id: PartId,
) -> PartModel {
    let source = match block {
        ContentBlockModel::Text { text, provider_metadata } => PartSourceModel::Prose {
            text,
            replay: provider_metadata,
            stream_id: "terminal-text-"@ + decimal_digits(content_index as nat),
        },
        ContentBlockModel::Reasoning { reasoning } => PartSourceModel::Reasoning {
            reasoning,
            stream_id: "terminal-reasoning-"@ + decimal_digits(content_index as nat),
        },
        ContentBlockModel::ToolCall { tool_call } => PartSourceModel::ToolCall {
            index: content_index,
            id: tool_call.id,
            name: tool_call.name,
            tool_call: Some(tool_call),
        },
        ContentBlockModel::ToolResult { tool_result } => PartSourceModel::ToolResult(tool_result),
    };
    PartModel { part_id, content_index, source, finished: true }
}

/// The block that a part contributes to a message. What is empty, and a call that did not finish,
/// contribute nothing.
pub open spec fn canonical_of(source: PartSourceModel) -> Option<ContentBlockModel> {
    match source {
        PartSourceModel::Prose { text, replay, .. } => if text.len() == 0 {
            None
        } else {
            Some(ContentBlockModel::Text { text, provider_metadata: replay })
        },
        PartSourceModel::Reasoning { reasoning, .. } => if reasoning.display.len() == 0
            && reasoning.replay.is_none() {
            None
        } else {
            Some(ContentBlockModel::Reasoning { reasoning })
        },
        PartSourceModel::ToolCall { tool_call, .. } => match tool_call {
            Some(tool_call) => Some(ContentBlockModel::ToolCall { tool_call }),
            None => None,
        },
        PartSourceModel::ToolResult(tool_result) => Some(
            ContentBlockModel::ToolResult { tool_result },
        ),
    }
}

/// Whether a block is anything to keep: a text or reasoning that holds something, or a call or its
/// result.
pub open spec fn is_content(block: ContentBlockModel) -> bool {
    match block {
        ContentBlockModel::Text { text, .. } => text.len() > 0,
        ContentBlockModel::Reasoning { reasoning } => reasoning.display.len() > 0
            || reasoning.replay.is_some(),
        _ => true,
    }
}

/// A part gives back the block that it was made from, unless that block is empty.
pub proof fn parts_give_their_blocks_back(
    content_index: usize,
    block: ContentBlockModel,
    part_id: PartId,
)
    ensures
        canonical_of(part_of_block(content_index, block, part_id).source) == if is_content(block) {
            Some(block)
        } else {
            None
        },
{
}

/// What a part of a stream is found by.
pub enum PartQuery<'a> {
    Text(usize, &'a str),
    Reasoning(usize, &'a str),
    ToolCall(usize),
    ToolCallIndex(usize, usize),
}

/// What a [`PartQuery`] stands for.
pub enum PartQueryModel {
    Text(usize, Seq<char>),
    Reasoning(usize, Seq<char>),
    ToolCall(usize),
    ToolCallIndex(usize, usize),
}

impl<'a> DeepView for PartQuery<'a> {
    type V = PartQueryModel;

    open spec fn deep_view(&self) -> PartQueryModel {
        match self {
            PartQuery::Text(content_index, id) => PartQueryModel::Text(*content_index, id@),
            PartQuery::Reasoning(content_index, id) => PartQueryModel::Reasoning(
                *content_index,
                id@,
            ),
            PartQuery::ToolCall(content_index) => PartQueryModel::ToolCall(*content_index),
            PartQuery::ToolCallIndex(content_index, index) => PartQueryModel::ToolCallIndex(
                *content_index,
                *index,
            ),
        }
    }
}

/// Whether a part is the one that a query asks for. Texts and reasoning are found by their slot
/// and their stream, calls by their slot.
pub open spec fn is_asked(part: PartModel, query: PartQueryModel) -> bool {
    match (part.source, query) {
        (PartSourceModel::Prose { stream_id, .. }, PartQueryModel::Text(content_index, id)) => {
            part.content_index == content_index && stream_id == id
        },
        (
            PartSourceModel::Reasoning { stream_id, .. },
            PartQueryModel::Reasoning(content_index, id),
        ) => part.content_index == content_index && stream_id == id,
        (PartSourceModel::ToolCall { .. }, PartQueryModel::ToolCall(content_index)) => {
            part.content_index == content_index
        },
        (
            PartSourceModel::ToolCall { index, .. },
            PartQueryModel::ToolCallIndex(content_index, asked),
        ) => part.content_index == content_index && index == asked,
        _ => false,
    }
}

/// The first part that a query asks for, from position `start` on, or the number of parts.
pub open spec fn part_position(parts: Seq<PartModel>, query: PartQueryModel, start: int) -> int
    decreases parts.len() - start,
{
    if start >= parts.len() || is_asked(parts[start], query) {
        start
    } else {
        part_position(parts, query, start + 1)
    }
}

/// The position of the part that a query asks for.
#[verifier::opaque]
pub open spec fn find_part(parts: Seq<PartModel>, query: PartQueryModel) -> Option<int> {
    let at = part_position(parts, query, 0);
    if 0 <= at < parts.len() {
        Some(at)
    } else {
        None
    }
}

proof fn lemma_part_position(parts: Seq<PartModel>, query: PartQueryModel, start: int)
    requires
        0 <= start <= parts.len(),
    ensures
        start <= part_position(parts, query, start) <= parts.len(),
        part_position(parts, query, start) < parts.len() ==> is_asked(
            parts[part_position(parts, query, start)],
            query,
        ),
        forall|i: int| start <= i < part_position(parts, query, start) ==> !is_asked(
            #[trigger] parts[i],
            query,
        ),
    decreases parts.len() - start,
{
    if start < parts.len() && !is_asked(parts[start], query) {
        lemma_part_position(parts, query, start + 1);
    }
}

/// What is found is asked for, and what is not found is not there.
pub proof fn found_parts_are_asked_for(parts: Seq<PartModel>, query: PartQueryModel)
    ensures
        match find_part(parts, query) {
            Some(at) => 0 <= at < parts.len() && is_asked(parts[at], query),
            None => forall|i: int| 0 <= i < parts.len() ==> !is_asked(#[trigger] parts[i], query),
        },
{
    reveal(find_part);
    lemma_part_position(parts, query, 0);
}

pub fn seek_part(parts: &Vec<Part>, query: &PartQuery) -> (found: Option<usize>)
    ensures
        match found {
            Some(at) => find_part(parts.deep_view(), query.deep_view()) == Some(at as int) && at
                < parts@.len() && is_asked(parts.deep_view()[at as int], query.deep_view()),
            None => find_part(parts.deep_view(), query.deep_view()) is None,
        },
{
    reveal(find_part);
    let ghost all = parts.deep_view();
    let ghost asked = query.deep_view();
    let mut i: usize = 0;
    while i < parts.len()
        invariant
            all == parts.deep_view(),
            asked == query.deep_view(),
            i <= parts@.len(),
            part_position(all, asked, 0) == part_position(all, asked, i as int),
            find_part(all, asked) == (if 0 <= part_position(all, asked, 0) < all.len() {
                Some(part_position(all, asked, 0))
            } else {
                None
            }),
        decreases parts@.len() - i,
    {
        proof {
            assert(all[i as int] == parts@[i as int].deep_view());
        }
        if parts[i].is_asked(query) {
            return Some(i);
        }
        i += 1;
    }
    None
}

impl Part {
    #[must_use]
    pub fn new(part_id: PartId, content_index: usize, source: PartSource, finished: bool) -> (part:
        Self)
        ensures
            part.deep_view() == (PartModel {
                part_id,
                content_index,
                source: source.deep_view(),
                finished,
            }),
    {
        Part { part_id, content_index, source, finished }
    }

    #[must_use]
    pub fn kind(&self) -> (kind: PartKind)
        ensures
            kind == kind_of(self.deep_view().source),
    {
        self.source.kind()
    }

    /// The part that a block of a complete message becomes.
    #[must_use]
    pub fn from_block(content_index: usize, block: ContentBlock, part_id: PartId) -> (part: Self)
        ensures
            part.deep_view() == part_of_block(content_index, block.deep_view(), part_id),
    {
        let source = match block {
            ContentBlock::Text { text, provider_metadata } => PartSource::Prose {
                text,
                replay: provider_metadata,
                stream_id: joined("terminal-text-", decimal(content_index as u64).as_str()),
            },
            ContentBlock::Reasoning { reasoning } => PartSource::Reasoning {
                reasoning,
                stream_id: joined("terminal-reasoning-", decimal(content_index as u64).as_str()),
            },
            ContentBlock::ToolCall { tool_call } => PartSource::ToolCall {
                index: content_index,
                id: tool_call.id.clone(),
                name: tool_call.name.clone(),
                tool_call: Some(tool_call),
            },
            ContentBlock::ToolResult { tool_result } => PartSource::ToolResult(tool_result),
        };
        Part::new(part_id, content_index, source, true)
    }

    /// The block that the part contributes to a message.
    #[must_use]
    pub fn canonical(&self) -> (block: Option<ContentBlock>)
        ensures
            block.deep_view() == canonical_of(self.deep_view().source),
    {
        match &self.source {
            PartSource::Prose { text, replay, .. } => {
                if text.as_str().is_empty() {
                    None
                } else {
                    Some(
                        ContentBlock::Text {
                            text: text.clone(),
                            provider_metadata: replay.clone(),
                        },
                    )
                }
            },
            PartSource::Reasoning { reasoning, .. } => {
                if reasoning.display.as_str().is_empty() && reasoning.replay.is_none() {
                    None
                } else {
                    Some(ContentBlock::Reasoning { reasoning: reasoning.clone() })
                }
            },
            PartSource::ToolCall { tool_call, .. } => match tool_call {
                Some(tool_call) => Some(ContentBlock::ToolCall { tool_call: tool_call.clone() }),
                None => None,
            },
            PartSource::ToolResult(tool_result) => Some(
                ContentBlock::ToolResult { tool_result: tool_result.clone() },
            ),
        }
    }

    fn is_asked(&self, query: &PartQuery) -> (yes: bool)
        ensures
            yes == is_asked(self.deep_view(), query.deep_view()),
    {
        match query {
            PartQuery::Text(content_index, id) => self.matches_text(*content_index, id),
            PartQuery::Reasoning(content_index, id) => self.matches_reasoning(*content_index, id),
            PartQuery::ToolCall(content_index) => self.matches_tool_call(*content_index),
            PartQuery::ToolCallIndex(content_index, index) => self.matches_tool_call_index(
                *content_index,
                *index,
            ),
        }
    }

    #[must_use]
    pub fn matches_text(&self, content_index: usize, stream_id: &str) -> (yes: bool)
        ensures
            yes == is_asked(self.deep_view(), PartQueryModel::Text(content_index, stream_id@)),
    {
        match &self.source {
            PartSource::Prose { stream_id: current, .. } => self.content_index == content_index
                && same_text(current.as_str(), stream_id),
            _ => false,
        }
    }

    #[must_use]
    pub fn matches_reasoning(&self, content_index: usize, stream_id: &str) -> (yes: bool)
        ensures
            yes == is_asked(
                self.deep_view(),
                PartQueryModel::Reasoning(content_index, stream_id@),
            ),
    {
        match &self.source {
            PartSource::Reasoning { stream_id: current, .. } => self.content_index
                == content_index && same_text(current.as_str(), stream_id),
            _ => false,
        }
    }

    #[must_use]
    pub fn matches_tool_call(&self, content_index: usize) -> (yes: bool)
        ensures
            yes == is_asked(self.deep_view(), PartQueryModel::ToolCall(content_index)),
    {
        match &self.source {
            PartSource::ToolCall { .. } => self.content_index == content_index,
            _ => false,
        }
    }

    #[must_use]
    pub fn matches_tool_call_index(&self, content_index: usize, index: usize) -> (yes: bool)
        ensures
            yes == is_asked(
                self.deep_view(),
                PartQueryModel::ToolCallIndex(content_index, index),
            ),
    {
        match &self.source {
            PartSource::ToolCall { index: current, .. } => self.content_index == content_index
                && *current == index,
            _ => false,
        }
    }
}

/// The identifier after `n`, as long as there is one.
pub open spec fn next_id(n: u64) -> u64 {
    if n == u64::MAX {
        u64::MAX
    } else {
        (n + 1) as u64
    }
}

#[must_use]
pub fn allocate_turn_id(next: &mut u64) -> (id: TurnId)
    ensures
        id == TurnId(*old(next)),
        *final(next) == next_id(*old(next)),
{
    let id = TurnId(*next);
    *next = next.saturating_add(1);
    id
}

#[must_use]
pub fn allocate_part_id(next: &mut u64) -> (id: PartId)
    ensures
        id == PartId(*old(next)),
        *final(next) == next_id(*old(next)),
{
    let id = PartId(*next);
    *next = next.saturating_add(1);
    id
}

/// The parts of the blocks from position `start` on, and the next free identifier.
pub open spec fn parts_of_blocks(blocks: Seq<ContentBlockModel>, start: int, next: u64) -> (
    Seq<PartModel>,
    u64,
)
    decreases blocks.len() - start,
{
    if start < 0 || start >= blocks.len() {
        (Seq::empty(), next)
    } else {
        let (rest, last) = parts_of_blocks(blocks, start + 1, next_id(next));
        (seq![part_of_block(start as usize, blocks[start], PartId(next))] + rest, last)
    }
}

/// The turn that a message becomes.
pub open spec fn turn_of_message(message: MessageModel, turn_id: TurnId, next_part_id: u64) -> (
    TurnModel,
    u64,
) {
    let (parts, next) = parts_of_blocks(message.content, 0, next_part_id);
    (
        TurnModel {
            turn_id,
            role: role_of(message.role),
            parts,
            error: None,
            provider_metadata: message.provider_metadata,
        },
        next,
    )
}

/// A turn without content.
pub open spec fn empty_turn(role: Role, turn_id: TurnId) -> TurnModel {
    TurnModel {
        turn_id,
        role,
        parts: Seq::empty(),
        error: None,
        provider_metadata: no_metadata(),
    }
}

/// The blocks of the parts from position `start` on.
pub open spec fn canonical_blocks(parts: Seq<PartModel>, start: int) -> Seq<ContentBlockModel>
    decreases parts.len() - start,
{
    if start < 0 || start >= parts.len() {
        Seq::empty()
    } else {
        match canonical_of(parts[start].source) {
            Some(block) => seq![block] + canonical_blocks(parts, start + 1),
            None => canonical_blocks(parts, start + 1),
        }
    }
}

/// The message that a turn stands for.
pub open spec fn message_of_turn(turn: TurnModel) -> MessageModel {
    MessageModel {
        role: llm_role_of(turn.role),
        content: canonical_blocks(turn.parts, 0),
        provider_metadata: turn.provider_metadata,
    }
}

/// The blocks from position `start` on that are anything to keep.
pub open spec fn kept_blocks(blocks: Seq<ContentBlockModel>, start: int) -> Seq<ContentBlockModel>
    decreases blocks.len() - start,
{
    if start < 0 || start >= blocks.len() {
        Seq::empty()
    } else if is_content(blocks[start]) {
        seq![blocks[start]] + kept_blocks(blocks, start + 1)
    } else {
        kept_blocks(blocks, start + 1)
    }
}

proof fn lemma_blocks_round_trip(
    blocks: Seq<ContentBlockModel>,
    before: Seq<PartModel>,
    start: int,
    next: u64,
)
    requires
        0 <= start,
    ensures
        canonical_blocks(
            before + parts_of_blocks(blocks, start, next).0,
            before.len() as int,
        ) == kept_blocks(blocks, start),
    decreases blocks.len() - start,
{
    let parts = parts_of_blocks(blocks, start, next).0;
    let all = before + parts;
    if start < blocks.len() {
        let first = part_of_block(start as usize, blocks[start], PartId(next));
        let rest = parts_of_blocks(blocks, start + 1, next_id(next)).0;
        lemma_blocks_round_trip(blocks, before.push(first), start + 1, next_id(next));
        assert(before.push(first) + rest =~= all);
        assert(all[before.len() as int] == first);
        parts_give_their_blocks_back(start as usize, blocks[start], PartId(next));
    }
}

/// A message goes into a transcript and comes back with all that it holds: what is empty is left
/// out, and the roles that a transcript does not tell apart become the user's.
pub proof fn messages_round_trip(message: MessageModel, turn_id: TurnId, next_part_id: u64)
    ensures
        message_of_turn(turn_of_message(message, turn_id, next_part_id).0) == (MessageModel {
            role: llm_role_of(role_of(message.role)),
            content: kept_blocks(message.content, 0),
            provider_metadata: message.provider_metadata,
        }),
{
    lemma_blocks_round_trip(message.content, Seq::empty(), 0, next_part_id);
    let parts = parts_of_blocks(message.content, 0, next_part_id).0;
    assert(Seq::<PartModel>::empty() + parts =~= parts);
}

/// Ends the reasoning of a stream, or all reasoning.
pub open spec fn reasoning_finished(part: PartModel, stream_id: Option<Seq<char>>) -> PartModel {
    match part.source {
        PartSourceModel::Reasoning { stream_id: current, .. } => if stream_id is None || stream_id
            == Some(current) {
            PartModel { finished: true, ..part }
        } else {
            part
        },
        _ => part,
    }
}

pub open spec fn all_reasoning_finished(
    parts: Seq<PartModel>,
    stream_id: Option<Seq<char>>,
) -> Seq<PartModel> {
    Seq::new(parts.len(), |i: int| reasoning_finished(parts[i], stream_id))
}

impl Turn {
    #[must_use]
    pub fn empty(role: Role, turn_id: TurnId) -> (turn: Self)
        ensures
            turn.deep_view() == empty_turn(role, turn_id),
    {
        let turn = Turn {
            turn_id,
            role,
            parts: Vec::new(),
            error: None,
            provider_metadata: ProviderMetadata::default(),
        };
        proof {
            assert(turn.parts.deep_view() =~= Seq::<PartModel>::empty());
        }
        turn
    }

    /// The turn that a message becomes.
    #[must_use]
    pub fn from_llm(message: Message, turn_id: TurnId, next_part_id: &mut u64) -> (turn: Self)
        ensures
            (turn.deep_view(), *final(next_part_id)) == turn_of_message(
                message.deep_view(),
                turn_id,
                *old(next_part_id),
            ),
    {
        let ghost blocks = message.content.deep_view();
        let ghost all = parts_of_blocks(blocks, 0, *next_part_id);
        let mut parts: Vec<Part> = Vec::new();
        let mut i: usize = 0;
        proof {
            assert(parts.deep_view() =~= Seq::<PartModel>::empty());
            assert(Seq::<PartModel>::empty() + all.0 =~= all.0);
        }
        while i < message.content.len()
            invariant
                blocks == message.content.deep_view(),
                i <= message.content@.len(),
                parts.deep_view() + parts_of_blocks(blocks, i as int, *next_part_id).0 == all.0,
                parts_of_blocks(blocks, i as int, *next_part_id).1 == all.1,
            decreases message.content@.len() - i,
        {
            let ghost before = parts.deep_view();
            proof {
                assert(blocks[i as int] == message.content@[i as int].deep_view());
            }
            let ghost next = *next_part_id;
            let part_id = allocate_part_id(next_part_id);
            let part = Part::from_block(i, message.content[i].clone(), part_id);
            let ghost model = part.deep_view();
            parts.push(part);
            proof {
                let rest = parts_of_blocks(blocks, i + 1, next_id(next)).0;
                assert(before + (seq![model] + rest) =~= before.push(model) + rest);
            }
            i += 1;
        }
        proof {
            assert(parts.deep_view() =~= all.0);
        }
        Turn {
            turn_id,
            role: Role::from_llm(message.role),
            parts,
            error: None,
            provider_metadata: message.provider_metadata,
        }
    }

    /// The message that the turn stands for.
    #[must_use]
    pub fn to_llm(&self) -> (message: Message)
        ensures
            message.deep_view() == message_of_turn(self.deep_view()),
    {
        let ghost parts = self.parts.deep_view();
        let ghost all = canonical_blocks(parts, 0);
        let mut content: Vec<ContentBlock> = Vec::new();
        let mut i: usize = 0;
        proof {
            assert(content.deep_view() =~= Seq::<ContentBlockModel>::empty());
            assert(Seq::<ContentBlockModel>::empty() + all =~= all);
        }
        while i < self.parts.len()
            invariant
                parts == self.parts.deep_view(),
                i <= self.parts@.len(),
                content.deep_view() + canonical_blocks(parts, i as int) == all,
            decreases self.parts@.len() - i,
        {
            let ghost before = content.deep_view();
            proof {
                assert(parts[i as int] == self.parts@[i as int].deep_view());
            }
            match self.parts[i].canonical() {
                Some(block) => {
                    let ghost model = block.deep_view();
                    content.push(block);
                    proof {
                        let rest = canonical_blocks(parts, i + 1);
                        assert(before + (seq![model] + rest) =~= before.push(model) + rest);
                    }
                },
                None => {},
            }
            i += 1;
        }
        proof {
            assert(content.deep_view() =~= all);
        }
        Message {
            role: self.role.to_llm(),
            content,
            provider_metadata: self.provider_metadata.clone(),
        }
    }

    /// Ends the reasoning of a stream, or all reasoning.
    pub fn finish_reasoning(&mut self, stream_id: Option<&str>)
        ensures
            final(self).deep_view() == (TurnModel {
                parts: all_reasoning_finished(old(self).deep_view().parts, stream_id.deep_view()),
                ..old(self).deep_view()
            }),
    {
        let ghost before = self.parts.deep_view();
        let ghost goal = all_reasoning_finished(before, stream_id.deep_view());
        let mut old_parts: Vec<Part> = Vec::new();
        std::mem::swap(&mut old_parts, &mut self.parts);
        let mut parts: Vec<Part> = Vec::new();
        let count = old_parts.len();
        let mut i: usize = 0;
        proof {
            assert(parts.deep_view() =~= goal.take(0));
        }
        while i < count
            invariant
                count == old_parts@.len(),
                before == old_parts.deep_view(),
                goal == all_reasoning_finished(before, stream_id.deep_view()),
                i <= count,
                parts.deep_view() == goal.take(i as int),
            decreases count - i,
        {
            proof {
                assert(before[i as int] == old_parts@[i as int].deep_view());
            }
            let mut part = old_parts[i].clone();
            let ends = match &part.source {
                PartSource::Reasoning { stream_id: current, .. } => match stream_id {
                    Some(id) => same_text(id, current.as_str()),
                    None => true,
                },
                _ => false,
            };
            if ends {
                part.finished = true;
            }
            proof {
                assert(part.deep_view() == goal[i as int]);
                assert(goal.take(i + 1) =~= goal.take(i as int).push(goal[i as int]));
            }
            parts.push(part);
            i += 1;
        }
        proof {
            assert(goal.take(i as int) =~= goal);
        }
        self.parts = parts;
    }
}

/// Whether a message may be sent again: an answer that holds nothing may not.
pub open spec fn replayable(message: MessageModel) -> bool {
    message.role != llm::model::Role::Assistant || message.content.len() > 0
}

#[must_use]
pub fn is_replayable(message: &Message) -> (yes: bool)
    ensures
        yes == replayable(message.deep_view()),
{
    let is_answer = match message.role {
        llm::model::Role::Assistant => true,
        _ => false,
    };
    !is_answer || message.content.len() > 0
}

} // verus!
