//! The turns of a conversation, the state of the running answer, and the updates they publish.

use vstd::prelude::*;
use vstd::string::*;

use crate::chat::transcript::model::{
    all_reasoning_finished, allocate_part_id, allocate_turn_id, empty_turn, find_part,
    is_replayable, kind_of, message_of_turn, next_id, replayable, seek_part, turn_of_message, Part,
    PartId, PartKind, PartModel, PartQuery, PartQueryModel, PartSource, PartSourceModel, Role, Turn,
    TurnId, TurnModel,
};
use crate::chat::transcript::reconcile::{
    apply_indexed_message, in_content_order, sort_parts, with_message,
};
use crate::chat::transcript::source::{
    ResolvedMessage, ResolvedMessageModel, TranscriptCursor, TranscriptCursorModel,
    TranscriptPage, TranscriptPageModel,
};
use crate::llm;
use crate::llm::error::{GatewayError, GatewayErrorModel};
use crate::llm::event::{IndexedMessage, IndexedMessageModel};
use crate::llm::model::{
    no_metadata, ContentBlock, ContentBlockModel, Message, MessageModel, ProviderMetadata,
    ProviderMetadataModel, ReasoningContent, ReasoningContentModel, ToolCall, ToolCallModel,
};
use crate::text::{blank, chars_of, is_blank, string_of};

verus! {

broadcast use crate::deep::group_models;

/// How a part changed.
#[derive(Clone, Copy, Debug, PartialEq, Eq, Structural)]
pub enum PartChange {
    Append,
    Replace,
    Finished,
}

/// What there is to know of a transcript at a glance.
#[derive(Clone, Copy, Debug, PartialEq, Eq)]
pub struct TranscriptSnapshot {
    pub revision: u64,
    pub turn_count: usize,
    pub streaming: Option<(TurnId, PartId)>,
    pub has_earlier: bool,
}

impl TranscriptSnapshot {
    #[must_use]
    pub fn revision(&self) -> (revision: u64)
        ensures
            revision == self.revision,
    {
        self.revision
    }

    #[must_use]
    pub fn turn_count(&self) -> (count: usize)
        ensures
            count == self.turn_count,
    {
        self.turn_count
    }

    #[must_use]
    pub fn streaming(&self) -> (streaming: Option<(TurnId, PartId)>)
        ensures
            streaming == self.streaming,
    {
        self.streaming
    }

    #[must_use]
    pub fn is_streaming(&self) -> (yes: bool)
        ensures
            yes == self.streaming.is_some(),
    {
        self.streaming.is_some()
    }

    #[must_use]
    pub fn has_earlier(&self) -> (yes: bool)
        ensures
            yes == self.has_earlier,
    {
        self.has_earlier
    }
}

/// What a running generation reports to its conversation.
#[derive(PartialEq)]
pub enum ConversationStreamEvent {
    TextStarted { content_index: usize, id: String },
    TextDelta { content_index: usize, id: String, delta: String },
    TextFinished { content_index: usize, id: String, replay: Option<ProviderMetadata> },
    ReasoningStarted { content_index: usize, id: String },
    ReasoningDelta { content_index: usize, id: String, delta: String },
    ReasoningFinished { content_index: usize, id: String, replay: Option<ProviderMetadata> },
    ReasoningSnapshotUpdated { content_index: usize, id: String, reasoning: ReasoningContent },
    ToolCallStarted { content_index: usize, index: usize, id: String, name: String },
    ToolCallFinished { content_index: usize, index: usize, tool_call: Box<ToolCall> },
}

/// What a [`ConversationStreamEvent`] stands for.
pub enum ConversationStreamEventModel {
    TextStarted { content_index: usize, id: Seq<char> },
    TextDelta { content_index: usize, id: Seq<char>, delta: Seq<char> },
    TextFinished { content_index: usize, id: Seq<char>, replay: Option<ProviderMetadataModel> },
    ReasoningStarted { content_index: usize, id: Seq<char> },
    ReasoningDelta { content_index: usize, id: Seq<char>, delta: Seq<char> },
    ReasoningFinished { content_index: usize, id: Seq<char>, replay: Option<ProviderMetadataModel> },
    ReasoningSnapshotUpdated { content_index: usize, id: Seq<char>, reasoning: ReasoningContentModel },
    ToolCallStarted { content_index: usize, index: usize, id: Seq<char>, name: Seq<char> },
    ToolCallFinished { content_index: usize, index: usize, tool_call: ToolCallModel },
}

impl DeepView for ConversationStreamEvent {
    type V = ConversationStreamEventModel;

    open spec fn deep_view(&self) -> ConversationStreamEventModel {
        match self {
            ConversationStreamEvent::TextStarted { content_index, id } => ConversationStreamEventModel::TextStarted {
                content_index: *content_index,
                id: id@,
            },
            ConversationStreamEvent::TextDelta { content_index, id, delta } => ConversationStreamEventModel::TextDelta {
                content_index: *content_index,
                id: id@,
                delta: delta@,
            },
            ConversationStreamEvent::TextFinished { content_index, id, replay } => ConversationStreamEventModel::TextFinished {
                content_index: *content_index,
                id: id@,
                replay: replay.deep_view(),
            },
            ConversationStreamEvent::ReasoningStarted { content_index, id } => ConversationStreamEventModel::ReasoningStarted {
                content_index: *content_index,
                id: id@,
            },
            ConversationStreamEvent::ReasoningDelta { content_index, id, delta } => ConversationStreamEventModel::ReasoningDelta {
                content_index: *content_index,
                id: id@,
                delta: delta@,
            },
            ConversationStreamEvent::ReasoningFinished { content_index, id, replay } => ConversationStreamEventModel::ReasoningFinished {
                content_index: *content_index,
                id: id@,
                replay: replay.deep_view(),
            },
            ConversationStreamEvent::ReasoningSnapshotUpdated { content_index, id, reasoning } => ConversationStreamEventModel::ReasoningSnapshotUpdated {
                content_index: *content_index,
                id: id@,
                reasoning: reasoning.deep_view(),
            },
            ConversationStreamEvent::ToolCallStarted { content_index, index, id, name } => ConversationStreamEventModel::ToolCallStarted {
                content_index: *content_index,
                index: *index,
                id: id@,
                name: name@,
            },
            ConversationStreamEvent::ToolCallFinished { content_index, index, tool_call } => ConversationStreamEventModel::ToolCallFinished {
                content_index: *content_index,
                index: *index,
                tool_call: tool_call.deep_view(),
            },
        }
    }
}

/// What changed in a transcript.
#[derive(Debug, PartialEq, Eq)]
pub enum TranscriptEvent {
    TailAppended { turn_ids: Vec<TurnId> },
    PartInserted { turn_id: TurnId, part_id: PartId },
    PartChanged { turn_id: TurnId, part_id: PartId, change: PartChange, delta: String },
    TurnReplaced { turn_id: TurnId },
    Reset,
}

/// What a [`TranscriptEvent`] stands for.
pub enum TranscriptEventModel {
    TailAppended { turn_ids: Seq<TurnId> },
    PartInserted { turn_id: TurnId, part_id: PartId },
    PartChanged { turn_id: TurnId, part_id: PartId, change: PartChange, delta: Seq<char> },
    TurnReplaced { turn_id: TurnId },
    Reset,
}

impl DeepView for TranscriptEvent {
    type V = TranscriptEventModel;

    open spec fn deep_view(&self) -> TranscriptEventModel {
        match self {
            TranscriptEvent::TailAppended { turn_ids } => TranscriptEventModel::TailAppended {
                turn_ids: turn_ids.deep_view(),
            },
            TranscriptEvent::PartInserted { turn_id, part_id } => TranscriptEventModel::PartInserted {
                turn_id: *turn_id,
                part_id: *part_id,
            },
            TranscriptEvent::PartChanged { turn_id, part_id, change, delta } => TranscriptEventModel::PartChanged {
                turn_id: *turn_id,
                part_id: *part_id,
                change: *change,
                delta: delta@,
            },
            TranscriptEvent::TurnReplaced { turn_id } => TranscriptEventModel::TurnReplaced {
                turn_id: *turn_id,
            },
            TranscriptEvent::Reset => TranscriptEventModel::Reset,
        }
    }
}

impl Clone for TranscriptEvent {
    fn clone(&self) -> (copy: Self)
        ensures
            copy.deep_view() == self.deep_view(),
    {
        match self {
            TranscriptEvent::TailAppended { turn_ids } => {
                let copies = turn_ids.clone();
                proof {
                    assert(copies@ =~= turn_ids@);
                }
                TranscriptEvent::TailAppended { turn_ids: copies }
            },
            TranscriptEvent::PartInserted { turn_id, part_id } => TranscriptEvent::PartInserted {
                turn_id: *turn_id,
                part_id: *part_id,
            },
            TranscriptEvent::PartChanged { turn_id, part_id, change, delta } => {
                TranscriptEvent::PartChanged {
                    turn_id: *turn_id,
                    part_id: *part_id,
                    change: *change,
                    delta: delta.clone(),
                }
            },
            TranscriptEvent::TurnReplaced { turn_id } => TranscriptEvent::TurnReplaced {
                turn_id: *turn_id,
            },
            TranscriptEvent::Reset => TranscriptEvent::Reset,
        }
    }
}

/// A change of a transcript, and the transcript after it.
#[derive(Debug, PartialEq, Eq)]
pub struct TranscriptUpdate {
    pub snapshot: TranscriptSnapshot,
    pub event: TranscriptEvent,
}

/// What a [`TranscriptUpdate`] stands for.
pub struct TranscriptUpdateModel {
    pub snapshot: TranscriptSnapshot,
    pub event: TranscriptEventModel,
}

impl DeepView for TranscriptUpdate {
    type V = TranscriptUpdateModel;

    open spec fn deep_view(&self) -> TranscriptUpdateModel {
        TranscriptUpdateModel {
            snapshot: self.snapshot,
            event: self.event.deep_view(),
        }
    }
}

impl Clone for TranscriptUpdate {
    fn clone(&self) -> (copy: Self)
        ensures
            copy.deep_view() == self.deep_view(),
    {
        TranscriptUpdate { snapshot: self.snapshot, event: self.event.clone() }
    }
}

impl TranscriptUpdate {
    #[must_use]
    pub fn snapshot(&self) -> (snapshot: &TranscriptSnapshot)
        ensures
            *snapshot == self.deep_view().snapshot,
    {
        &self.snapshot
    }

    #[must_use]
    pub fn event(&self) -> (event: &TranscriptEvent)
        ensures
            event.deep_view() == self.deep_view().event,
    {
        &self.event
    }
}

/// What a [`Transcript`] stands for.
pub struct TranscriptModel {
    pub revision: u64,
    pub turns: Seq<TurnModel>,
    pub streaming: Option<(TurnId, PartId)>,
    pub source_cursor: Option<TranscriptCursorModel>,
    pub next_turn_id: u64,
    pub next_part_id: u64,
}

pub open spec fn empty_transcript() -> TranscriptModel {
    TranscriptModel {
        revision: 0,
        turns: Seq::empty(),
        streaming: None,
        source_cursor: None,
        next_turn_id: 1,
        next_part_id: 1,
    }
}

pub open spec fn snapshot_of(transcript: TranscriptModel) -> TranscriptSnapshot {
    TranscriptSnapshot {
        revision: transcript.revision,
        turn_count: transcript.turns.len() as usize,
        streaming: transcript.streaming,
        has_earlier: transcript.source_cursor.is_some(),
    }
}

/// Publishes a change: it counts up the revision.
pub open spec fn published(transcript: TranscriptModel, event: TranscriptEventModel) -> (
    TranscriptModel,
    TranscriptUpdateModel,
) {
    let next = TranscriptModel { revision: next_id(transcript.revision), ..transcript };
    (next, TranscriptUpdateModel { snapshot: snapshot_of(next), event })
}

/// The transcript with another last turn.
pub open spec fn with_last(transcript: TranscriptModel, turn: TurnModel) -> TranscriptModel {
    TranscriptModel {
        turns: transcript.turns.update(transcript.turns.len() - 1, turn),
        ..transcript
    }
}

/// The transcript with one more turn.
pub open spec fn with_turn(transcript: TranscriptModel, turn: TurnModel) -> TranscriptModel {
    TranscriptModel { turns: transcript.turns.push(turn), ..transcript }
}

/// Sends a message: its turn, and an empty one for the answer.
pub open spec fn turn_begun(transcript: TranscriptModel, user: MessageModel) -> (
    TranscriptModel,
    TurnId,
    TranscriptUpdateModel,
) {
    let user_id = TurnId(transcript.next_turn_id);
    let answer_id = TurnId(next_id(transcript.next_turn_id));
    let (user_turn, next_part_id) = turn_of_message(user, user_id, transcript.next_part_id);
    let (next, update) = published(
        TranscriptModel {
            turns: transcript.turns.push(user_turn).push(empty_turn(Role::Assistant, answer_id)),
            streaming: None,
            next_turn_id: next_id(next_id(transcript.next_turn_id)),
            next_part_id,
            ..transcript
        },
        TranscriptEventModel::TailAppended { turn_ids: seq![user_id, answer_id] },
    );
    (next, answer_id, update)
}

/// Ends the last turn, with its final message and its error, where there are such.
#[verifier::opaque]
pub open spec fn turn_finished(
    transcript: TranscriptModel,
    message: Option<IndexedMessageModel>,
    error: Option<GatewayErrorModel>,
) -> (TranscriptModel, Option<TranscriptUpdateModel>) {
    if transcript.turns.len() == 0 {
        (transcript, None)
    } else {
        let last = transcript.turns.last();
        let (replaced, next_part_id) = match message {
            Some(message) => with_message(last, message, transcript.next_part_id),
            None => (last, transcript.next_part_id),
        };
        let ended = TurnModel {
            error,
            parts: all_reasoning_finished(replaced.parts, None),
            ..replaced
        };
        let (next, update) = published(
            TranscriptModel {
                streaming: None,
                next_part_id,
                ..with_last(transcript, ended)
            },
            TranscriptEventModel::TurnReplaced { turn_id: last.turn_id },
        );
        (next, Some(update))
    }
}

/// Puts a new part into the last turn, unless the part asked for is there.
#[verifier::opaque]
pub open spec fn part_inserted(
    transcript: TranscriptModel,
    query: PartQueryModel,
    content_index: usize,
    source: PartSourceModel,
) -> (TranscriptModel, Option<TranscriptUpdateModel>) {
    if transcript.turns.len() == 0 || find_part(transcript.turns.last().parts, query) is Some {
        (transcript, None)
    } else {
        let last = transcript.turns.last();
        let part_id = PartId(transcript.next_part_id);
        let part = PartModel { part_id, content_index, source, finished: false };
        let (next, update) = published(
            TranscriptModel {
                streaming: Some((last.turn_id, part_id)),
                next_part_id: next_id(transcript.next_part_id),
                ..with_last(
                    transcript,
                    TurnModel { parts: in_content_order(last.parts.push(part)), ..last },
                )
            },
            TranscriptEventModel::PartInserted { turn_id: last.turn_id, part_id },
        );
        (next, Some(update))
    }
}

/// The two kinds of parts that stream piece by piece.
#[derive(Clone, Copy, Debug, PartialEq, Eq, Structural)]
pub enum StreamKind {
    Prose,
    Reasoning,
}

pub open spec fn stream_query(kind: StreamKind, content_index: usize, id: Seq<char>) -> PartQueryModel {
    match kind {
        StreamKind::Prose => PartQueryModel::Text(content_index, id),
        StreamKind::Reasoning => PartQueryModel::Reasoning(content_index, id),
    }
}

/// The content of a part whose stream begins.
pub open spec fn fresh_source(kind: StreamKind, stream_id: Seq<char>) -> PartSourceModel {
    match kind {
        StreamKind::Prose => PartSourceModel::Prose {
            text: Seq::empty(),
            replay: no_metadata(),
            stream_id,
        },
        StreamKind::Reasoning => PartSourceModel::Reasoning {
            reasoning: ReasoningContentModel { display: Seq::empty(), replay: None },
            stream_id,
        },
    }
}

pub open spec fn with_delta(source: PartSourceModel, delta: Seq<char>) -> PartSourceModel {
    match source {
        PartSourceModel::Prose { text, replay, stream_id } => PartSourceModel::Prose {
            text: text + delta,
            replay,
            stream_id,
        },
        PartSourceModel::Reasoning { reasoning, stream_id } => PartSourceModel::Reasoning {
            reasoning: ReasoningContentModel {
                display: reasoning.display + delta,
                replay: reasoning.replay,
            },
            stream_id,
        },
        other => other,
    }
}

pub open spec fn with_replay(
    source: PartSourceModel,
    replay: Option<ProviderMetadataModel>,
) -> PartSourceModel {
    match replay {
        None => source,
        Some(metadata) => match source {
            PartSourceModel::Prose { text, stream_id, .. } => PartSourceModel::Prose {
                text,
                replay: metadata,
                stream_id,
            },
            PartSourceModel::Reasoning { reasoning, stream_id } => PartSourceModel::Reasoning {
                reasoning: ReasoningContentModel {
                    display: reasoning.display,
                    replay: Some(metadata),
                },
                stream_id,
            },
            other => other,
        },
    }
}

/// The transcript with another part at `at` of its last turn.
pub open spec fn with_part(transcript: TranscriptModel, at: int, part: PartModel) -> TranscriptModel {
    let last = transcript.turns.last();
    with_last(transcript, TurnModel { parts: last.parts.update(at, part), ..last })
}

/// Changes the part at `at` of the last turn, and publishes that.
pub open spec fn part_changed(
    transcript: TranscriptModel,
    at: int,
    part: PartModel,
    change: PartChange,
    delta: Seq<char>,
) -> (TranscriptModel, TranscriptUpdateModel) {
    let last = transcript.turns.last();
    let streaming = match change {
        PartChange::Append => Some((last.turn_id, part.part_id)),
        _ => transcript.streaming,
    };
    published(
        TranscriptModel { streaming, ..with_part(transcript, at, part) },
        TranscriptEventModel::PartChanged {
            turn_id: last.turn_id,
            part_id: part.part_id,
            change,
            delta,
        },
    )
}

pub open spec fn updates_of(update: Option<TranscriptUpdateModel>) -> Seq<TranscriptUpdateModel> {
    match update {
        Some(update) => seq![update],
        None => Seq::empty(),
    }
}

/// A piece of a stream. A part that is not there yet is put in first; one that has ended takes
/// nothing more.
#[verifier::opaque]
pub open spec fn delta_appended(
    transcript: TranscriptModel,
    kind: StreamKind,
    content_index: usize,
    id: Seq<char>,
    delta: Seq<char>,
) -> (TranscriptModel, Seq<TranscriptUpdateModel>) {
    if delta.len() == 0 {
        (transcript, Seq::empty())
    } else {
        let query = stream_query(kind, content_index, id);
        let (ready, inserted) = part_inserted(
            transcript,
            query,
            content_index,
            fresh_source(kind, id),
        );
        let before = updates_of(inserted);
        if ready.turns.len() == 0 {
            (ready, before)
        } else {
            match find_part(ready.turns.last().parts, query) {
                None => (ready, before),
                Some(at) => {
                    let part = ready.turns.last().parts[at];
                    if part.finished {
                        (ready, before)
                    } else {
                        let (next, update) = part_changed(
                            ready,
                            at,
                            PartModel { source: with_delta(part.source, delta), ..part },
                            PartChange::Append,
                            delta,
                        );
                        (next, before.push(update))
                    }
                },
            }
        }
    }
}

/// The end of a stream.
#[verifier::opaque]
pub open spec fn stream_finished(
    transcript: TranscriptModel,
    kind: StreamKind,
    content_index: usize,
    id: Seq<char>,
    replay: Option<ProviderMetadataModel>,
) -> (TranscriptModel, Option<TranscriptUpdateModel>) {
    if transcript.turns.len() == 0 {
        (transcript, None)
    } else {
        match find_part(transcript.turns.last().parts, stream_query(kind, content_index, id)) {
            None => (transcript, None),
            Some(at) => {
                let part = transcript.turns.last().parts[at];
                let (next, update) = part_changed(
                    transcript,
                    at,
                    PartModel { source: with_replay(part.source, replay), finished: true, ..part },
                    PartChange::Finished,
                    Seq::empty(),
                );
                (next, Some(update))
            },
        }
    }
}

/// Reasoning that was replaced after it had ended.
#[verifier::opaque]
pub open spec fn snapshot_updated(
    transcript: TranscriptModel,
    content_index: usize,
    id: Seq<char>,
    reasoning: ReasoningContentModel,
) -> (TranscriptModel, Option<TranscriptUpdateModel>) {
    if transcript.turns.len() == 0 {
        (transcript, None)
    } else {
        match find_part(
            transcript.turns.last().parts,
            PartQueryModel::Reasoning(content_index, id),
        ) {
            None => (transcript, None),
            Some(at) => {
                let part = transcript.turns.last().parts[at];
                if !part.finished {
                    (transcript, None)
                } else {
                    let (next, update) = part_changed(
                        transcript,
                        at,
                        PartModel {
                            source: PartSourceModel::Reasoning { reasoning, stream_id: id },
                            ..part
                        },
                        PartChange::Replace,
                        Seq::empty(),
                    );
                    (next, Some(update))
                }
            },
        }
    }
}

/// A call that is complete: its part ends, or comes in complete.
#[verifier::opaque]
pub open spec fn call_finished(
    transcript: TranscriptModel,
    content_index: usize,
    index: usize,
    tool_call: ToolCallModel,
) -> (TranscriptModel, Option<TranscriptUpdateModel>) {
    if transcript.turns.len() == 0 {
        (transcript, None)
    } else {
        let last = transcript.turns.last();
        let source = PartSourceModel::ToolCall {
            index,
            id: tool_call.id,
            name: tool_call.name,
            tool_call: Some(tool_call),
        };
        match find_part(last.parts, PartQueryModel::ToolCallIndex(content_index, index)) {
            Some(at) => {
                let (next, update) = part_changed(
                    transcript,
                    at,
                    PartModel { source, finished: true, ..last.parts[at] },
                    PartChange::Finished,
                    Seq::empty(),
                );
                (next, Some(update))
            },
            None => {
                let part_id = PartId(transcript.next_part_id);
                let part = PartModel { part_id, content_index, source, finished: true };
                let (next, update) = published(
                    TranscriptModel {
                        next_part_id: next_id(transcript.next_part_id),
                        ..with_last(
                            transcript,
                            TurnModel { parts: in_content_order(last.parts.push(part)), ..last },
                        )
                    },
                    TranscriptEventModel::PartInserted { turn_id: last.turn_id, part_id },
                );
                (next, Some(update))
            },
        }
    }
}

pub open spec fn single(step: (TranscriptModel, Option<TranscriptUpdateModel>)) -> (
    TranscriptModel,
    Seq<TranscriptUpdateModel>,
) {
    (step.0, updates_of(step.1))
}

/// The transcript after an event of the running answer, and the updates that it publishes.
pub open spec fn event_applied(
    transcript: TranscriptModel,
    event: ConversationStreamEventModel,
) -> (TranscriptModel, Seq<TranscriptUpdateModel>) {
    match event {
        ConversationStreamEventModel::TextStarted { content_index, id } => single(
            part_inserted(
                transcript,
                PartQueryModel::Text(content_index, id),
                content_index,
                fresh_source(StreamKind::Prose, id),
            ),
        ),
        ConversationStreamEventModel::TextDelta { content_index, id, delta } => delta_appended(
            transcript,
            StreamKind::Prose,
            content_index,
            id,
            delta,
        ),
        ConversationStreamEventModel::TextFinished { content_index, id, replay } => single(
            stream_finished(transcript, StreamKind::Prose, content_index, id, replay),
        ),
        ConversationStreamEventModel::ReasoningStarted { content_index, id } => single(
            part_inserted(
                transcript,
                PartQueryModel::Reasoning(content_index, id),
                content_index,
                fresh_source(StreamKind::Reasoning, id),
            ),
        ),
        ConversationStreamEventModel::ReasoningDelta { content_index, id, delta } => delta_appended(
            transcript,
            StreamKind::Reasoning,
            content_index,
            id,
            delta,
        ),
        ConversationStreamEventModel::ReasoningFinished { content_index, id, replay } => single(
            stream_finished(transcript, StreamKind::Reasoning, content_index, id, replay),
        ),
        ConversationStreamEventModel::ReasoningSnapshotUpdated { content_index, id, reasoning } => single(
            snapshot_updated(transcript, content_index, id, reasoning),
        ),
        ConversationStreamEventModel::ToolCallStarted { content_index, index, id, name } => single(
            part_inserted(
                transcript,
                PartQueryModel::ToolCall(content_index),
                content_index,
                PartSourceModel::ToolCall { index, id, name, tool_call: None },
            ),
        ),
        ConversationStreamEventModel::ToolCallFinished { content_index, index, tool_call } => single(
            call_finished(transcript, content_index, index, tool_call),
        ),
    }
}

/// The transcript after the events from position `start` on, and the updates they publish.
pub open spec fn events_applied(
    transcript: TranscriptModel,
    events: Seq<ConversationStreamEventModel>,
    start: int,
) -> (TranscriptModel, Seq<TranscriptUpdateModel>)
    decreases events.len() - start,
{
    if start < 0 || start >= events.len() {
        (transcript, Seq::empty())
    } else {
        let (next, updates) = event_applied(transcript, events[start]);
        let (last, rest) = events_applied(next, events, start + 1);
        (last, updates + rest)
    }
}

/// The parts from position `start` on with new identifiers, and the next free one.
pub open spec fn adopted_parts(parts: Seq<PartModel>, start: int, next: u64) -> (
    Seq<PartModel>,
    u64,
)
    decreases parts.len() - start,
{
    if start < 0 || start >= parts.len() {
        (Seq::empty(), next)
    } else {
        let (rest, last) = adopted_parts(parts, start + 1, next_id(next));
        (seq![PartModel { part_id: PartId(next), ..parts[start] }] + rest, last)
    }
}

/// The turns from position `start` on with new identifiers, and the next free ones.
pub open spec fn adopted_turns(
    turns: Seq<TurnModel>,
    start: int,
    next_turn: u64,
    next_part: u64,
) -> (Seq<TurnModel>, u64, u64)
    decreases turns.len() - start,
{
    if start < 0 || start >= turns.len() {
        (Seq::empty(), next_turn, next_part)
    } else {
        let (parts, after) = adopted_parts(turns[start].parts, 0, next_part);
        let turn = TurnModel { turn_id: TurnId(next_turn), parts, ..turns[start] };
        let (rest, last_turn, last_part) = adopted_turns(
            turns,
            start + 1,
            next_id(next_turn),
            after,
        );
        (seq![turn] + rest, last_turn, last_part)
    }
}

/// Replaces the transcript by a page of stored turns.
pub open spec fn loaded(
    transcript: TranscriptModel,
    page: TranscriptPageModel,
    cursor: Option<TranscriptCursorModel>,
) -> (TranscriptModel, TranscriptUpdateModel) {
    let (turns, next_turn_id, next_part_id) = adopted_turns(page.turns, 0, 1, 1);
    published(
        TranscriptModel {
            turns,
            next_turn_id,
            next_part_id,
            streaming: None,
            source_cursor: match cursor {
                Some(cursor) => Some(cursor),
                None => page.cursor_before,
            },
            ..transcript
        },
        TranscriptEventModel::Reset,
    )
}

/// The turns that count as history: an answer that has not begun does not.
pub open spec fn history_turns(turns: Seq<TurnModel>) -> Seq<TurnModel> {
    if turns.len() > 0 && turns.last().role == Role::Assistant && turns.last().parts.len() == 0
        && turns.last().error is None {
        turns.drop_last()
    } else {
        turns
    }
}

/// The messages of the turns from position `start` on that may be sent again.
pub open spec fn replayable_messages(turns: Seq<TurnModel>, start: int) -> Seq<MessageModel>
    decreases turns.len() - start,
{
    if start < 0 || start >= turns.len() {
        Seq::empty()
    } else {
        let message = message_of_turn(turns[start]);
        if replayable(message) {
            seq![message] + replayable_messages(turns, start + 1)
        } else {
            replayable_messages(turns, start + 1)
        }
    }
}

/// The first turn with the identifier, from position `start` on, or the number of turns.
pub open spec fn turn_position(turns: Seq<TurnModel>, id: TurnId, start: int) -> int
    decreases turns.len() - start,
{
    if start >= turns.len() || turns[start].turn_id == id {
        start
    } else {
        turn_position(turns, id, start + 1)
    }
}

pub open spec fn turn_named(turns: Seq<TurnModel>, id: TurnId) -> Option<TurnModel> {
    let at = turn_position(turns, id, 0);
    if 0 <= at < turns.len() {
        Some(turns[at])
    } else {
        None
    }
}

/// Whether a part is prose with something to read.
pub open spec fn is_readable(part: PartModel) -> bool {
    match part.source {
        PartSourceModel::Prose { text, .. } => !is_blank(text),
        _ => false,
    }
}

pub open spec fn prose_of(part: PartModel) -> Seq<char> {
    match part.source {
        PartSourceModel::Prose { text, .. } => text,
        _ => Seq::empty(),
    }
}

/// The readable prose of the parts from position `start` on, line by line after `before`.
pub open spec fn readable_text(parts: Seq<PartModel>, start: int, before: Seq<char>) -> Seq<char>
    decreases parts.len() - start,
{
    if start < 0 || start >= parts.len() {
        before
    } else if is_readable(parts[start]) {
        let line = if before.len() == 0 {
            before
        } else {
            before.push('\n')
        };
        readable_text(parts, start + 1, line + prose_of(parts[start]))
    } else {
        readable_text(parts, start + 1, before)
    }
}

/// Whether a part has readable prose.
pub open spec fn has_readable(parts: Seq<PartModel>) -> bool {
    exists|i: int| 0 <= i < parts.len() && is_readable(#[trigger] parts[i])
}

/// Whether no stream of a turn is open.
pub open spec fn all_streams_ended(parts: Seq<PartModel>) -> bool {
    forall|i: int|
        0 <= i < parts.len() ==> match kind_of((#[trigger] parts[i]).source) {
            PartKind::Prose | PartKind::Reasoning => parts[i].finished,
            _ => true,
        }
}

/// The text in one line.
pub open spec fn one_line(text: Seq<char>) -> Seq<char> {
    Seq::new(
        text.len(),
        |i: int|
            if text[i] == '\n' {
                ' '
            } else {
                text[i]
            },
    )
}

/// The title of a text: its beginning in one line, or the default where there is nothing to read.
pub open spec fn title_of(text: Seq<char>, default_title: Seq<char>) -> Seq<char> {
    let line = one_line(text);
    let short = if line.len() > 40 {
        line.take(37) + "..."@
    } else {
        line
    };
    if is_blank(short) {
        default_title
    } else {
        short
    }
}

/// A title is never longer than 40 characters, unless it is the default.
pub proof fn titles_are_short(text: Seq<char>, default_title: Seq<char>)
    ensures
        title_of(text, default_title).len() <= 40 || title_of(text, default_title)
            == default_title,
{
    reveal_strlit("...");
}

/// The first readable prose of the parts from position `start` on.
pub open spec fn first_readable(parts: Seq<PartModel>, start: int) -> Option<Seq<char>>
    decreases parts.len() - start,
{
    if start < 0 || start >= parts.len() {
        None
    } else if is_readable(parts[start]) {
        Some(prose_of(parts[start]))
    } else {
        first_readable(parts, start + 1)
    }
}

/// The first turn of the user, from position `start` on.
pub open spec fn first_user_turn(turns: Seq<TurnModel>, start: int) -> Option<TurnModel>
    decreases turns.len() - start,
{
    if start < 0 || start >= turns.len() {
        None
    } else if turns[start].role == Role::User {
        Some(turns[start])
    } else {
        first_user_turn(turns, start + 1)
    }
}

/// The title of a conversation: that of the first message of the user.
pub open spec fn turns_title(turns: Seq<TurnModel>, default_title: Seq<char>) -> Option<Seq<char>> {
    match first_user_turn(turns, 0) {
        Some(turn) => match first_readable(turn.parts, 0) {
            Some(text) => Some(title_of(text, default_title)),
            None => None,
        },
        None => None,
    }
}

/// The first text of the blocks from position `start` on with something to read.
pub open spec fn first_text(blocks: Seq<ContentBlockModel>, start: int) -> Option<Seq<char>>
    decreases blocks.len() - start,
{
    if start < 0 || start >= blocks.len() {
        None
    } else {
        match blocks[start] {
            ContentBlockModel::Text { text, .. } => if is_blank(text) {
                first_text(blocks, start + 1)
            } else {
                Some(text)
            },
            _ => first_text(blocks, start + 1),
        }
    }
}

/// The title of a conversation by its messages, from position `start` on: that of the first
/// message of the user with something to read.
pub open spec fn messages_title(
    messages: Seq<MessageModel>,
    start: int,
    default_title: Seq<char>,
) -> Option<Seq<char>>
    decreases messages.len() - start,
{
    if start < 0 || start >= messages.len() {
        None
    } else if messages[start].role == llm::model::Role::User {
        match first_text(messages[start].content, 0) {
            Some(text) => Some(title_of(text, default_title)),
            None => messages_title(messages, start + 1, default_title),
        }
    } else {
        messages_title(messages, start + 1, default_title)
    }
}

/// The messages without their entries.
pub open spec fn stored_messages(state: Seq<ResolvedMessageModel>) -> Seq<MessageModel> {
    Seq::new(state.len(), |i: int| state[i].message)
}

/// The turns of a conversation and the state of the running answer.
pub struct Transcript {
    pub revision: u64,
    pub turns: Vec<Turn>,
    pub streaming: Option<(TurnId, PartId)>,
    pub source_cursor: Option<TranscriptCursor>,
    pub next_turn_id: u64,
    pub next_part_id: u64,
}

impl DeepView for Transcript {
    type V = TranscriptModel;

    open spec fn deep_view(&self) -> TranscriptModel {
        TranscriptModel {
            revision: self.revision,
            turns: self.turns.deep_view(),
            streaming: self.streaming,
            source_cursor: self.source_cursor.deep_view(),
            next_turn_id: self.next_turn_id,
            next_part_id: self.next_part_id,
        }
    }
}

fn stream_source(kind: StreamKind, stream_id: &str) -> (source: PartSource)
    ensures
        source.deep_view() == fresh_source(kind, stream_id@),
{
    match kind {
        StreamKind::Prose => PartSource::Prose {
            text: String::new(),
            replay: ProviderMetadata::default(),
            stream_id: stream_id.to_owned(),
        },
        StreamKind::Reasoning => PartSource::Reasoning {
            reasoning: ReasoningContent { display: String::new(), replay: None },
            stream_id: stream_id.to_owned(),
        },
    }
}

fn stream_part<'a>(kind: StreamKind, content_index: usize, id: &'a str) -> (query: PartQuery<'a>)
    ensures
        query.deep_view() == stream_query(kind, content_index, id@),
{
    match kind {
        StreamKind::Prose => PartQuery::Text(content_index, id),
        StreamKind::Reasoning => PartQuery::Reasoning(content_index, id),
    }
}

fn append_delta(source: PartSource, delta: &str) -> (result: PartSource)
    ensures
        result.deep_view() == with_delta(source.deep_view(), delta@),
{
    match source {
        PartSource::Prose { text, replay, stream_id } => {
            let mut text = text;
            text.append(delta);
            PartSource::Prose { text, replay, stream_id }
        },
        PartSource::Reasoning { reasoning, stream_id } => {
            let mut reasoning = reasoning;
            reasoning.display.append(delta);
            PartSource::Reasoning { reasoning, stream_id }
        },
        other => other,
    }
}

fn set_replay(source: PartSource, replay: Option<ProviderMetadata>) -> (result: PartSource)
    ensures
        result.deep_view() == with_replay(source.deep_view(), replay.deep_view()),
{
    match replay {
        None => source,
        Some(metadata) => match source {
            PartSource::Prose { text, stream_id, .. } => PartSource::Prose {
                text,
                replay: metadata,
                stream_id,
            },
            PartSource::Reasoning { reasoning, stream_id } => PartSource::Reasoning {
                reasoning: ReasoningContent { display: reasoning.display, replay: Some(metadata) },
                stream_id,
            },
            other => other,
        },
    }
}

impl Transcript {
    pub fn new() -> (transcript: Self)
        ensures
            transcript.deep_view() == empty_transcript(),
    {
        let transcript = Transcript {
            revision: 0,
            turns: Vec::new(),
            streaming: None,
            source_cursor: None,
            next_turn_id: 1,
            next_part_id: 1,
        };
        proof {
            assert(transcript.turns.deep_view() =~= Seq::<TurnModel>::empty());
        }
        transcript
    }

    #[must_use]
    pub fn turns(&self) -> (turns: &[Turn])
        ensures
            crate::deep::models(turns@) == self.deep_view().turns,
    {
        self.turns.as_slice()
    }

    #[must_use]
    pub fn turn(&self, id: TurnId) -> (turn: Option<&Turn>)
        ensures
            turn.deep_view() == turn_named(self.deep_view().turns, id),
    {
        let ghost all = self.turns.deep_view();
        let mut i: usize = 0;
        while i < self.turns.len()
            invariant
                all == self.turns.deep_view(),
                i <= self.turns@.len(),
                turn_position(all, id, 0) == turn_position(all, id, i as int),
            decreases self.turns@.len() - i,
        {
            proof {
                assert(all[i as int] == self.turns@[i as int].deep_view());
            }
            if self.turns[i].turn_id == id {
                return Some(&self.turns[i]);
            }
            i += 1;
        }
        None
    }

    #[must_use]
    pub fn snapshot(&self) -> (snapshot: TranscriptSnapshot)
        ensures
            snapshot == snapshot_of(self.deep_view()),
    {
        TranscriptSnapshot {
            revision: self.revision,
            turn_count: self.turns.len(),
            streaming: self.streaming,
            has_earlier: self.source_cursor.is_some(),
        }
    }

    /// The messages to send with the next request.
    #[must_use]
    pub fn replayable_history(&self) -> (messages: Vec<Message>)
        ensures
            messages.deep_view() == replayable_messages(
                history_turns(self.deep_view().turns),
                0,
            ),
    {
        let ghost turns = history_turns(self.deep_view().turns);
        let count = self.turns.len();
        let pending = if count > 0 {
            let last = &self.turns[count - 1];
            last.role == Role::Assistant && last.parts.len() == 0 && last.error.is_none()
        } else {
            false
        };
        let end = if pending {
            count - 1
        } else {
            count
        };
        let ghost all = replayable_messages(turns, 0);
        let mut messages: Vec<Message> = Vec::new();
        let mut i: usize = 0;
        proof {
            assert(turns.len() == end);
            assert(messages.deep_view() =~= Seq::<MessageModel>::empty());
            assert(Seq::<MessageModel>::empty() + all =~= all);
        }
        while i < end
            invariant
                end <= self.turns@.len(),
                turns.len() == end,
                forall|k: int| 0 <= k < end ==> turns[k] == (#[trigger] self.turns@[k]).deep_view(),
                i <= end,
                messages.deep_view() + replayable_messages(turns, i as int) == all,
            decreases end - i,
        {
            let ghost before = messages.deep_view();
            let message = self.turns[i].to_llm();
            if is_replayable(&message) {
                let ghost model = message.deep_view();
                messages.push(message);
                proof {
                    let rest = replayable_messages(turns, i + 1);
                    assert(before + (seq![model] + rest) =~= before.push(model) + rest);
                }
            }
            i += 1;
        }
        proof {
            assert(messages.deep_view() =~= all);
        }
        messages
    }

    #[must_use]
    pub fn title(&self, default_title: &str) -> (title: Option<String>)
        ensures
            title.deep_view() == turns_title(self.deep_view().turns, default_title@),
    {
        title_from_turns(self.turns.as_slice(), default_title)
    }

    /// The prose of a turn, if it has any to copy.
    #[must_use]
    pub fn copyable_text(&self, turn_id: TurnId) -> (text: Option<String>)
        ensures
            text.deep_view() == (match turn_named(self.deep_view().turns, turn_id) {
                Some(turn) => {
                    let text = readable_text(turn.parts, 0, Seq::empty());
                    if text.len() == 0 {
                        None
                    } else {
                        Some(text)
                    }
                },
                None => None,
            }),
    {
        match self.turn(turn_id) {
            Some(turn) => {
                let text = copyable_text(turn);
                if text.as_str().is_empty() {
                    None
                } else {
                    Some(text)
                }
            },
            None => None,
        }
    }

    /// Replaces the transcript by a page of stored turns.
    pub fn load(&mut self, page: TranscriptPage, cursor: Option<TranscriptCursor>) -> (update:
        TranscriptUpdate)
        ensures
            (final(self).deep_view(), update.deep_view()) == loaded(
                old(self).deep_view(),
                page.deep_view(),
                cursor.deep_view(),
            ),
    {
        self.next_turn_id = 1;
        self.next_part_id = 1;
        self.turns = self.adopt_turns(page.turns);
        self.source_cursor = match cursor {
            Some(cursor) => Some(cursor),
            None => page.cursor_before,
        };
        self.streaming = None;
        self.publish(TranscriptEvent::Reset)
    }

    /// Appends a message of the user, and an empty turn for the answer.
    pub fn begin_turn(&mut self, user: Message) -> (begun: (TurnId, TranscriptUpdate))
        ensures
            (final(self).deep_view(), begun.0, begun.1.deep_view()) == turn_begun(
                old(self).deep_view(),
                user.deep_view(),
            ),
    {
        let user_id = allocate_turn_id(&mut self.next_turn_id);
        let user_turn = Turn::from_llm(user, user_id, &mut self.next_part_id);
        let answer_id = allocate_turn_id(&mut self.next_turn_id);
        self.turns.push(user_turn);
        self.turns.push(Turn::empty(Role::Assistant, answer_id));
        self.streaming = None;
        let mut turn_ids: Vec<TurnId> = Vec::new();
        turn_ids.push(user_id);
        turn_ids.push(answer_id);
        proof {
            assert(turn_ids.deep_view() =~= seq![user_id, answer_id]);
        }
        let update = self.publish(TranscriptEvent::TailAppended { turn_ids });
        (answer_id, update)
    }

    /// Applies events of the running answer, in order.
    pub fn apply_stream_batch(&mut self, events: &[ConversationStreamEvent]) -> (updates: Vec<
        TranscriptUpdate,
    >)
        ensures
            (final(self).deep_view(), updates.deep_view()) == events_applied(
                old(self).deep_view(),
                crate::deep::models(events@),
                0,
            ),
    {
        let ghost models = crate::deep::models(events@);
        let ghost all = events_applied(self.deep_view(), models, 0);
        let mut updates: Vec<TranscriptUpdate> = Vec::new();
        let mut i: usize = 0;
        proof {
            assert(updates.deep_view() =~= Seq::<TranscriptUpdateModel>::empty());
            assert(Seq::<TranscriptUpdateModel>::empty() + all.1 =~= all.1);
        }
        while i < events.len()
            invariant
                models == crate::deep::models(events@),
                i <= events@.len(),
                events_applied(self.deep_view(), models, i as int).0 == all.0,
                updates.deep_view() + events_applied(self.deep_view(), models, i as int).1
                    == all.1,
            decreases events@.len() - i,
        {
            let ghost before = updates.deep_view();
            let ghost state = self.deep_view();
            proof {
                assert(models[i as int] == events@[i as int].deep_view());
            }
            let mut more = self.apply_stream_event(&events[i]);
            let ghost added = more.deep_view();
            updates.append(&mut more);
            proof {
                let rest = events_applied(self.deep_view(), models, i + 1).1;
                assert(before + (added + rest) =~= (before + added) + rest);
            }
            i += 1;
        }
        proof {
            assert(updates.deep_view() =~= all.1);
        }
        updates
    }

    /// Ends the running answer.
    pub fn finish_turn(
        &mut self,
        message: Option<IndexedMessage>,
        error: Option<GatewayError>,
    ) -> (update: Option<TranscriptUpdate>)
        ensures
            (final(self).deep_view(), update.deep_view()) == turn_finished(
                old(self).deep_view(),
                message.deep_view(),
                error.deep_view(),
            ),
    {
        reveal(turn_finished);
        let ghost turns = self.turns.deep_view();
        let last = match self.turns.pop() {
            Some(last) => last,
            None => {
                proof {
                    assert(self.turns.deep_view() =~= turns);
                }
                return None;
            },
        };
        let turn_id = last.turn_id;
        let mut turn = match message {
            Some(message) => apply_indexed_message(last, message, &mut self.next_part_id),
            None => last,
        };
        turn.error = error;
        turn.finish_reasoning(None);
        self.push_last(turn, Ghost(turns));
        self.streaming = None;
        Some(self.publish(TranscriptEvent::TurnReplaced { turn_id }))
    }

    /// Puts the last turn back.
    fn push_last(&mut self, turn: Turn, Ghost(before): Ghost<Seq<TurnModel>>)
        requires
            before.len() > 0,
            old(self).deep_view().turns == before.drop_last(),
        ensures
            final(self).deep_view() == (TranscriptModel {
                turns: before.update(before.len() - 1, turn.deep_view()),
                ..old(self).deep_view()
            }),
    {
        self.turns.push(turn);
        proof {
            assert(self.turns.deep_view() =~= before.update(before.len() - 1, turn.deep_view()));
        }
    }

    /// Appends a complete message.
    pub fn push_canonical_turn(&mut self, message: Message) -> (update: TranscriptUpdate)
        ensures
            ({
                let before = old(self).deep_view();
                let id = TurnId(before.next_turn_id);
                let (turn, next_part_id) = turn_of_message(
                    message.deep_view(),
                    id,
                    before.next_part_id,
                );
                (final(self).deep_view(), update.deep_view()) == published(
                    TranscriptModel {
                        next_turn_id: next_id(before.next_turn_id),
                        next_part_id,
                        ..with_turn(before, turn)
                    },
                    TranscriptEventModel::TailAppended { turn_ids: seq![id] },
                )
            }),
    {
        let turn_id = allocate_turn_id(&mut self.next_turn_id);
        let turn = Turn::from_llm(message, turn_id, &mut self.next_part_id);
        self.turns.push(turn);
        let mut turn_ids: Vec<TurnId> = Vec::new();
        turn_ids.push(turn_id);
        proof {
            assert(turn_ids.deep_view() =~= seq![turn_id]);
        }
        self.publish(TranscriptEvent::TailAppended { turn_ids })
    }

    /// Appends an empty turn.
    pub fn push_empty_turn(&mut self, role: Role) -> (update: TranscriptUpdate)
        ensures
            ({
                let before = old(self).deep_view();
                let id = TurnId(before.next_turn_id);
                (final(self).deep_view(), update.deep_view()) == published(
                    TranscriptModel {
                        next_turn_id: next_id(before.next_turn_id),
                        ..with_turn(before, empty_turn(role, id))
                    },
                    TranscriptEventModel::TailAppended { turn_ids: seq![id] },
                )
            }),
    {
        let turn_id = allocate_turn_id(&mut self.next_turn_id);
        self.turns.push(Turn::empty(role, turn_id));
        let mut turn_ids: Vec<TurnId> = Vec::new();
        turn_ids.push(turn_id);
        proof {
            assert(turn_ids.deep_view() =~= seq![turn_id]);
        }
        self.publish(TranscriptEvent::TailAppended { turn_ids })
    }

    fn adopt_parts(&mut self, parts: Vec<Part>) -> (result: Vec<Part>)
        ensures
            result.deep_view() == adopted_parts(
                parts.deep_view(),
                0,
                old(self).deep_view().next_part_id,
            ).0,
            final(self).deep_view() == (TranscriptModel {
                next_part_id: adopted_parts(
                    parts.deep_view(),
                    0,
                    old(self).deep_view().next_part_id,
                ).1,
                ..old(self).deep_view()
            }),
    {
        let ghost models = parts.deep_view();
        let ghost before = self.deep_view();
        let ghost all = adopted_parts(models, 0, self.next_part_id);
        let mut result: Vec<Part> = Vec::new();
        let mut i: usize = 0;
        proof {
            assert(result.deep_view() =~= Seq::<PartModel>::empty());
            assert(Seq::<PartModel>::empty() + all.0 =~= all.0);
        }
        while i < parts.len()
            invariant
                models == parts.deep_view(),
                i <= parts@.len(),
                self.deep_view() == (TranscriptModel {
                    next_part_id: self.next_part_id,
                    ..before
                }),
                adopted_parts(models, i as int, self.next_part_id).1 == all.1,
                result.deep_view() + adopted_parts(models, i as int, self.next_part_id).0 == all.0,
            decreases parts@.len() - i,
        {
            let ghost so_far = result.deep_view();
            let ghost next = self.next_part_id;
            proof {
                assert(models[i as int] == parts@[i as int].deep_view());
            }
            let mut part = parts[i].clone();
            part.part_id = allocate_part_id(&mut self.next_part_id);
            let ghost model = part.deep_view();
            result.push(part);
            proof {
                let rest = adopted_parts(models, i + 1, next_id(next)).0;
                assert(so_far + (seq![model] + rest) =~= so_far.push(model) + rest);
            }
            i += 1;
        }
        proof {
            assert(result.deep_view() =~= all.0);
        }
        result
    }

    fn adopt_turns(&mut self, turns: Vec<Turn>) -> (result: Vec<Turn>)
        ensures
            ({
                let before = old(self).deep_view();
                let (adopted, next_turn_id, next_part_id) = adopted_turns(
                    turns.deep_view(),
                    0,
                    before.next_turn_id,
                    before.next_part_id,
                );
                &&& result.deep_view() == adopted
                &&& final(self).deep_view() == (TranscriptModel {
                    next_turn_id,
                    next_part_id,
                    ..before
                })
            }),
    {
        let ghost models = turns.deep_view();
        let ghost before = self.deep_view();
        let ghost all = adopted_turns(models, 0, self.next_turn_id, self.next_part_id);
        let mut result: Vec<Turn> = Vec::new();
        let mut i: usize = 0;
        proof {
            assert(result.deep_view() =~= Seq::<TurnModel>::empty());
            assert(Seq::<TurnModel>::empty() + all.0 =~= all.0);
        }
        while i < turns.len()
            invariant
                models == turns.deep_view(),
                i <= turns@.len(),
                self.deep_view() == (TranscriptModel {
                    next_turn_id: self.next_turn_id,
                    next_part_id: self.next_part_id,
                    ..before
                }),
                adopted_turns(models, i as int, self.next_turn_id, self.next_part_id).1 == all.1,
                adopted_turns(models, i as int, self.next_turn_id, self.next_part_id).2 == all.2,
                result.deep_view() + adopted_turns(
                    models,
                    i as int,
                    self.next_turn_id,
                    self.next_part_id,
                ).0 == all.0,
            decreases turns@.len() - i,
        {
            let ghost so_far = result.deep_view();
            let ghost next_turn = self.next_turn_id;
            let ghost next_part = self.next_part_id;
            proof {
                assert(models[i as int] == turns@[i as int].deep_view());
            }
            let mut turn = turns[i].clone();
            let ghost copy = turn.deep_view();
            turn.turn_id = allocate_turn_id(&mut self.next_turn_id);
            let mut parts: Vec<Part> = Vec::new();
            std::mem::swap(&mut parts, &mut turn.parts);
            turn.parts = self.adopt_parts(parts);
            let ghost model = turn.deep_view();
            result.push(turn);
            proof {
                let after = adopted_parts(models[i as int].parts, 0, next_part).1;
                let rest = adopted_turns(models, i + 1, next_id(next_turn), after).0;
                assert(model == (TurnModel {
                    turn_id: TurnId(next_turn),
                    parts: adopted_parts(models[i as int].parts, 0, next_part).0,
                    ..models[i as int]
                }));
                assert(so_far + (seq![model] + rest) =~= so_far.push(model) + rest);
            }
            i += 1;
        }
        proof {
            assert(result.deep_view() =~= all.0);
        }
        result
    }

    fn apply_stream_event(&mut self, event: &ConversationStreamEvent) -> (updates: Vec<
        TranscriptUpdate,
    >)
        ensures
            (final(self).deep_view(), updates.deep_view()) == event_applied(
                old(self).deep_view(),
                event.deep_view(),
            ),
    {
        match event {
            ConversationStreamEvent::TextStarted { content_index, id } => one_update(
                self.start_text(*content_index, id.as_str()),
            ),
            ConversationStreamEvent::TextDelta { content_index, id, delta } => self.append_stream_part(
                StreamKind::Prose,
                *content_index,
                id.as_str(),
                delta.as_str(),
            ),
            ConversationStreamEvent::TextFinished { content_index, id, replay } => one_update(
                self.finish_stream_part(
                    StreamKind::Prose,
                    *content_index,
                    id.as_str(),
                    replay.clone(),
                ),
            ),
            ConversationStreamEvent::ReasoningStarted { content_index, id } => one_update(
                self.start_reasoning(*content_index, id.as_str()),
            ),
            ConversationStreamEvent::ReasoningDelta { content_index, id, delta } => self.append_stream_part(
                StreamKind::Reasoning,
                *content_index,
                id.as_str(),
                delta.as_str(),
            ),
            ConversationStreamEvent::ReasoningFinished { content_index, id, replay } => one_update(
                self.finish_stream_part(
                    StreamKind::Reasoning,
                    *content_index,
                    id.as_str(),
                    replay.clone(),
                ),
            ),
            ConversationStreamEvent::ReasoningSnapshotUpdated { content_index, id, reasoning } => one_update(
                self.update_reasoning_snapshot(*content_index, id.as_str(), reasoning.clone()),
            ),
            ConversationStreamEvent::ToolCallStarted { content_index, index, id, name } => one_update(
                self.start_tool_call(*content_index, *index, id.as_str(), name.as_str()),
            ),
            ConversationStreamEvent::ToolCallFinished { content_index, index, tool_call } => {
                let call: ToolCall = (**tool_call).clone();
                one_update(self.finish_tool_call(*content_index, *index, call))
            },
        }
    }

    fn insert_stream_part(
        &mut self,
        query: PartQuery,
        content_index: usize,
        source: PartSource,
    ) -> (update: Option<TranscriptUpdate>)
        ensures
            (final(self).deep_view(), update.deep_view()) == part_inserted(
                old(self).deep_view(),
                query.deep_view(),
                content_index,
                source.deep_view(),
            ),
    {
        reveal(part_inserted);
        let count = self.turns.len();
        if count == 0 {
            return None;
        }
        match seek_part(&self.turns[count - 1].parts, &query) {
            Some(_) => {
                return None;
            },
            None => {},
        }
        let part_id = allocate_part_id(&mut self.next_part_id);
        let turn_id = self.put_part(Part::new(part_id, content_index, source, false));
        self.streaming = Some((turn_id, part_id));
        Some(self.publish(TranscriptEvent::PartInserted { turn_id, part_id }))
    }

    /// Puts a part into the last turn, in the order of content indices.
    fn put_part(&mut self, part: Part) -> (turn_id: TurnId)
        requires
            old(self).deep_view().turns.len() > 0,
        ensures
            ({
                let before = old(self).deep_view();
                let last = before.turns.last();
                &&& turn_id == last.turn_id
                &&& final(self).deep_view() == with_last(
                    before,
                    TurnModel {
                        parts: in_content_order(last.parts.push(part.deep_view())),
                        ..last
                    },
                )
            }),
    {
        let ghost turns = self.turns.deep_view();
        let mut last = self.turns.pop().unwrap();
        proof {
            assert(last.deep_view() == turns.last());
        }
        let turn_id = last.turn_id;
        let mut parts: Vec<Part> = Vec::new();
        std::mem::swap(&mut parts, &mut last.parts);
        parts.push(part);
        last.parts = sort_parts(parts);
        self.push_last(last, Ghost(turns));
        turn_id
    }

    /// Replaces a part of the last turn, and publishes that.
    fn change_part(&mut self, at: usize, part: Part, change: PartChange, delta: &str) -> (update:
        TranscriptUpdate)
        requires
            old(self).deep_view().turns.len() > 0,
            at < old(self).deep_view().turns.last().parts.len(),
        ensures
            (final(self).deep_view(), update.deep_view()) == part_changed(
                old(self).deep_view(),
                at as int,
                part.deep_view(),
                change,
                delta@,
            ),
    {
        let ghost turns = self.turns.deep_view();
        let mut last = self.turns.pop().unwrap();
        proof {
            assert(last.deep_view() == turns.last());
        }
        let turn_id = last.turn_id;
        let part_id = part.part_id;
        last.parts.set(at, part);
        self.push_last(last, Ghost(turns));
        match change {
            PartChange::Append => {
                self.streaming = Some((turn_id, part_id));
            },
            _ => {},
        }
        self.publish(
            TranscriptEvent::PartChanged { turn_id, part_id, change, delta: delta.to_owned() },
        )
    }

    fn append_stream_part(
        &mut self,
        kind: StreamKind,
        content_index: usize,
        stream_id: &str,
        delta: &str,
    ) -> (updates: Vec<TranscriptUpdate>)
        ensures
            (final(self).deep_view(), updates.deep_view()) == delta_appended(
                old(self).deep_view(),
                kind,
                content_index,
                stream_id@,
                delta@,
            ),
    {
        reveal(delta_appended);
        if delta.is_empty() {
            return Vec::new();
        }
        let inserted = self.insert_stream_part(
            stream_part(kind, content_index, stream_id),
            content_index,
            stream_source(kind, stream_id),
        );
        let mut updates = one_update(inserted);
        let count = self.turns.len();
        if count == 0 {
            return updates;
        }
        let query = stream_part(kind, content_index, stream_id);
        let at = match seek_part(&self.turns[count - 1].parts, &query) {
            Some(at) => at,
            None => {
                return updates;
            },
        };
        let part = self.turns[count - 1].parts[at].clone();
        if part.finished {
            return updates;
        }
        let changed = Part {
            part_id: part.part_id,
            content_index: part.content_index,
            source: append_delta(part.source, delta),
            finished: part.finished,
        };
        updates.push(self.change_part(at, changed, PartChange::Append, delta));
        updates
    }

    fn finish_stream_part(
        &mut self,
        kind: StreamKind,
        content_index: usize,
        stream_id: &str,
        replay: Option<ProviderMetadata>,
    ) -> (update: Option<TranscriptUpdate>)
        ensures
            (final(self).deep_view(), update.deep_view()) == stream_finished(
                old(self).deep_view(),
                kind,
                content_index,
                stream_id@,
                replay.deep_view(),
            ),
    {
        reveal(stream_finished);
        let count = self.turns.len();
        if count == 0 {
            return None;
        }
        let query = stream_part(kind, content_index, stream_id);
        let at = match seek_part(&self.turns[count - 1].parts, &query) {
            Some(at) => at,
            None => {
                return None;
            },
        };
        let part = self.turns[count - 1].parts[at].clone();
        let changed = Part {
            part_id: part.part_id,
            content_index: part.content_index,
            source: set_replay(part.source, replay),
            finished: true,
        };
        let empty = String::new();
        Some(self.change_part(at, changed, PartChange::Finished, empty.as_str()))
    }

    fn start_text(&mut self, content_index: usize, id: &str) -> (update: Option<TranscriptUpdate>)
        ensures
            (final(self).deep_view(), update.deep_view()) == part_inserted(
                old(self).deep_view(),
                PartQueryModel::Text(content_index, id@),
                content_index,
                fresh_source(StreamKind::Prose, id@),
            ),
    {
        self.insert_stream_part(
            PartQuery::Text(content_index, id),
            content_index,
            stream_source(StreamKind::Prose, id),
        )
    }

    fn start_reasoning(&mut self, content_index: usize, id: &str) -> (update: Option<
        TranscriptUpdate,
    >)
        ensures
            (final(self).deep_view(), update.deep_view()) == part_inserted(
                old(self).deep_view(),
                PartQueryModel::Reasoning(content_index, id@),
                content_index,
                fresh_source(StreamKind::Reasoning, id@),
            ),
    {
        self.insert_stream_part(
            PartQuery::Reasoning(content_index, id),
            content_index,
            stream_source(StreamKind::Reasoning, id),
        )
    }

    fn update_reasoning_snapshot(
        &mut self,
        content_index: usize,
        id: &str,
        snapshot: ReasoningContent,
    ) -> (update: Option<TranscriptUpdate>)
        ensures
            (final(self).deep_view(), update.deep_view()) == snapshot_updated(
                old(self).deep_view(),
                content_index,
                id@,
                snapshot.deep_view(),
            ),
    {
        reveal(snapshot_updated);
        let count = self.turns.len();
        if count == 0 {
            return None;
        }
        let query = PartQuery::Reasoning(content_index, id);
        let at = match seek_part(&self.turns[count - 1].parts, &query) {
            Some(at) => at,
            None => {
                return None;
            },
        };
        let part_id = self.turns[count - 1].parts[at].part_id;
        let index = self.turns[count - 1].parts[at].content_index;
        if !self.turns[count - 1].parts[at].finished {
            return None;
        }
        let changed = Part {
            part_id,
            content_index: index,
            source: PartSource::Reasoning { reasoning: snapshot, stream_id: id.to_owned() },
            finished: true,
        };
        let empty = String::new();
        Some(self.change_part(at, changed, PartChange::Replace, empty.as_str()))
    }

    fn start_tool_call(&mut self, content_index: usize, index: usize, id: &str, name: &str) -> (update:
        Option<TranscriptUpdate>)
        ensures
            (final(self).deep_view(), update.deep_view()) == part_inserted(
                old(self).deep_view(),
                PartQueryModel::ToolCall(content_index),
                content_index,
                PartSourceModel::ToolCall { index, id: id@, name: name@, tool_call: None },
            ),
    {
        self.insert_stream_part(
            PartQuery::ToolCall(content_index),
            content_index,
            PartSource::ToolCall {
                index,
                id: id.to_owned(),
                name: name.to_owned(),
                tool_call: None,
            },
        )
    }

    fn finish_tool_call(&mut self, content_index: usize, index: usize, tool_call: ToolCall) -> (update:
        Option<TranscriptUpdate>)
        ensures
            (final(self).deep_view(), update.deep_view()) == call_finished(
                old(self).deep_view(),
                content_index,
                index,
                tool_call.deep_view(),
            ),
    {
        reveal(call_finished);
        let count = self.turns.len();
        if count == 0 {
            return None;
        }
        let source = PartSource::ToolCall {
            index,
            id: tool_call.id.clone(),
            name: tool_call.name.clone(),
            tool_call: Some(tool_call),
        };
        let query = PartQuery::ToolCallIndex(content_index, index);
        match seek_part(&self.turns[count - 1].parts, &query) {
            Some(at) => {
                let part_id = self.turns[count - 1].parts[at].part_id;
                let slot = self.turns[count - 1].parts[at].content_index;
                let changed = Part { part_id, content_index: slot, source, finished: true };
                let empty = String::new();
                Some(self.change_part(at, changed, PartChange::Finished, empty.as_str()))
            },
            None => {
                let part_id = allocate_part_id(&mut self.next_part_id);
                let turn_id = self.put_part(Part::new(part_id, content_index, source, true));
                Some(self.publish(TranscriptEvent::PartInserted { turn_id, part_id }))
            },
        }
    }

    fn publish(&mut self, event: TranscriptEvent) -> (update: TranscriptUpdate)
        ensures
            (final(self).deep_view(), update.deep_view()) == published(
                old(self).deep_view(),
                event.deep_view(),
            ),
    {
        self.revision = self.revision.saturating_add(1);
        TranscriptUpdate { snapshot: self.snapshot(), event }
    }
}

fn one_update(update: Option<TranscriptUpdate>) -> (updates: Vec<TranscriptUpdate>)
    ensures
        updates.deep_view() == updates_of(update.deep_view()),
{
    let mut updates: Vec<TranscriptUpdate> = Vec::new();
    proof {
        assert(updates.deep_view() =~= Seq::<TranscriptUpdateModel>::empty());
    }
    match update {
        Some(update) => {
            let ghost model = update.deep_view();
            updates.push(update);
            proof {
                assert(updates.deep_view() =~= seq![model]);
            }
        },
        None => {},
    }
    updates
}

/// The title of a text. Where there is nothing to read it is `default_title`.
#[must_use]
pub fn derive_title(text: &str, default_title: &str) -> (title: String)
    ensures
        title@ == title_of(text@, default_title@),
{
    let chars = chars_of(text);
    let ghost line = one_line(text@);
    let mut cleaned: Vec<char> = Vec::new();
    let mut i: usize = 0;
    proof {
        assert(cleaned@ =~= line.take(0));
    }
    while i < chars.len()
        invariant
            chars@ == text@,
            line == one_line(text@),
            i <= chars@.len(),
            cleaned@ == line.take(i as int),
        decreases chars@.len() - i,
    {
        let c = chars[i];
        cleaned.push(
            if c == '\n' {
                ' '
            } else {
                c
            },
        );
        proof {
            assert(line.take(i + 1) =~= line.take(i as int).push(line[i as int]));
        }
        i += 1;
    }
    proof {
        assert(line.take(i as int) =~= line);
    }
    let title = if cleaned.len() > 40 {
        cleaned.truncate(37);
        let mut title = string_of(&cleaned);
        title.append("...");
        title
    } else {
        string_of(&cleaned)
    };
    if blank(title.as_str()) {
        default_title.to_owned()
    } else {
        title
    }
}

#[must_use]
pub fn title_from_turns(turns: &[Turn], default_title: &str) -> (title: Option<String>)
    ensures
        title.deep_view() == turns_title(crate::deep::models(turns@), default_title@),
{
    let ghost all = crate::deep::models(turns@);
    let mut i: usize = 0;
    while i < turns.len()
        invariant
            all == crate::deep::models(turns@),
            i <= turns@.len(),
            first_user_turn(all, 0) == first_user_turn(all, i as int),
        decreases turns@.len() - i,
    {
        proof {
            assert(all[i as int] == turns@[i as int].deep_view());
        }
        if turns[i].role == Role::User {
            return match first_prose(&turns[i].parts) {
                Some(text) => Some(derive_title(text.as_str(), default_title)),
                None => None,
            };
        }
        i += 1;
    }
    None
}

fn first_prose(parts: &Vec<Part>) -> (text: Option<&String>)
    ensures
        text.deep_view() == first_readable(parts.deep_view(), 0),
{
    let ghost all = parts.deep_view();
    let mut i: usize = 0;
    while i < parts.len()
        invariant
            all == parts.deep_view(),
            i <= parts@.len(),
            first_readable(all, 0) == first_readable(all, i as int),
        decreases parts@.len() - i,
    {
        proof {
            assert(all[i as int] == parts@[i as int].deep_view());
        }
        match &parts[i].source {
            PartSource::Prose { text, .. } => {
                if !blank(text.as_str()) {
                    return Some(text);
                }
            },
            _ => {},
        }
        i += 1;
    }
    None
}

#[must_use]
pub fn title_from_llm_messages(messages: &[Message], default_title: &str) -> (title: Option<String>)
    ensures
        title.deep_view() == messages_title(
            crate::deep::models(messages@),
            0,
            default_title@,
        ),
{
    let ghost all = crate::deep::models(messages@);
    let mut i: usize = 0;
    while i < messages.len()
        invariant
            all == crate::deep::models(messages@),
            i <= messages@.len(),
            messages_title(all, 0, default_title@) == messages_title(
                all,
                i as int,
                default_title@,
            ),
        decreases messages@.len() - i,
    {
        proof {
            assert(all[i as int] == messages@[i as int].deep_view());
        }
        if messages[i].role == llm::model::Role::User {
            match readable_block(&messages[i].content) {
                Some(text) => {
                    return Some(derive_title(text.as_str(), default_title));
                },
                None => {},
            }
        }
        i += 1;
    }
    None
}

/// The title of a stored conversation.
#[must_use]
pub fn title_from_resolved_state(state: &[ResolvedMessage], default_title: &str) -> (title: Option<
    String,
>)
    ensures
        title.deep_view() == messages_title(
            stored_messages(crate::deep::models(state@)),
            0,
            default_title@,
        ),
{
    let mut messages: Vec<Message> = Vec::new();
    let ghost all = stored_messages(crate::deep::models(state@));
    let mut i: usize = 0;
    proof {
        assert(messages.deep_view() =~= all.take(0));
    }
    while i < state.len()
        invariant
            all == stored_messages(crate::deep::models(state@)),
            i <= state@.len(),
            messages.deep_view() == all.take(i as int),
        decreases state@.len() - i,
    {
        messages.push(state[i].message.clone());
        proof {
            assert(all[i as int] == state@[i as int].deep_view().message);
            assert(all.take(i + 1) =~= all.take(i as int).push(all[i as int]));
        }
        i += 1;
    }
    proof {
        assert(all.take(i as int) =~= all);
    }
    title_from_llm_messages(messages.as_slice(), default_title)
}

fn readable_block(blocks: &Vec<ContentBlock>) -> (text: Option<&String>)
    ensures
        text.deep_view() == first_text(blocks.deep_view(), 0),
{
    let ghost all = blocks.deep_view();
    let mut i: usize = 0;
    while i < blocks.len()
        invariant
            all == blocks.deep_view(),
            i <= blocks@.len(),
            first_text(all, 0) == first_text(all, i as int),
        decreases blocks@.len() - i,
    {
        proof {
            assert(all[i as int] == blocks@[i as int].deep_view());
        }
        match &blocks[i] {
            ContentBlock::Text { text, .. } => {
                if !blank(text.as_str()) {
                    return Some(text);
                }
            },
            _ => {},
        }
        i += 1;
    }
    None
}

/// The prose of a turn that there is to copy, part by part.
#[must_use]
pub fn copyable_text(turn: &Turn) -> (text: String)
    ensures
        text@ == readable_text(turn.deep_view().parts, 0, Seq::empty()),
{
    let ghost all = turn.parts.deep_view();
    let mut text = String::new();
    let mut i: usize = 0;
    while i < turn.parts.len()
        invariant
            all == turn.parts.deep_view(),
            i <= turn.parts@.len(),
            readable_text(all, 0, Seq::empty()) == readable_text(all, i as int, text@),
        decreases turn.parts@.len() - i,
    {
        proof {
            assert(all[i as int] == turn.parts@[i as int].deep_view());
        }
        match &turn.parts[i].source {
            PartSource::Prose { text: prose, .. } => {
                if !blank(prose.as_str()) {
                    if !text.as_str().is_empty() {
                        text.push('\n');
                    }
                    text.append(prose.as_str());
                }
            },
            _ => {},
        }
        i += 1;
    }
    text
}

#[must_use]
pub fn stream_ended(turn: &Turn) -> (yes: bool)
    ensures
        yes == all_streams_ended(turn.deep_view().parts),
{
    let ghost all = turn.parts.deep_view();
    let mut i: usize = 0;
    while i < turn.parts.len()
        invariant
            all == turn.parts.deep_view(),
            i <= turn.parts@.len(),
            forall|k: int|
                0 <= k < i ==> match kind_of((#[trigger] all[k]).source) {
                    PartKind::Prose | PartKind::Reasoning => all[k].finished,
                    _ => true,
                },
        decreases turn.parts@.len() - i,
    {
        proof {
            assert(all[i as int] == turn.parts@[i as int].deep_view());
        }
        let ended = match turn.parts[i].kind() {
            PartKind::Prose | PartKind::Reasoning => turn.parts[i].finished,
            PartKind::ToolCall | PartKind::ToolResult => true,
        };
        if !ended {
            return false;
        }
        i += 1;
    }
    true
}

#[must_use]
pub fn has_copyable_text(turn: &Turn) -> (yes: bool)
    ensures
        yes == has_readable(turn.deep_view().parts),
{
    let ghost all = turn.parts.deep_view();
    let mut i: usize = 0;
    while i < turn.parts.len()
        invariant
            all == turn.parts.deep_view(),
            i <= turn.parts@.len(),
            forall|k: int| 0 <= k < i ==> !is_readable(#[trigger] all[k]),
        decreases turn.parts@.len() - i,
    {
        proof {
            assert(all[i as int] == turn.parts@[i as int].deep_view());
        }
        match &turn.parts[i].source {
            PartSource::Prose { text, .. } => {
                if !blank(text.as_str()) {
                    proof {
                        assert(is_readable(all[i as int]));
                    }
                    return true;
                }
            },
            _ => {},
        }
        i += 1;
    }
    false
}

} // verus!
