//! The message that a stream of events adds up to.

use vstd::prelude::*;
use vstd::string::*;

use crate::llm::error::{protocol_error, GatewayError, GatewayErrorModel};
use crate::llm::event::{
    GenerationEvent, GenerationEventModel, IndexedContentBlock, IndexedContentBlockModel,
    IndexedMessage, IndexedMessageModel,
};
use crate::llm::model::{
    no_metadata, ContentBlock, ContentBlockModel, ProviderMetadata, ProviderMetadataModel,
    ReasoningContent, ReasoningContentModel, ReplayMetadata, Role, ToolCall, ToolCallModel,
};
use crate::ordered::{find, find_after_put, put, put_twice, sorted, IndexMap};
use crate::text::same_text;

verus! {

broadcast use crate::deep::group_models;

/// A block of the message while it is put together.
pub enum AssembledBlock {
    Text { id: String, text: String, replay: Option<ReplayMetadata>, finished: bool },
    Reasoning { id: String, display: String, replay: Option<ReplayMetadata>, finished: bool },
    Tool { index: usize, tool_call: Option<ToolCall> },
}

/// What an [`AssembledBlock`] stands for.
pub enum AssembledModel {
    Text {
        id: Seq<char>,
        text: Seq<char>,
        replay: Option<ProviderMetadataModel>,
        finished: bool,
    },
    Reasoning {
        id: Seq<char>,
        display: Seq<char>,
        replay: Option<ProviderMetadataModel>,
        finished: bool,
    },
    Tool { index: usize, tool_call: Option<ToolCallModel> },
}

impl DeepView for AssembledBlock {
    type V = AssembledModel;

    open spec fn deep_view(&self) -> AssembledModel {
        match self {
            AssembledBlock::Text { id, text, replay, finished } => AssembledModel::Text {
                id: id@,
                text: text@,
                replay: replay.deep_view(),
                finished: *finished,
            },
            AssembledBlock::Reasoning { id, display, replay, finished } => AssembledModel::Reasoning {
                id: id@,
                display: display@,
                replay: replay.deep_view(),
                finished: *finished,
            },
            AssembledBlock::Tool { index, tool_call } => AssembledModel::Tool {
                index: *index,
                tool_call: tool_call.deep_view(),
            },
        }
    }
}

/// The blocks of the message by content index.
pub type Blocks = Seq<(usize, AssembledModel)>;

pub open spec fn reused_index() -> GatewayErrorModel {
    protocol_error("content index was reused by a different block"@)
}

/// A text block starts. Starting it again changes nothing.
pub open spec fn start_text(blocks: Blocks, content_index: usize, id: Seq<char>) -> (
    Blocks,
    Option<GatewayErrorModel>,
) {
    match find(blocks, content_index) {
        None => (
            put(
                blocks,
                content_index,
                AssembledModel::Text { id, text: Seq::empty(), replay: None, finished: false },
            ),
            None,
        ),
        Some(AssembledModel::Text { id: current, .. }) => if current == id {
            (blocks, None)
        } else {
            (blocks, Some(reused_index()))
        },
        Some(_) => (blocks, Some(reused_index())),
    }
}

/// A reasoning block starts. Starting it again changes nothing.
pub open spec fn start_reasoning(blocks: Blocks, content_index: usize, id: Seq<char>) -> (
    Blocks,
    Option<GatewayErrorModel>,
) {
    match find(blocks, content_index) {
        None => (
            put(
                blocks,
                content_index,
                AssembledModel::Reasoning {
                    id,
                    display: Seq::empty(),
                    replay: None,
                    finished: false,
                },
            ),
            None,
        ),
        Some(AssembledModel::Reasoning { id: current, .. }) => if current == id {
            (blocks, None)
        } else {
            (blocks, Some(reused_index()))
        },
        Some(_) => (blocks, Some(reused_index())),
    }
}

/// A started text block.
pub struct TextState {
    pub text: Seq<char>,
    pub replay: Option<ProviderMetadataModel>,
    pub finished: bool,
}

/// The text block that an event speaks of, which must have started.
pub open spec fn text_at(blocks: Blocks, content_index: usize, id: Seq<char>) -> Option<TextState> {
    match find(blocks, content_index) {
        Some(AssembledModel::Text { id: current, text, replay, finished }) => if current == id {
            Some(TextState { text, replay, finished })
        } else {
            None
        },
        _ => None,
    }
}

/// The reasoning block that an event speaks of, which must have started.
pub open spec fn reasoning_at(blocks: Blocks, content_index: usize, id: Seq<char>) -> Option<
    TextState,
> {
    match find(blocks, content_index) {
        Some(AssembledModel::Reasoning { id: current, display, replay, finished }) => if current
            == id {
            Some(TextState { text: display, replay, finished })
        } else {
            None
        },
        _ => None,
    }
}

pub open spec fn put_text(
    blocks: Blocks,
    content_index: usize,
    id: Seq<char>,
    state: TextState,
) -> Blocks {
    put(
        blocks,
        content_index,
        AssembledModel::Text {
            id,
            text: state.text,
            replay: state.replay,
            finished: state.finished,
        },
    )
}

pub open spec fn put_reasoning(
    blocks: Blocks,
    content_index: usize,
    id: Seq<char>,
    state: TextState,
) -> Blocks {
    put(
        blocks,
        content_index,
        AssembledModel::Reasoning {
            id,
            display: state.text,
            replay: state.replay,
            finished: state.finished,
        },
    )
}

pub open spec fn unknown_text() -> GatewayErrorModel {
    protocol_error("text event did not match a started content block"@)
}

pub open spec fn unknown_reasoning() -> GatewayErrorModel {
    protocol_error("reasoning event did not match a started content block"@)
}

/// The blocks after an event, and the error of an event that does not fit them.
#[verifier::opaque]
pub open spec fn observed(blocks: Blocks, event: GenerationEventModel) -> (
    Blocks,
    Option<GatewayErrorModel>,
) {
    match event {
        GenerationEventModel::TextStarted { content_index, id } => start_text(
            blocks,
            content_index,
            id,
        ),
        GenerationEventModel::TextDelta { content_index, id, delta } => match text_at(
            blocks,
            content_index,
            id,
        ) {
            None => (blocks, Some(unknown_text())),
            Some(state) => if state.finished {
                (blocks, Some(protocol_error("text delta arrived after content completion"@)))
            } else {
                (
                    put_text(
                        blocks,
                        content_index,
                        id,
                        TextState { text: state.text + delta, ..state },
                    ),
                    None,
                )
            },
        },
        GenerationEventModel::TextFinished { content_index, id, replay } => match text_at(
            blocks,
            content_index,
            id,
        ) {
            None => (blocks, Some(unknown_text())),
            Some(state) => (
                put_text(
                    blocks,
                    content_index,
                    id,
                    TextState {
                        finished: true,
                        replay: if replay.is_some() {
                            replay
                        } else {
                            state.replay
                        },
                        ..state
                    },
                ),
                None,
            ),
        },
        GenerationEventModel::ReasoningStarted { content_index, id } => start_reasoning(
            blocks,
            content_index,
            id,
        ),
        GenerationEventModel::ReasoningDelta { content_index, id, delta } => match reasoning_at(
            blocks,
            content_index,
            id,
        ) {
            None => (blocks, Some(unknown_reasoning())),
            Some(state) => if state.finished {
                (
                    blocks,
                    Some(protocol_error("reasoning delta arrived after content completion"@)),
                )
            } else {
                (
                    put_reasoning(
                        blocks,
                        content_index,
                        id,
                        TextState { text: state.text + delta, ..state },
                    ),
                    None,
                )
            },
        },
        GenerationEventModel::ReasoningFinished { content_index, id, replay } => match reasoning_at(
            blocks,
            content_index,
            id,
        ) {
            None => (blocks, Some(unknown_reasoning())),
            Some(state) => (
                put_reasoning(
                    blocks,
                    content_index,
                    id,
                    TextState {
                        finished: true,
                        replay: if replay.is_some() {
                            replay
                        } else {
                            state.replay
                        },
                        ..state
                    },
                ),
                None,
            ),
        },
        GenerationEventModel::ReasoningSnapshotUpdated { content_index, id, reasoning } => match reasoning_at(
            blocks,
            content_index,
            id,
        ) {
            None => (blocks, Some(unknown_reasoning())),
            Some(state) => if !state.finished {
                (
                    blocks,
                    Some(protocol_error("reasoning snapshot arrived before content completion"@)),
                )
            } else {
                (
                    put_reasoning(
                        blocks,
                        content_index,
                        id,
                        TextState {
                            text: reasoning.display,
                            replay: reasoning.replay,
                            finished: true,
                        },
                    ),
                    None,
                )
            },
        },
        GenerationEventModel::ToolCallStarted { content_index, index, .. } => match find(
            blocks,
            content_index,
        ) {
            None => (
                put(blocks, content_index, AssembledModel::Tool { index, tool_call: None }),
                None,
            ),
            Some(AssembledModel::Tool { index: current, .. }) => if current == index {
                (blocks, None)
            } else {
                (blocks, Some(reused_index()))
            },
            Some(_) => (blocks, Some(reused_index())),
        },
        GenerationEventModel::ToolCallFinished { content_index, index, tool_call } => {
            let placed = put(
                blocks,
                content_index,
                AssembledModel::Tool { index, tool_call: Some(tool_call) },
            );
            let mismatch = protocol_error("tool completion did not match its content block"@);
            match find(blocks, content_index) {
                None => (placed, None),
                Some(AssembledModel::Tool { index: current, .. }) => if current == index {
                    (placed, None)
                } else {
                    (blocks, Some(mismatch))
                },
                Some(_) => (blocks, Some(mismatch)),
            }
        },
        _ => (blocks, None),
    }
}

/// The content that a block contributes to the message. An empty text or reasoning contributes
/// nothing, and neither does a call that did not finish.
pub open spec fn content_of(block: AssembledModel) -> Option<ContentBlockModel> {
    match block {
        AssembledModel::Text { text, replay, .. } => if text.len() == 0 {
            None
        } else {
            Some(
                ContentBlockModel::Text {
                    text,
                    provider_metadata: match replay {
                        Some(metadata) => metadata,
                        None => no_metadata(),
                    },
                },
            )
        },
        AssembledModel::Reasoning { display, replay, .. } => if display.len() == 0
            && replay.is_none() {
            None
        } else {
            Some(
                ContentBlockModel::Reasoning {
                    reasoning: ReasoningContentModel { display, replay },
                },
            )
        },
        AssembledModel::Tool { tool_call, .. } => match tool_call {
            Some(tool_call) => Some(ContentBlockModel::ToolCall { tool_call }),
            None => None,
        },
    }
}

/// The content of the blocks from position `start` on, each with its index.
pub open spec fn assembled_content(blocks: Blocks, start: int) -> Seq<IndexedContentBlockModel>
    decreases blocks.len() - start,
{
    if start < 0 || start >= blocks.len() {
        Seq::empty()
    } else {
        match content_of(blocks[start].1) {
            Some(block) => seq![
                IndexedContentBlockModel { content_index: blocks[start].0, block },
            ] + assembled_content(blocks, start + 1),
            None => assembled_content(blocks, start + 1),
        }
    }
}

/// The message that the blocks add up to.
pub open spec fn assembled_message(blocks: Blocks) -> IndexedMessageModel {
    IndexedMessageModel {
        role: Role::Assistant,
        content: assembled_content(blocks, 0),
        provider_metadata: no_metadata(),
    }
}

/// Whether the blocks add up to nothing.
pub open spec fn contributes_nothing(blocks: Blocks) -> bool {
    assembled_content(blocks, 0).len() == 0
}

/// Whether content stands in the order of its indices, each index once.
pub open spec fn in_order(content: Seq<IndexedContentBlockModel>) -> bool {
    forall|i: int, j: int|
        0 <= i < j < content.len() ==> content[i].content_index < content[j].content_index
}

proof fn lemma_content_in_order(blocks: Blocks, start: int)
    requires
        sorted(blocks),
        0 <= start,
    ensures
        in_order(assembled_content(blocks, start)),
        forall|i: int|
            #![trigger assembled_content(blocks, start)[i]]
            0 <= i < assembled_content(blocks, start).len() ==> start < blocks.len() && blocks[start].0
                <= assembled_content(blocks, start)[i].content_index,
    decreases blocks.len() - start,
{
    if start < blocks.len() {
        lemma_content_in_order(blocks, start + 1);
        let rest = assembled_content(blocks, start + 1);
        let all = assembled_content(blocks, start);
        match content_of(blocks[start].1) {
            Some(block) => {
                assert forall|i: int, j: int| 0 <= i < j < all.len() implies all[i].content_index
                    < all[j].content_index by {
                    assert(all[j] == rest[j - 1]);
                    if i > 0 {
                        assert(all[i] == rest[i - 1]);
                    }
                }
                assert forall|i: int| 0 <= i < all.len() implies blocks[start].0
                    <= #[trigger] all[i].content_index by {
                    if i > 0 {
                        assert(all[i] == rest[i - 1]);
                    }
                }
            },
            None => {},
        }
    }
}

/// The message stands in the order of its content indices, whatever order its blocks came in.
pub proof fn messages_are_in_order(blocks: Blocks)
    requires
        sorted(blocks),
    ensures
        in_order(assembled_message(blocks).content),
{
    lemma_content_in_order(blocks, 0);
}

/// A block that ended takes no more text.
pub proof fn finished_blocks_take_no_delta(
    blocks: Blocks,
    content_index: usize,
    id: Seq<char>,
    delta: Seq<char>,
)
    ensures
        text_at(blocks, content_index, id) is Some && text_at(
            blocks,
            content_index,
            id,
        )->0.finished ==> observed(
            blocks,
            GenerationEventModel::TextDelta { content_index, id, delta },
        ) == (
            blocks,
            Some(protocol_error("text delta arrived after content completion"@)),
        ),
        reasoning_at(blocks, content_index, id) is Some && reasoning_at(
            blocks,
            content_index,
            id,
        )->0.finished ==> observed(
            blocks,
            GenerationEventModel::ReasoningDelta { content_index, id, delta },
        ) == (
            blocks,
            Some(protocol_error("reasoning delta arrived after content completion"@)),
        ),
{
    reveal(observed);
}

/// A text that comes in two pieces is the text that comes in one.
pub proof fn deltas_add_up(
    blocks: Blocks,
    content_index: usize,
    id: Seq<char>,
    first: Seq<char>,
    second: Seq<char>,
)
    requires
        sorted(blocks),
    ensures
        ({
            let once = observed(
                blocks,
                GenerationEventModel::TextDelta { content_index, id, delta: first },
            );
            let twice = observed(
                once.0,
                GenerationEventModel::TextDelta { content_index, id, delta: second },
            );
            let whole = observed(
                blocks,
                GenerationEventModel::TextDelta { content_index, id, delta: first + second },
            );
            twice == whole
        }),
        ({
            let once = observed(
                blocks,
                GenerationEventModel::ReasoningDelta { content_index, id, delta: first },
            );
            let twice = observed(
                once.0,
                GenerationEventModel::ReasoningDelta { content_index, id, delta: second },
            );
            let whole = observed(
                blocks,
                GenerationEventModel::ReasoningDelta { content_index, id, delta: first + second },
            );
            twice == whole
        }),
{
    reveal(observed);
    match text_at(blocks, content_index, id) {
        Some(state) => if !state.finished {
            let text = AssembledModel::Text {
                id,
                text: state.text + first,
                replay: state.replay,
                finished: false,
            };
            let both = AssembledModel::Text {
                id,
                text: state.text + (first + second),
                replay: state.replay,
                finished: false,
            };
            assert((state.text + first) + second =~= state.text + (first + second));
            find_after_put(blocks, content_index, text, content_index);
            put_twice(blocks, content_index, text, both);
        },
        None => {},
    }
    match reasoning_at(blocks, content_index, id) {
        Some(state) => if !state.finished {
            let text = AssembledModel::Reasoning {
                id,
                display: state.text + first,
                replay: state.replay,
                finished: false,
            };
            let both = AssembledModel::Reasoning {
                id,
                display: state.text + (first + second),
                replay: state.replay,
                finished: false,
            };
            assert((state.text + first) + second =~= state.text + (first + second));
            find_after_put(blocks, content_index, text, content_index);
            put_twice(blocks, content_index, text, both);
        },
        None => {},
    }
}

/// An event that is refused leaves the blocks as they were.
pub proof fn refused_events_change_nothing(blocks: Blocks, event: GenerationEventModel)
    requires
        observed(blocks, event).1 is Some,
    ensures
        observed(blocks, event).0 == blocks,
{
    reveal(observed);
}

/// Puts the message of a stream together, event by event.
pub struct MessageAssembler {
    blocks: IndexMap<AssembledBlock>,
}

impl DeepView for MessageAssembler {
    type V = Blocks;

    closed spec fn deep_view(&self) -> Blocks {
        self.blocks.deep_view()
    }
}

fn refusal(message: &str) -> (result: Result<(), GatewayError>)
    ensures
        result is Err,
        result->Err_0.deep_view() == protocol_error(message@),
{
    Err(GatewayError::protocol(message))
}

/// The error of a result.
pub open spec fn error_of(result: Result<(), GatewayError>) -> Option<GatewayErrorModel> {
    match result {
        Ok(()) => None,
        Err(error) => Some(error.deep_view()),
    }
}

/// The content of a started text or reasoning block.
struct OpenText {
    text: String,
    replay: Option<ReplayMetadata>,
    finished: bool,
}

impl DeepView for OpenText {
    type V = TextState;

    closed spec fn deep_view(&self) -> TextState {
        TextState { text: self.text@, replay: self.replay.deep_view(), finished: self.finished }
    }
}

impl MessageAssembler {
    pub fn new() -> (assembler: Self)
        ensures
            assembler.deep_view() == Seq::<(usize, AssembledModel)>::empty(),
    {
        MessageAssembler { blocks: IndexMap::new() }
    }

    pub fn is_empty(&self) -> (empty: bool)
        ensures
            empty == contributes_nothing(self.deep_view()),
    {
        let ghost all = self.deep_view();
        let count = self.blocks.len();
        let mut i: usize = 0;
        while i < count
            invariant
                all == self.blocks.deep_view(),
                all == self.deep_view(),
                count == all.len(),
                i <= count,
                assembled_content(all, 0) == assembled_content(all, i as int),
            decreases count - i,
        {
            let contributes = match self.blocks.value_at(i) {
                AssembledBlock::Text { text, .. } => !text.as_str().is_empty(),
                AssembledBlock::Reasoning { display, replay, .. } => !display.as_str().is_empty()
                    || replay.is_some(),
                AssembledBlock::Tool { tool_call, .. } => tool_call.is_some(),
            };
            if contributes {
                return false;
            }
            i += 1;
        }
        true
    }

    fn start_text(&mut self, content_index: usize, id: &str) -> (result: Result<(), GatewayError>)
        ensures
            (final(self).deep_view(), error_of(result)) == start_text(
                old(self).deep_view(),
                content_index,
                id@,
            ),
    {
        match self.blocks.get(content_index) {
            None => {},
            Some(AssembledBlock::Text { id: current, .. }) => {
                if same_text(current.as_str(), id) {
                    return Ok(());
                }
                return refusal("content index was reused by a different block");
            },
            Some(_) => {
                return refusal("content index was reused by a different block");
            },
        }
        self.blocks.insert(
            content_index,
            AssembledBlock::Text {
                id: id.to_owned(),
                text: String::new(),
                replay: None,
                finished: false,
            },
        );
        Ok(())
    }

    fn start_reasoning(&mut self, content_index: usize, id: &str) -> (result: Result<
        (),
        GatewayError,
    >)
        ensures
            (final(self).deep_view(), error_of(result)) == start_reasoning(
                old(self).deep_view(),
                content_index,
                id@,
            ),
    {
        match self.blocks.get(content_index) {
            None => {},
            Some(AssembledBlock::Reasoning { id: current, .. }) => {
                if same_text(current.as_str(), id) {
                    return Ok(());
                }
                return refusal("content index was reused by a different block");
            },
            Some(_) => {
                return refusal("content index was reused by a different block");
            },
        }
        self.blocks.insert(
            content_index,
            AssembledBlock::Reasoning {
                id: id.to_owned(),
                display: String::new(),
                replay: None,
                finished: false,
            },
        );
        Ok(())
    }

    fn text(&self, content_index: usize, id: &str) -> (state: Option<OpenText>)
        ensures
            state.deep_view() == text_at(self.deep_view(), content_index, id@),
    {
        match self.blocks.get(content_index) {
            Some(AssembledBlock::Text { id: current, text, replay, finished }) => {
                if same_text(current.as_str(), id) {
                    Some(
                        OpenText {
                            text: text.clone(),
                            replay: replay.clone(),
                            finished: *finished,
                        },
                    )
                } else {
                    None
                }
            },
            _ => None,
        }
    }

    fn reasoning(&self, content_index: usize, id: &str) -> (state: Option<OpenText>)
        ensures
            state.deep_view() == reasoning_at(self.deep_view(), content_index, id@),
    {
        match self.blocks.get(content_index) {
            Some(AssembledBlock::Reasoning { id: current, display, replay, finished }) => {
                if same_text(current.as_str(), id) {
                    Some(
                        OpenText {
                            text: display.clone(),
                            replay: replay.clone(),
                            finished: *finished,
                        },
                    )
                } else {
                    None
                }
            },
            _ => None,
        }
    }

    fn put_text(&mut self, content_index: usize, id: &str, state: OpenText)
        ensures
            final(self).deep_view() == put_text(
                old(self).deep_view(),
                content_index,
                id@,
                state.deep_view(),
            ),
    {
        self.blocks.insert(
            content_index,
            AssembledBlock::Text {
                id: id.to_owned(),
                text: state.text,
                replay: state.replay,
                finished: state.finished,
            },
        );
    }

    fn put_reasoning(&mut self, content_index: usize, id: &str, state: OpenText)
        ensures
            final(self).deep_view() == put_reasoning(
                old(self).deep_view(),
                content_index,
                id@,
                state.deep_view(),
            ),
    {
        self.blocks.insert(
            content_index,
            AssembledBlock::Reasoning {
                id: id.to_owned(),
                display: state.text,
                replay: state.replay,
                finished: state.finished,
            },
        );
    }

    /// Adds an event to the message. An event that does not fit what came before is refused.
    pub fn observe(&mut self, event: &GenerationEvent) -> (result: Result<(), GatewayError>)
        ensures
            (final(self).deep_view(), error_of(result)) == observed(
                old(self).deep_view(),
                event.deep_view(),
            ),
    {
        reveal(observed);
        match event {
            GenerationEvent::TextStarted { content_index, id } => self.start_text(
                *content_index,
                id.as_str(),
            ),
            GenerationEvent::TextDelta { content_index, id, delta } => match self.text(
                *content_index,
                id.as_str(),
            ) {
                None => refusal("text event did not match a started content block"),
                Some(state) => {
                    if state.finished {
                        return refusal("text delta arrived after content completion");
                    }
                    let mut state = state;
                    state.text.append(delta.as_str());
                    self.put_text(*content_index, id.as_str(), state);
                    Ok(())
                },
            },
            GenerationEvent::TextFinished { content_index, id, replay } => match self.text(
                *content_index,
                id.as_str(),
            ) {
                None => refusal("text event did not match a started content block"),
                Some(state) => {
                    let mut state = state;
                    state.finished = true;
                    if replay.is_some() {
                        state.replay = replay.clone();
                    }
                    self.put_text(*content_index, id.as_str(), state);
                    Ok(())
                },
            },
            GenerationEvent::ReasoningStarted { content_index, id } => self.start_reasoning(
                *content_index,
                id.as_str(),
            ),
            GenerationEvent::ReasoningDelta { content_index, id, delta } => match self.reasoning(
                *content_index,
                id.as_str(),
            ) {
                None => refusal("reasoning event did not match a started content block"),
                Some(state) => {
                    if state.finished {
                        return refusal("reasoning delta arrived after content completion");
                    }
                    let mut state = state;
                    state.text.append(delta.as_str());
                    self.put_reasoning(*content_index, id.as_str(), state);
                    Ok(())
                },
            },
            GenerationEvent::ReasoningFinished { content_index, id, replay } => match self.reasoning(
                *content_index,
                id.as_str(),
            ) {
                None => refusal("reasoning event did not match a started content block"),
                Some(state) => {
                    let mut state = state;
                    state.finished = true;
                    if replay.is_some() {
                        state.replay = replay.clone();
                    }
                    self.put_reasoning(*content_index, id.as_str(), state);
                    Ok(())
                },
            },
            GenerationEvent::ReasoningSnapshotUpdated { content_index, id, reasoning } => match self.reasoning(
                *content_index,
                id.as_str(),
            ) {
                None => refusal("reasoning event did not match a started content block"),
                Some(state) => {
                    if !state.finished {
                        return refusal("reasoning snapshot arrived before content completion");
                    }
                    let state = OpenText {
                        text: reasoning.display.clone(),
                        replay: reasoning.replay.clone(),
                        finished: true,
                    };
                    self.put_reasoning(*content_index, id.as_str(), state);
                    Ok(())
                },
            },
            GenerationEvent::ToolCallStarted { content_index, index, .. } => {
                match self.blocks.get(*content_index) {
                    None => {},
                    Some(AssembledBlock::Tool { index: current, .. }) => {
                        if *current == *index {
                            return Ok(());
                        }
                        return refusal("content index was reused by a different block");
                    },
                    Some(_) => {
                        return refusal("content index was reused by a different block");
                    },
                }
                self.blocks.insert(
                    *content_index,
                    AssembledBlock::Tool { index: *index, tool_call: None },
                );
                Ok(())
            },
            GenerationEvent::ToolCallFinished { content_index, index, tool_call } => {
                match self.blocks.get(*content_index) {
                    None => {},
                    Some(AssembledBlock::Tool { index: current, .. }) => {
                        if *current != *index {
                            return refusal("tool completion did not match its content block");
                        }
                    },
                    Some(_) => {
                        return refusal("tool completion did not match its content block");
                    },
                }
                let call: ToolCall = (**tool_call).clone();
                self.blocks.insert(
                    *content_index,
                    AssembledBlock::Tool { index: *index, tool_call: Some(call) },
                );
                Ok(())
            },
            _ => Ok(()),
        }
    }

    /// The message so far, in the order of its content indices.
    pub fn message(&self) -> (message: IndexedMessage)
        ensures
            message.deep_view() == assembled_message(self.deep_view()),
            in_order(message.deep_view().content),
    {
        let ghost all = self.deep_view();
        let mut content: Vec<IndexedContentBlock> = Vec::new();
        let count = self.blocks.len();
        let mut i: usize = 0;
        proof {
            lemma_content_in_order(all, 0);
            assert(Seq::<IndexedContentBlockModel>::empty() + assembled_content(all, 0)
                =~= assembled_content(all, 0));
        }
        while i < count
            invariant
                all == self.blocks.deep_view(),
                count == all.len(),
                i <= count,
                content.deep_view() + assembled_content(all, i as int) == assembled_content(
                    all,
                    0,
                ),
            decreases count - i,
        {
            let ghost before = content.deep_view();
            let content_index = self.blocks.key_at(i);
            let block = block_content(self.blocks.value_at(i));
            match block {
                Some(block) => {
                    let item = IndexedContentBlock { content_index, block };
                    let ghost model = item.deep_view();
                    content.push(item);
                    proof {
                        let rest = assembled_content(all, i + 1);
                        assert(before + (seq![model] + rest) =~= before.push(model) + rest);
                    }
                },
                None => {},
            }
            i += 1;
        }
        proof {
            assert(content.deep_view() =~= assembled_content(all, 0));
        }
        IndexedMessage {
            role: Role::Assistant,
            content,
            provider_metadata: ProviderMetadata::default(),
        }
    }
}

fn block_content(block: &AssembledBlock) -> (content: Option<ContentBlock>)
    ensures
        content.deep_view() == content_of(block.deep_view()),
{
    match block {
        AssembledBlock::Text { text, replay, .. } => {
            if text.as_str().is_empty() {
                None
            } else {
                let provider_metadata = match replay {
                    Some(metadata) => metadata.clone(),
                    None => ProviderMetadata::default(),
                };
                Some(ContentBlock::Text { text: text.clone(), provider_metadata })
            }
        },
        AssembledBlock::Reasoning { display, replay, .. } => {
            if display.as_str().is_empty() && replay.is_none() {
                None
            } else {
                Some(
                    ContentBlock::Reasoning {
                        reasoning: ReasoningContent {
                            display: display.clone(),
                            replay: replay.clone(),
                        },
                    },
                )
            }
        },
        AssembledBlock::Tool { tool_call, .. } => match tool_call {
            Some(tool_call) => Some(ContentBlock::ToolCall { tool_call: tool_call.clone() }),
            None => None,
        },
    }
}

} // verus!
