use nostra::chat::transcript::model::{
    is_replayable, Part, PartId, PartKind, PartSource, Role, Turn, TurnId,
};
use nostra::chat::transcript::reconcile::{apply_indexed_message, sort_parts};
use nostra::chat::transcript::source::{
    ResolvedMessage, ResolvedStateSource, TranscriptCursor, TranscriptPage,
};
use nostra::chat::transcript::transcript::{
    copyable_text, derive_title, has_copyable_text, stream_ended, title_from_llm_messages,
    title_from_resolved_state, title_from_turns, ConversationStreamEvent, PartChange, Transcript,
    TranscriptEvent,
};
use nostra::json::Json;
use nostra::llm::error::GatewayError;
use nostra::llm::event::{IndexedContentBlock, IndexedMessage};
use nostra::llm::model::{
    ContentBlock, Message as LlmMessage, ProviderMetadata, ReasoningContent, Role as LlmRole,
    ToolCall, ToolResult,
};

const DEFAULT_TITLE: &str = "New chat";

fn text_block(text: &str) -> ContentBlock {
    ContentBlock::Text { text: text.into(), provider_metadata: ProviderMetadata::default() }
}

fn message(role: LlmRole, content: Vec<ContentBlock>) -> LlmMessage {
    LlmMessage { role, content, provider_metadata: ProviderMetadata::default() }
}

fn user_text(text: &str) -> LlmMessage {
    message(LlmRole::User, vec![text_block(text)])
}

fn assistant_text(text: &str) -> LlmMessage {
    message(LlmRole::Assistant, vec![text_block(text)])
}

fn tool_result(call_id: &str, content: &str) -> LlmMessage {
    message(
        LlmRole::Tool,
        vec![ContentBlock::ToolResult {
            tool_result: ToolResult {
                call_id: call_id.into(),
                content: content.into(),
                is_error: false,
            },
        }],
    )
}

fn entry(entry_id: &str, message: LlmMessage) -> ResolvedMessage {
    ResolvedMessage { entry_id: entry_id.into(), message }
}

fn text_started(content_index: usize, id: &str) -> ConversationStreamEvent {
    ConversationStreamEvent::TextStarted { content_index, id: id.into() }
}

fn text_delta(content_index: usize, id: &str, delta: &str) -> ConversationStreamEvent {
    ConversationStreamEvent::TextDelta { content_index, id: id.into(), delta: delta.into() }
}

fn text_finished(content_index: usize, id: &str) -> ConversationStreamEvent {
    ConversationStreamEvent::TextFinished { content_index, id: id.into(), replay: None }
}

fn tool_call(id: &str, name: &str) -> ToolCall {
    ToolCall {
        id: id.into(),
        name: name.into(),
        arguments: Json::Object(vec![]),
        raw_arguments: "{}".into(),
        provider_metadata: ProviderMetadata::default(),
    }
}

#[test]
fn begin_turn_appends_user_and_empty_assistant() {
    let mut transcript = Transcript::new();
    let (assistant_id, update) = transcript.begin_turn(user_text("hello runtime"));
    assert_eq!(transcript.turns().len(), 2);
    assert_eq!(transcript.turns()[0].role, Role::User);
    assert_eq!(transcript.turns()[1].role, Role::Assistant);
    assert_eq!(transcript.turns()[1].turn_id, assistant_id);
    assert!(transcript.turns()[1].parts.is_empty());
    assert!(
        matches!(update.event(), TranscriptEvent::TailAppended { turn_ids } if turn_ids.len() == 2)
    );
    let history = transcript.replayable_history();
    assert_eq!(history.len(), 1);
    assert!(history[0] == user_text("hello runtime"));
    assert_eq!(transcript.title(DEFAULT_TITLE).as_deref(), Some("hello runtime"));
}

#[test]
fn empty_assistant_placeholders_are_not_replayed() {
    let mut transcript = Transcript::new();
    transcript.begin_turn(user_text("hi"));
    let history = transcript.replayable_history();
    assert_eq!(history.len(), 1);
    assert!(is_replayable(&history[0]));
    assert!(!is_replayable(&message(LlmRole::Assistant, Vec::new())));
}

#[test]
fn stream_lifecycle_retains_part_ids_on_authoritative_replace() {
    let mut transcript = Transcript::new();
    transcript.begin_turn(user_text("q"));
    transcript.apply_stream_batch(&[
        ConversationStreamEvent::ReasoningStarted { content_index: 0, id: "reasoning-0".into() },
        ConversationStreamEvent::ReasoningDelta {
            content_index: 0,
            id: "reasoning-0".into(),
            delta: "thinking".into(),
        },
        ConversationStreamEvent::ReasoningFinished {
            content_index: 0,
            id: "reasoning-0".into(),
            replay: None,
        },
        text_started(1, "text-0"),
        text_delta(1, "text-0", "Here is the answer."),
        text_finished(1, "text-0"),
    ]);
    let before = transcript.turns()[1]
        .parts
        .iter()
        .map(|part| (part.part_id, part.kind(), part.content_index))
        .collect::<Vec<_>>();
    assert_eq!(before.len(), 2);
    assert_eq!(before[0].1, PartKind::Reasoning);
    assert_eq!(before[1].1, PartKind::Prose);

    transcript.finish_turn(
        Some(IndexedMessage {
            role: LlmRole::Assistant,
            content: vec![
                IndexedContentBlock {
                    content_index: 0,
                    block: ContentBlock::Reasoning {
                        reasoning: ReasoningContent { display: "thinking".into(), replay: None },
                    },
                },
                IndexedContentBlock { content_index: 1, block: text_block("Here is the answer.") },
            ],
            provider_metadata: ProviderMetadata::default(),
        }),
        None,
    );
    let after = transcript.turns()[1]
        .parts
        .iter()
        .map(|part| (part.part_id, part.kind(), part.content_index))
        .collect::<Vec<_>>();
    assert_eq!(before, after);
    assert!(transcript.turns()[1].parts.iter().all(|part| part.finished));
}

#[test]
fn tool_role_is_retained_in_history() {
    let mut transcript = Transcript::new();
    transcript.push_canonical_turn(user_text("lookup"));
    transcript.push_canonical_turn(assistant_text("calling"));
    transcript.push_canonical_turn(tool_result("call-0", "ok"));
    let history = transcript.replayable_history();
    assert_eq!(history.len(), 3);
    assert_eq!(history[2].role, LlmRole::Tool);
    assert_eq!(transcript.turns()[2].role, Role::Tool);
}

#[test]
fn load_reset_rebuilds_from_resolved_state() {
    let mut transcript = Transcript::new();
    let state = vec![
        entry("entry-1", user_text("restored title")),
        entry("entry-2", assistant_text("restored body")),
    ];
    let page = ResolvedStateSource::new(state).load_tail(usize::MAX);
    let update = transcript.load(page, None);
    assert!(matches!(update.event(), TranscriptEvent::Reset));
    assert_eq!(transcript.turns().len(), 2);
    assert_eq!(transcript.title(DEFAULT_TITLE).as_deref(), Some("restored title"));
    assert_eq!(transcript.replayable_history().len(), 2);
    assert!(!update.snapshot().has_earlier());
}

#[test]
fn load_tail_reports_earlier_pages_when_truncated() {
    let mut transcript = Transcript::new();
    let state =
        vec![entry("entry-1", user_text("older")), entry("entry-2", assistant_text("newer"))];
    let source = ResolvedStateSource::new(state);
    let tail = source.load_tail(1);
    assert_eq!(tail.turns.len(), 1);
    assert!(tail.cursor_before.is_some());
    let update = transcript.load(tail, None);
    assert!(update.snapshot().has_earlier());
    assert_eq!(transcript.turns().len(), 1);
    assert_eq!(transcript.turns()[0].parts[0].source.prose_text(), Some("newer"));
}

#[test]
fn copyable_text_joins_prose_parts() {
    let mut transcript = Transcript::new();
    transcript.push_canonical_turn(message(
        LlmRole::Assistant,
        vec![
            text_block("one"),
            ContentBlock::Reasoning {
                reasoning: ReasoningContent { display: "hidden".into(), replay: None },
            },
            text_block("two"),
        ],
    ));
    let turn_id = transcript.turns()[0].turn_id;
    assert_eq!(transcript.copyable_text(turn_id).as_deref(), Some("one\ntwo"));
    assert_eq!(copyable_text(&transcript.turns()[0]).as_str(), "one\ntwo");
}

#[test]
fn derive_title_trims_and_truncates() {
    assert_eq!(derive_title("hello", DEFAULT_TITLE).as_str(), "hello");
    assert_eq!(derive_title("a\nb", DEFAULT_TITLE).as_str(), "a b");
    let long = "x".repeat(50);
    let title = derive_title(&long, DEFAULT_TITLE);
    assert!(title.ends_with("..."));
    assert_eq!(title.chars().count(), 40);
}

#[test]
fn append_creates_missing_text_part() {
    let mut transcript = Transcript::new();
    transcript.begin_turn(user_text("q"));
    let updates = transcript.apply_stream_batch(&[text_delta(0, "text-0", "Hello.")]);
    assert!(
        updates
            .iter()
            .any(|update| matches!(update.event(), TranscriptEvent::PartInserted { .. })),
        "a delta for an unseen part must insert it before appending"
    );
    assert!(updates.iter().any(|update| {
        matches!(
            update.event(),
            TranscriptEvent::PartChanged { change: PartChange::Append, .. }
        )
    }));
    match &transcript.turns()[1].parts[0].source {
        PartSource::Prose { text, .. } => assert_eq!(text, "Hello."),
        _ => panic!("expected prose"),
    }
}

#[test]
fn tool_call_stream_then_result_turn() {
    let mut transcript = Transcript::new();
    transcript.begin_turn(user_text("lookup"));
    transcript.apply_stream_batch(&[
        ConversationStreamEvent::ToolCallStarted {
            content_index: 0,
            index: 0,
            id: "call-0".into(),
            name: "lookup".into(),
        },
        ConversationStreamEvent::ToolCallFinished {
            content_index: 0,
            index: 0,
            tool_call: Box::new(tool_call("call-0", "lookup")),
        },
    ]);
    assert_eq!(transcript.turns()[1].parts[0].kind(), PartKind::ToolCall);
    transcript.push_canonical_turn(tool_result("call-0", "{}"));
    assert_eq!(transcript.turns()[2].role, Role::Tool);
}

#[test]
fn updates_carry_consecutive_revisions() {
    let mut transcript = Transcript::new();
    let (_, begun) = transcript.begin_turn(user_text("q"));
    assert_eq!(begun.snapshot().revision(), 1);
    let updates = transcript.apply_stream_batch(&[
        text_delta(0, "text-0", "a"),
        text_delta(0, "text-0", ""),
        text_delta(0, "text-0", "b"),
        text_finished(0, "text-0"),
        text_delta(0, "text-0", "late"),
    ]);
    let revisions: Vec<u64> = updates.iter().map(|update| update.snapshot().revision()).collect();
    assert_eq!(revisions, vec![2, 3, 4, 5]);
    assert_eq!(transcript.snapshot().revision(), 5);
    assert_eq!(transcript.snapshot().turn_count(), 2);
    assert!(transcript.snapshot().is_streaming());
    assert_eq!(transcript.turns()[1].parts[0].source.prose_text(), Some("ab"));
}

#[test]
fn a_text_in_two_pieces_is_the_text_in_one() {
    let mut pieces = Transcript::new();
    pieces.begin_turn(user_text("q"));
    pieces.apply_stream_batch(&[text_delta(0, "t", "one "), text_delta(0, "t", "two")]);
    let mut whole = Transcript::new();
    whole.begin_turn(user_text("q"));
    whole.apply_stream_batch(&[text_delta(0, "t", "one two")]);
    assert!(pieces.turns() == whole.turns());
}

#[test]
fn parts_stand_in_the_order_of_their_content_indices() {
    let mut transcript = Transcript::new();
    transcript.begin_turn(user_text("q"));
    transcript.apply_stream_batch(&[
        text_started(4, "late"),
        ConversationStreamEvent::ToolCallFinished {
            content_index: 2,
            index: 0,
            tool_call: Box::new(tool_call("call-0", "lookup")),
        },
        text_started(1, "early"),
    ]);
    let indices: Vec<usize> =
        transcript.turns()[1].parts.iter().map(|part| part.content_index).collect();
    assert_eq!(indices, vec![1, 2, 4]);
    let call = &transcript.turns()[1].parts[1];
    assert!(call.finished);
    assert_eq!(call.part_id, PartId(3));
}

#[test]
fn reasoning_is_replaced_only_once_it_has_ended() {
    let update = || ConversationStreamEvent::ReasoningSnapshotUpdated {
        content_index: 0,
        id: "r".into(),
        reasoning: ReasoningContent { display: "final".into(), replay: None },
    };
    let mut transcript = Transcript::new();
    transcript.begin_turn(user_text("q"));
    let early = transcript.apply_stream_batch(&[
        ConversationStreamEvent::ReasoningDelta {
            content_index: 0,
            id: "r".into(),
            delta: "draft".into(),
        },
        update(),
    ]);
    assert_eq!(early.len(), 2);
    let late = transcript.apply_stream_batch(&[
        ConversationStreamEvent::ReasoningFinished {
            content_index: 0,
            id: "r".into(),
            replay: None,
        },
        update(),
    ]);
    assert!(matches!(
        late[1].event(),
        TranscriptEvent::PartChanged { change: PartChange::Replace, .. }
    ));
    match &transcript.turns()[1].parts[0].source {
        PartSource::Reasoning { reasoning, .. } => assert_eq!(reasoning.display, "final"),
        _ => panic!("expected reasoning"),
    }
}

#[test]
fn nothing_streams_into_an_empty_transcript() {
    let mut transcript = Transcript::new();
    assert!(transcript.apply_stream_batch(&[text_delta(0, "t", "lost")]).is_empty());
    assert!(transcript.finish_turn(None, None).is_none());
    assert_eq!(transcript.snapshot().revision(), 0);
}

#[test]
fn a_failed_turn_keeps_its_error_and_ends_its_reasoning() {
    let mut transcript = Transcript::new();
    let (assistant_id, _) = transcript.begin_turn(user_text("q"));
    transcript.apply_stream_batch(&[ConversationStreamEvent::ReasoningDelta {
        content_index: 0,
        id: "r".into(),
        delta: "hm".into(),
    }]);
    let update = transcript
        .finish_turn(None, Some(GatewayError::protocol("stream ended early")))
        .expect("a turn is running");
    assert!(
        matches!(update.event(), TranscriptEvent::TurnReplaced { turn_id } if *turn_id == assistant_id)
    );
    assert!(!update.snapshot().is_streaming());
    let turn = transcript.turn(assistant_id).expect("the turn is there");
    assert!(turn.error.is_some());
    assert!(turn.parts[0].finished);
    assert!(stream_ended(turn));
    assert!(!has_copyable_text(turn));
    assert!(transcript.turn(TurnId(99)).is_none());
    assert!(transcript.copyable_text(assistant_id).is_none());
}

#[test]
fn titles_come_from_the_first_message_of_the_user() {
    assert_eq!(derive_title(" \n ", DEFAULT_TITLE).as_str(), DEFAULT_TITLE);
    assert_eq!(derive_title(&"y".repeat(40), DEFAULT_TITLE).chars().count(), 40);
    let messages = [assistant_text("hi"), user_text("  "), user_text("second")];
    assert_eq!(title_from_llm_messages(&messages, DEFAULT_TITLE).as_deref(), Some("second"));
    let mut transcript = Transcript::new();
    for message in messages {
        transcript.push_canonical_turn(message);
    }
    assert_eq!(title_from_turns(transcript.turns(), DEFAULT_TITLE), None);
    let state = [entry("a", assistant_text("hi")), entry("b", user_text("stored"))];
    assert_eq!(title_from_resolved_state(&state, DEFAULT_TITLE).as_deref(), Some("stored"));
}

#[test]
fn pages_follow_each_other_to_the_beginning() {
    let state: Vec<ResolvedMessage> =
        (0..5).map(|n| entry(&format!("entry-{n}"), user_text(&format!("text {n}")))).collect();
    let source = ResolvedStateSource::new(state);
    assert_eq!(source.total_hint(), Some(5));
    let tail = source.load_tail(2);
    assert_eq!(tail.turns[0].parts[0].source.prose_text(), Some("text 3"));
    let cursor = tail.cursor_before.expect("there are earlier turns");
    assert_eq!(cursor.entry_id, "entry-3");
    let middle = source.load_before(&cursor, 2);
    assert_eq!(middle.turns.len(), 2);
    assert_eq!(middle.turns[1].parts[0].source.prose_text(), Some("text 2"));
    let first = source.load_before(&middle.cursor_before.expect("one is left"), 2);
    assert_eq!(first.turns.len(), 1);
    assert!(first.cursor_before.is_none());

    let stale = TranscriptCursor { entry_id: "gone".into() };
    let page = source.load_before(&stale, 2);
    assert!(page.turns.is_empty());
    assert_eq!(page.cursor_before, Some(stale));
}

#[test]
fn paging_back_gives_every_message_once() {
    let state: Vec<ResolvedMessage> =
        (0..11).map(|n| entry(&format!("entry-{n}"), user_text(&format!("text {n}")))).collect();
    let source = ResolvedStateSource::new(state);
    let texts = |page: &TranscriptPage| -> Vec<String> {
        page.turns
            .iter()
            .map(|turn| turn.parts[0].source.prose_text().expect("prose").to_string())
            .collect()
    };
    let mut page = source.load_tail(2);
    let mut all = texts(&page);
    for turns in [1, 3, 2, usize::MAX] {
        let cursor = page.cursor_before.clone().expect("there are earlier turns");
        page = source.load_before(&cursor, turns);
        all.splice(0..0, texts(&page));
    }
    assert!(page.cursor_before.is_none());
    assert_eq!(all, (0..11).map(|n| format!("text {n}")).collect::<Vec<_>>());
    let copy = page.clone();
    assert!(copy == page);
}

#[test]
fn loading_numbers_turns_and_parts_anew() {
    let mut transcript = Transcript::new();
    transcript.begin_turn(user_text("dropped"));
    let source = ResolvedStateSource::new(vec![
        entry("a", user_text("one")),
        entry("b", assistant_text("two")),
    ]);
    let cursor = TranscriptCursor { entry_id: "z".into() };
    let update = transcript.load(source.load_tail(usize::MAX), Some(cursor));
    assert!(update.snapshot().has_earlier());
    let ids: Vec<u64> = transcript.turns().iter().map(|turn| turn.turn_id.as_u64()).collect();
    assert_eq!(ids, vec![1, 2]);
    assert_eq!(transcript.turns()[1].parts[0].part_id, PartId(2));
    let pushed = transcript.push_empty_turn(Role::Assistant);
    assert!(
        matches!(pushed.event(), TranscriptEvent::TailAppended { turn_ids } if turn_ids[0] == TurnId(3))
    );
}

#[test]
fn the_final_message_keeps_parts_it_continues_and_numbers_others() {
    let part = |id: u64, index: usize, text: &str| {
        Part::new(
            PartId(id),
            index,
            PartSource::Prose {
                text: text.into(),
                replay: ProviderMetadata::default(),
                stream_id: "s".into(),
            },
            false,
        )
    };
    let mut turn = Turn::empty(Role::Assistant, TurnId(1));
    turn.parts = sort_parts(vec![part(2, 3, "b"), part(1, 0, "a")]);
    assert_eq!(turn.parts[0].part_id, PartId(1));
    let mut next = 7;
    let turn = apply_indexed_message(
        turn,
        IndexedMessage {
            role: LlmRole::Assistant,
            content: vec![
                IndexedContentBlock { content_index: 0, block: text_block("A") },
                IndexedContentBlock {
                    content_index: 3,
                    block: ContentBlock::ToolCall { tool_call: tool_call("c", "f") },
                },
            ],
            provider_metadata: ProviderMetadata::default(),
        },
        &mut next,
    );
    assert_eq!(turn.parts[0].part_id, PartId(1));
    assert_eq!(turn.parts[0].source.prose_text(), Some("A"));
    assert_eq!(turn.parts[1].part_id, PartId(7));
    assert_eq!(next, 8);
}
