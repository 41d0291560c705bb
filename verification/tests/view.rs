use nostra::chat::transcript::model::{PartId, PartSource, Role, TurnId};
use nostra::chat::transcript::transcript::{
    ConversationStreamEvent, PartChange, Transcript, TranscriptEvent, TranscriptSnapshot,
};
use nostra::chat::view::hover::HoverState;
use nostra::chat::view::list::{remeasure_rows, row_index};
use nostra::chat::view::rows::{
    read_row_content, ProjectionDiff, Row, RowChange, RowChangeKind, RowId, RowKind, ViewAction,
};
use nostra::chat::view::scroll::{
    handle_message_scroll_wheel, jump_visible_now, placeholder_key, replay_nested_scroll,
    smooth_scroll_animation_enabled, ComposerState, WheelAction, WheelDirection,
};
use nostra::chat::view::typography::{TypographyRevision, TypographyState};
use nostra::chat::view::window::{
    DisclosureRoute, ProjectionOutcome, RowFace, TranscriptView, Zones,
};
use nostra::json::Json;
use nostra::llm::model::{
    ContentBlock, Message, ProviderMetadata, Role as LlmRole, ToolCall, ToolResult,
};

fn row_id(turn: u64, part: u64, kind: RowKind) -> RowId {
    RowId { turn: TurnId(turn), part: PartId(part), kind }
}

fn user_row(turn: u64) -> Row {
    Row {
        id: row_id(turn, turn, RowKind::UserBubble),
        turn_index: turn as usize - 1,
        role: Role::User,
        first_in_turn: true,
    }
}

fn answer_row(turn: u64) -> Row {
    Row {
        id: row_id(turn, turn, RowKind::AssistantProse),
        turn_index: turn as usize - 1,
        role: Role::Assistant,
        first_in_turn: true,
    }
}

fn snapshot(turn_count: usize, streaming: Option<u64>) -> TranscriptSnapshot {
    TranscriptSnapshot {
        revision: 1,
        turn_count,
        streaming: streaming.map(|turn| (TurnId(turn), PartId(turn))),
        has_earlier: false,
    }
}

fn outcome(rows: Vec<Row>, diff: ProjectionDiff) -> ProjectionOutcome {
    ProjectionOutcome { rows, row_changes: vec![], diff, remeasure: vec![], wait_ended: false }
}

fn materialized(view: &TranscriptView) -> Vec<usize> {
    (0..view.slots.len()).filter(|ix| view.slots[*ix].materialized).collect()
}

fn many_rows(count: u64) -> Vec<Row> {
    (1..=count).map(user_row).collect()
}

#[test]
fn rows_are_measured_again_in_the_fewest_ranges() {
    assert_eq!(
        remeasure_rows(&[7, 3, 4, 3, 9, 5]),
        vec![
            ViewAction::Remeasure { start: 3, end: 6 },
            ViewAction::Remeasure { start: 7, end: 8 },
            ViewAction::Remeasure { start: 9, end: 10 },
        ]
    );
    assert!(remeasure_rows(&[]).is_empty());
}

#[test]
fn a_streamed_row_is_filled_at_once_and_takes_its_deltas() {
    let mut view = TranscriptView::new(vec![user_row(1)], false, &snapshot(1, None));
    let inserted =
        TranscriptEvent::PartInserted { turn_id: TurnId(2), part_id: PartId(2) };
    let actions = view.handle_transcript_event(
        &inserted,
        &snapshot(2, Some(2)),
        outcome(
            vec![user_row(1), answer_row(2)],
            ProjectionDiff::Splice { start: 1, end: 1, inserted: 1 },
        ),
    );
    assert_eq!(
        actions,
        vec![
            ViewAction::Reuse { slots: vec![Some(0), None] },
            ViewAction::Splice { start: 1, end: 1, inserted: 1 },
            ViewAction::Materialize { index: 1, row_id: answer_row(2).id, replay: true },
            ViewAction::Sync,
        ]
    );

    let delta = TranscriptEvent::PartChanged {
        turn_id: TurnId(2),
        part_id: PartId(2),
        change: PartChange::Append,
        delta: "Hello".into(),
    };
    let mut changed = outcome(vec![user_row(1), answer_row(2)], ProjectionDiff::Unchanged);
    changed.row_changes = vec![
        (answer_row(2).id, RowChangeKind::Append),
        (user_row(1).id, RowChangeKind::Replace),
        (user_row(9).id, RowChangeKind::Finished),
    ];
    changed.remeasure = vec![1];
    let actions = view.handle_transcript_event(&delta, &snapshot(2, Some(2)), changed);
    assert_eq!(
        actions,
        vec![
            ViewAction::Reuse { slots: vec![Some(0), Some(1)] },
            ViewAction::Change {
                index: 1,
                row_id: answer_row(2).id,
                change: RowChange::Append { delta: "Hello".into() },
            },
            ViewAction::Remeasure { start: 1, end: 2 },
        ],
        "an empty row takes no change, and the window is to be synced already"
    );
    assert_eq!(materialized(&view), vec![1]);
    assert_eq!(view.materialized_row_count(), 1);
}

#[test]
fn content_stays_near_the_viewport_through_a_round_trip() {
    let mut view = TranscriptView::new(many_rows(100), false, &snapshot(100, None));
    let near_end = Zones::new(90, 100, 70, 100);
    view.sync_window(Some(near_end), None, false);
    assert_eq!(materialized(&view), (90..100).collect::<Vec<_>>());

    // A short way up, everything in the retain zone stays.
    view.sync_window(Some(Zones::new(80, 90, 60, 100)), None, true);
    assert_eq!(materialized(&view), (80..100).collect::<Vec<_>>());

    // Far up, it goes.
    let actions = view.sync_window(Some(Zones::new(0, 10, 0, 30)), None, true);
    assert_eq!(materialized(&view), (0..10).collect::<Vec<_>>());
    assert_eq!(
        actions.iter().filter(|action| matches!(action, ViewAction::Release { .. })).count(),
        20
    );
    assert_eq!(actions.last(), Some(&ViewAction::Notify));

    // Once more changes nothing.
    assert!(view.sync_window(Some(Zones::new(0, 10, 0, 30)), None, true).is_empty());
    assert!(view.show_jump_button());
    view.jump_to_latest();
    assert!(!view.show_jump_button());
}

#[test]
fn the_streaming_turn_keeps_its_content_wherever_the_reader_is() {
    let mut view = TranscriptView::new(many_rows(50), false, &snapshot(50, Some(50)));
    view.sync_window(Some(Zones::new(0, 5, 0, 10)), None, false);
    assert_eq!(materialized(&view), vec![0, 1, 2, 3, 4, 49]);
    view.sync_window(Some(Zones::new(20, 25, 15, 30)), None, false);
    assert_eq!(materialized(&view), vec![20, 21, 22, 23, 24, 49]);
}

#[test]
fn rows_that_are_drawn_empty_ask_for_content() {
    let mut view = TranscriptView::new(many_rows(3), false, &snapshot(3, None));
    assert_eq!(view.render_row(1), (RowFace::Placeholder, vec![ViewAction::Sync]));
    assert_eq!(view.render_row(7), (RowFace::Missing, vec![]));
    let actions = view.sync_window(None, None, false);
    assert_eq!(
        actions,
        vec![
            ViewAction::Materialize { index: 1, row_id: user_row(2).id, replay: false },
            ViewAction::Notify,
        ]
    );
    assert_eq!(view.render_row(1).0, RowFace::Content);
}

#[test]
fn an_awaited_answer_shimmers_until_something_shows() {
    let mut view =
        TranscriptView::new(vec![user_row(1), answer_row(2)], false, &snapshot(2, None));
    view.sync_window(Some(Zones::new(0, 2, 0, 2)), None, false);
    view.set_generating(true);
    assert_eq!(view.waiting_turn, Some(TurnId(2)));
    assert_eq!(view.render_row(1).0, RowFace::Shimmer);
    assert_eq!(view.render_row(0).0, RowFace::Content);

    let mut failed = answer_row(2);
    failed.id = row_id(2, 0, RowKind::TurnError);
    failed.first_in_turn = false;
    view.handle_transcript_event(
        &TranscriptEvent::TurnReplaced { turn_id: TurnId(2) },
        &snapshot(2, None),
        outcome(vec![user_row(1), answer_row(2), failed], ProjectionDiff::Rebuild),
    );
    assert_eq!(view.waiting_turn, None);
    view.set_generating(false);
    assert_eq!(view.waiting_turn, None);
}

#[test]
fn a_prepend_keeps_the_anchor_row() {
    let mut view = TranscriptView::new(vec![user_row(5), user_row(6)], false, &snapshot(2, None));
    let earlier = TranscriptSnapshot { has_earlier: true, ..snapshot(2, None) };
    assert!(view.wants_prepend(&earlier, 7));
    assert!(!view.wants_prepend(&earlier, 8));
    assert!(!view.wants_prepend(&snapshot(2, None), 0));
    view.capture_prepend_anchor(1);
    view.handle_transcript_event(
        &TranscriptEvent::Reset,
        &snapshot(4, None),
        outcome(
            vec![user_row(3), user_row(4), user_row(5), user_row(6)],
            ProjectionDiff::Rebuild,
        ),
    );
    assert_eq!(view.restore_prepend_anchor(), Some(3));
    assert_eq!(view.restore_prepend_anchor(), None);
    assert_eq!(row_index(&view.rows, user_row(9).id), None);
}

#[test]
fn renderers_stay_with_rows_that_move() {
    let mut view = TranscriptView::new(many_rows(2), false, &snapshot(2, None));
    view.sync_window(Some(Zones::new(1, 2, 1, 2)), None, false);
    let actions = view.handle_transcript_event(
        &TranscriptEvent::Reset,
        &snapshot(3, None),
        outcome(vec![user_row(2), user_row(3), user_row(1)], ProjectionDiff::Rebuild),
    );
    assert_eq!(actions[0], ViewAction::Reuse { slots: vec![Some(1), None, Some(0)] });
    assert_eq!(actions[1], ViewAction::Reset { count: 3 });
    assert_eq!(materialized(&view), vec![0]);
}

#[test]
fn user_bubbles_come_back_in_another_presentation() {
    let mut view =
        TranscriptView::new(vec![user_row(1), answer_row(2)], false, &snapshot(2, None));
    view.sync_window(Some(Zones::new(0, 2, 0, 2)), None, false);
    let actions = view.release_user_bubble_rows();
    assert_eq!(
        actions,
        vec![ViewAction::Release { index: 0, row_id: user_row(1).id }, ViewAction::Sync]
    );
    assert_eq!(materialized(&view), vec![1]);
    let (rows, actions) = view.cool_down();
    assert_eq!(rows, vec![user_row(1), answer_row(2)]);
    assert_eq!(actions, vec![ViewAction::Release { index: 1, row_id: answer_row(2).id }]);
    assert!(view.slots.is_empty());
}

#[test]
fn a_change_of_typography_measures_rows_again() {
    let mut view = TranscriptView::new(many_rows(3), false, &snapshot(3, None));
    let actions = view.sync_window(None, Some(vec![2, 1]), false);
    assert_eq!(actions, vec![ViewAction::Remeasure { start: 1, end: 3 }, ViewAction::Notify]);
}

#[test]
fn the_turn_entered_last_is_hovered_while_it_claims_the_pointer() {
    let mut hover = HoverState::new();
    assert!(hover.handle_hover_turn(TurnId(1), true, false));
    // The pointer walks on: the next row reports before the first is left.
    assert!(hover.handle_hover_turn(TurnId(2), true, false));
    assert!(!hover.handle_hover_turn(TurnId(1), false, false));
    assert_eq!(hover.hovered_turn(), Some(TurnId(2)));
    // Two rows of one turn: leaving one keeps it.
    assert!(!hover.handle_hover_turn(TurnId(2), true, false));
    assert!(!hover.handle_hover_turn(TurnId(2), false, false));
    assert_eq!(hover.hovered_turn(), Some(TurnId(2)));
    assert!(hover.handle_hover_turn(TurnId(2), false, false));
    assert_eq!(hover.hovered_turn(), None);
    assert!(!hover.handle_hover_turn(TurnId(2), false, false));
}

#[test]
fn a_parked_pointer_reports_nothing_until_it_moves() {
    let mut hover = HoverState::new();
    hover.handle_hover_turn(TurnId(1), true, false);
    hover.park_pointer();
    assert!(!hover.handle_hover_turn(TurnId(2), true, true));
    assert_eq!(hover.hovered_turn(), Some(TurnId(1)));
    assert!(hover.handle_hover_turn(TurnId(2), true, false));
    assert_eq!(hover.hovered_turn(), Some(TurnId(2)));
}

fn message(role: LlmRole, content: Vec<ContentBlock>) -> Message {
    Message { role, content, provider_metadata: ProviderMetadata::default() }
}

#[test]
fn tool_rows_show_the_latest_result_of_their_call() {
    let mut transcript = Transcript::new();
    let (answer, _) = transcript.begin_turn(message(LlmRole::User, vec![]));
    transcript.apply_stream_batch(&[ConversationStreamEvent::ToolCallFinished {
        content_index: 0,
        index: 0,
        tool_call: Box::new(ToolCall {
            id: "call-0".into(),
            name: "lookup".into(),
            arguments: Json::Object(vec![]),
            raw_arguments: "{}".into(),
            provider_metadata: ProviderMetadata::default(),
        }),
    }]);
    for content in ["first", "second"] {
        transcript.push_canonical_turn(message(
            LlmRole::Tool,
            vec![ContentBlock::ToolResult {
                tool_result: ToolResult {
                    call_id: "call-0".into(),
                    content: content.into(),
                    is_error: false,
                },
            }],
        ));
    }
    let part = transcript.turns()[1].parts[0].part_id;
    let shown = |kind| {
        read_row_content(&transcript, RowId { turn: answer, part, kind })
    };
    let content = shown(RowKind::ToolActivity);
    assert_eq!(content.paired_result.map(|result| result.content).as_deref(), Some("second"));
    assert!(matches!(content.part.map(|part| part.source), Some(PartSource::ToolCall { .. })));
    assert!(content.error.is_none());
    assert!(shown(RowKind::AssistantProse).paired_result.is_none());

    let result = &transcript.turns()[2];
    let own = read_row_content(
        &transcript,
        RowId {
            turn: result.turn_id,
            part: result.parts[0].part_id,
            kind: RowKind::ToolActivity,
        },
    );
    assert_eq!(own.paired_result.map(|result| result.content).as_deref(), Some("first"));
}

#[test]
fn scrolling_is_eased_only_where_it_can_be() {
    assert!(smooth_scroll_animation_enabled(true, true));
    assert!(!smooth_scroll_animation_enabled(false, true));
    assert_eq!(
        handle_message_scroll_wheel(true, false, WheelDirection::Down),
        WheelAction::Ease
    );
    assert_eq!(
        handle_message_scroll_wheel(true, false, WheelDirection::Still),
        WheelAction::Ignore
    );
    assert_eq!(
        handle_message_scroll_wheel(true, true, WheelDirection::Up),
        WheelAction::Native
    );
    let up = replay_nested_scroll(false, false, WheelDirection::Up, true);
    assert_eq!((up.follow, up.action), (Some(false), WheelAction::Native));
    let down = replay_nested_scroll(true, false, WheelDirection::Down, true);
    assert_eq!((down.follow, down.action), (Some(true), WheelAction::Ease));
    assert_eq!(replay_nested_scroll(true, false, WheelDirection::Down, false).follow, None);
}

#[test]
fn the_jump_button_appears_only_when_the_tail_is_out_of_view_and_can_be_reached() {
    assert!(jump_visible_now(false, true, Some(false)));
    assert!(!jump_visible_now(true, true, Some(false)));
    assert!(!jump_visible_now(false, false, Some(false)));
    assert!(!jump_visible_now(false, true, Some(true)));
    assert!(!jump_visible_now(false, true, None));
}

#[test]
fn sending_takes_a_model_a_text_and_a_quiet_conversation() {
    let ready = ComposerState {
        generating: false,
        persistence_pending: false,
        deletion_pending: false,
        shutdown_requested: false,
        input_blank: false,
        selection_available: true,
    };
    assert!(!ready.send_disabled());
    assert!(ComposerState { generating: true, ..ready }.send_disabled());
    assert!(ComposerState { input_blank: true, ..ready }.send_disabled());
    assert!(ComposerState { selection_available: false, ..ready }.send_disabled());
}

#[test]
fn a_change_of_the_look_is_noted_and_then_taken_over() {
    let start = TypographyRevision { typography: 3, theme: 1 };
    let mut state = TypographyState::new(start);
    assert!(!state.observe_typography_frame(false, 1));
    assert!(!state.apply_pending_typography());
    assert!(state.observe_typography_frame(false, 2));
    assert_eq!(state.current, start);
    assert!(state.apply_pending_typography());
    assert_eq!(state.current, TypographyRevision { typography: 4, theme: 2 });
    assert!(state.observe_typography_frame(true, 2));
    assert_eq!(state.pending, Some(TypographyRevision { typography: 5, theme: 2 }));
}

#[test]
fn requests_to_open_find_their_row_or_group() {
    let view = TranscriptView::new(many_rows(2), false, &snapshot(2, Some(2)));
    assert_eq!(view.toggle_row_disclosure(user_row(2).id, false), DisclosureRoute::Row(1));
    assert_eq!(view.toggle_row_disclosure(user_row(9).id, false), DisclosureRoute::Nowhere);
    assert_eq!(view.toggle_row_disclosure(user_row(9).id, true), DisclosureRoute::Group);
    assert!(view.is_settled(user_row(1).id));
    assert!(!view.is_settled(user_row(2).id));
    assert!(view.is_invisible(row_id(1, 0, RowKind::AssistantProse)));
    assert!(!view.is_invisible(row_id(1, 1, RowKind::AssistantProse)));
    assert_eq!(placeholder_key(false), "chat.placeholder");
}
