//! The rows of a transcript on screen, and what they show.

use vstd::prelude::*;

use crate::chat::transcript::model::{
    Part, PartId, PartModel, PartSource, PartSourceModel, Role, Turn, TurnId, TurnModel,
};
use crate::chat::transcript::transcript::{turn_named, Transcript};
use crate::llm::error::{GatewayError, GatewayErrorModel};
use crate::llm::model::{ToolResult, ToolResultModel};
use crate::text::same_text;

verus! {

broadcast use crate::deep::group_models;

/// What a row shows.
#[derive(Clone, Copy, Debug, PartialEq, Eq, Structural)]
pub enum RowKind {
    UserBubble,
    AssistantProse,
    Reasoning,
    ToolActivity,
    ToolActivityGroup,
    TurnActions,
    TurnError,
}

/// Identifies a row, whatever its position.
#[derive(Clone, Copy, Debug, PartialEq, Eq, Structural)]
pub struct RowId {
    pub turn: TurnId,
    pub part: PartId,
    pub kind: RowKind,
}

impl DeepView for RowId {
    type V = RowId;

    open spec fn deep_view(&self) -> RowId {
        *self
    }
}

/// A row, as far as the view decides by it.
#[derive(Clone, Copy, Debug, PartialEq, Eq, Structural)]
pub struct Row {
    pub id: RowId,
    pub turn_index: usize,
    pub role: Role,
    pub first_in_turn: bool,
}

/// The place of a row in the list, and whether its renderer holds content.
#[derive(Clone, Copy, Debug, PartialEq, Eq, Structural)]
pub struct RowSlot {
    pub id: RowId,
    pub materialized: bool,
}

/// How the content of a row changed.
#[derive(Clone, Copy, Debug, PartialEq, Eq, Structural)]
pub enum RowChangeKind {
    Append,
    Finished,
    Replace,
}

/// How the set of rows changed.
#[derive(Clone, Copy, Debug, PartialEq, Eq, Structural)]
pub enum ProjectionDiff {
    Unchanged,
    Splice { start: usize, end: usize, inserted: usize },
    Rebuild,
}

/// A change of content that a renderer takes in.
#[derive(Debug, PartialEq, Eq)]
pub enum RowChange {
    Append { delta: String },
    Finished,
    Replace,
}

/// What a [`RowChange`] stands for.
pub enum RowChangeModel {
    Append { delta: Seq<char> },
    Finished,
    Replace,
}

impl DeepView for RowChange {
    type V = RowChangeModel;

    open spec fn deep_view(&self) -> RowChangeModel {
        match self {
            RowChange::Append { delta } => RowChangeModel::Append {
                delta: delta@,
            },
            RowChange::Finished => RowChangeModel::Finished,
            RowChange::Replace => RowChangeModel::Replace,
        }
    }
}

/// What the host of the view has to do, in order.
#[derive(Debug, PartialEq, Eq)]
pub enum ViewAction {
    Reuse { slots: Vec<Option<usize>> },
    Change { index: usize, row_id: RowId, change: RowChange },
    Splice { start: usize, end: usize, inserted: usize },
    Reset { count: usize },
    Remeasure { start: usize, end: usize },
    Materialize { index: usize, row_id: RowId, replay: bool },
    Release { index: usize, row_id: RowId },
    Sync,
    Notify,
}

/// What a [`ViewAction`] stands for.
pub enum ViewActionModel {
    Reuse { slots: Seq<Option<usize>> },
    Change { index: usize, row_id: RowId, change: RowChangeModel },
    Splice { start: usize, end: usize, inserted: usize },
    Reset { count: usize },
    Remeasure { start: usize, end: usize },
    Materialize { index: usize, row_id: RowId, replay: bool },
    Release { index: usize, row_id: RowId },
    Sync,
    Notify,
}

impl DeepView for ViewAction {
    type V = ViewActionModel;

    open spec fn deep_view(&self) -> ViewActionModel {
        match self {
            ViewAction::Reuse { slots } => ViewActionModel::Reuse {
                slots: slots.deep_view(),
            },
            ViewAction::Change { index, row_id, change } => ViewActionModel::Change {
                index: *index,
                row_id: *row_id,
                change: change.deep_view(),
            },
            ViewAction::Splice { start, end, inserted } => ViewActionModel::Splice {
                start: *start,
                end: *end,
                inserted: *inserted,
            },
            ViewAction::Reset { count } => ViewActionModel::Reset {
                count: *count,
            },
            ViewAction::Remeasure { start, end } => ViewActionModel::Remeasure {
                start: *start,
                end: *end,
            },
            ViewAction::Materialize { index, row_id, replay } => ViewActionModel::Materialize {
                index: *index,
                row_id: *row_id,
                replay: *replay,
            },
            ViewAction::Release { index, row_id } => ViewActionModel::Release {
                index: *index,
                row_id: *row_id,
            },
            ViewAction::Sync => ViewActionModel::Sync,
            ViewAction::Notify => ViewActionModel::Notify,
        }
    }
}

/// What a row shows out of the transcript.
#[derive(PartialEq)]
pub struct RowContent {
    pub part: Option<Part>,
    pub paired_result: Option<ToolResult>,
    pub error: Option<GatewayError>,
}

/// What a [`RowContent`] stands for.
pub struct RowContentModel {
    pub part: Option<PartModel>,
    pub paired_result: Option<ToolResultModel>,
    pub error: Option<GatewayErrorModel>,
}

impl DeepView for RowContent {
    type V = RowContentModel;

    open spec fn deep_view(&self) -> RowContentModel {
        RowContentModel {
            part: self.part.deep_view(),
            paired_result: self.paired_result.deep_view(),
            error: self.error.deep_view(),
        }
    }
}

/// The part with the identifier, from position `start` on.
pub open spec fn part_named(parts: Seq<PartModel>, id: PartId, start: int) -> Option<PartModel>
    decreases parts.len() - start,
{
    if start < 0 || start >= parts.len() {
        None
    } else if parts[start].part_id == id {
        Some(parts[start])
    } else {
        part_named(parts, id, start + 1)
    }
}

/// The result of a call among parts, from position `start` on.
pub open spec fn result_among(parts: Seq<PartModel>, call_id: Seq<char>, start: int) -> Option<
    ToolResultModel,
>
    decreases parts.len() - start,
{
    if start < 0 || start >= parts.len() {
        None
    } else {
        match parts[start].source {
            PartSourceModel::ToolResult(result) => if result.call_id == call_id {
                Some(result)
            } else {
                result_among(parts, call_id, start + 1)
            },
            _ => result_among(parts, call_id, start + 1),
        }
    }
}

/// The result of a call: that in the latest of the first `end` turns that has one.
pub open spec fn latest_result(turns: Seq<TurnModel>, call_id: Seq<char>, end: int) -> Option<
    ToolResultModel,
>
    decreases end,
{
    if end <= 0 || end > turns.len() {
        None
    } else {
        match result_among(turns[end - 1].parts, call_id, 0) {
            Some(result) => Some(result),
            None => latest_result(turns, call_id, end - 1),
        }
    }
}

/// What a row shows: its part, the error of its turn, and for tool activity the result of the
/// call. A result without a call is its own result.
pub open spec fn content_of(turns: Seq<TurnModel>, row_id: RowId) -> RowContentModel {
    let turn = turn_named(turns, row_id.turn);
    let part = match turn {
        Some(turn) => part_named(turn.parts, row_id.part, 0),
        None => None,
    };
    RowContentModel {
        part,
        paired_result: if row_id.kind == RowKind::ToolActivity && part is Some {
            match part->0.source {
                PartSourceModel::ToolCall { id, .. } => latest_result(
                    turns,
                    id,
                    turns.len() as int,
                ),
                PartSourceModel::ToolResult(result) => Some(result),
                _ => None,
            }
        } else {
            None
        },
        error: match turn {
            Some(turn) => turn.error,
            None => None,
        },
    }
}

fn part_with(parts: &Vec<Part>, id: PartId) -> (part: Option<Part>)
    ensures
        part.deep_view() == part_named(parts.deep_view(), id, 0),
{
    let ghost all = parts.deep_view();
    let mut i: usize = 0;
    while i < parts.len()
        invariant
            all == parts.deep_view(),
            i <= parts@.len(),
            part_named(all, id, 0) == part_named(all, id, i as int),
        decreases parts@.len() - i,
    {
        proof {
            assert(all[i as int] == parts@[i as int].deep_view());
        }
        if parts[i].part_id == id {
            return Some(parts[i].clone());
        }
        i += 1;
    }
    None
}

fn result_of(parts: &Vec<Part>, call_id: &str) -> (result: Option<ToolResult>)
    ensures
        result.deep_view() == result_among(parts.deep_view(), call_id@, 0),
{
    let ghost all = parts.deep_view();
    let mut i: usize = 0;
    while i < parts.len()
        invariant
            all == parts.deep_view(),
            i <= parts@.len(),
            result_among(all, call_id@, 0) == result_among(all, call_id@, i as int),
        decreases parts@.len() - i,
    {
        proof {
            assert(all[i as int] == parts@[i as int].deep_view());
        }
        match &parts[i].source {
            PartSource::ToolResult(result) => {
                if same_text(result.call_id.as_str(), call_id) {
                    return Some(result.clone());
                }
            },
            _ => {},
        }
        i += 1;
    }
    None
}

fn latest_result_of(turns: &Vec<Turn>, call_id: &str) -> (result: Option<ToolResult>)
    ensures
        result.deep_view() == latest_result(
            turns.deep_view(),
            call_id@,
            turns@.len() as int,
        ),
{
    let ghost all = turns.deep_view();
    let mut end: usize = turns.len();
    while end > 0
        invariant
            all == turns.deep_view(),
            end <= turns@.len(),
            latest_result(all, call_id@, turns@.len() as int) == latest_result(
                all,
                call_id@,
                end as int,
            ),
        decreases end,
    {
        proof {
            assert(all[end - 1] == turns@[end - 1].deep_view());
        }
        match result_of(&turns[end - 1].parts, call_id) {
            Some(result) => {
                return Some(result);
            },
            None => {},
        }
        end -= 1;
    }
    None
}

/// What a row shows.
pub fn read_row_content(transcript: &Transcript, row_id: RowId) -> (content: RowContent)
    ensures
        content.deep_view() == content_of(transcript.deep_view().turns, row_id),
{
    let turn = transcript.turn(row_id.turn);
    let part = match turn {
        Some(turn) => part_with(&turn.parts, row_id.part),
        None => None,
    };
    let paired_result = if row_id.kind == RowKind::ToolActivity {
        match &part {
            Some(part) => match &part.source {
                PartSource::ToolCall { id, .. } => latest_result_of(
                    &transcript.turns,
                    id.as_str(),
                ),
                PartSource::ToolResult(result) => Some(result.clone()),
                _ => None,
            },
            None => None,
        }
    } else {
        None
    };
    let error = match turn {
        Some(turn) => turn.error.clone(),
        None => None,
    };
    RowContent { part, paired_result, error }
}

} // verus!
