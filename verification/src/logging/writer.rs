//! The writer of the diagnostic log: when it flushes, when it rotates, and what it gives up.

use vstd::prelude::*;
use vstd::string::*;

use crate::text::{decimal, decimal_digits};

verus! {

pub const LOG_QUEUE_CAPACITY: usize = 256;

/// The size at which the active file is rotated.
pub const LOG_MAX_BYTES: u64 = 5242880;

pub const LOG_BACKUPS: usize = 2;

/// So many records are flushed at once, at the latest.
pub const FLUSH_BATCH_SIZE: usize = 32;

/// The time in milliseconds after which the first record of a batch is flushed.
pub const FLUSH_INTERVAL_MILLIS: u64 = 2000;

/// The time in milliseconds that a shutdown waits for the writer.
pub const SHUTDOWN_TIMEOUT_MILLIS: u64 = 5000;

/// The limits of a log.
#[derive(Clone, Copy, Debug, PartialEq, Eq, Structural)]
pub struct LogConfig {
    pub queue_capacity: usize,
    pub max_bytes: u64,
    pub backups: usize,
}

/// Why a log cannot be started.
#[derive(Clone, Copy, Debug, PartialEq, Eq, Structural)]
pub enum ConfigProblem {
    NoQueue,
    NoRoom,
}

impl ConfigProblem {
    pub fn as_str(self) -> (text: &'static str)
        ensures
            text@ == match self {
                ConfigProblem::NoQueue => "log queue capacity must be positive"@,
                ConfigProblem::NoRoom => "log size limit must be positive"@,
            },
    {
        match self {
            ConfigProblem::NoQueue => "log queue capacity must be positive",
            ConfigProblem::NoRoom => "log size limit must be positive",
        }
    }
}

impl LogConfig {
    pub fn validate(&self) -> (result: Result<(), ConfigProblem>)
        ensures
            result == if self.queue_capacity == 0 {
                Err::<(), ConfigProblem>(ConfigProblem::NoQueue)
            } else if self.max_bytes == 0 {
                Err(ConfigProblem::NoRoom)
            } else {
                Ok(())
            },
    {
        if self.queue_capacity == 0 {
            return Err(ConfigProblem::NoQueue);
        }
        if self.max_bytes == 0 {
            return Err(ConfigProblem::NoRoom);
        }
        Ok(())
    }
}

/// Why a record was not taken.
#[derive(Clone, Copy, Debug, PartialEq, Eq, Structural)]
pub enum EnqueueError {
    Full,
    Disconnected,
}

/// What is told where the log cannot be.
#[derive(Clone, Copy, Debug, PartialEq, Eq, Structural)]
pub enum FallbackNotice {
    QueueFull,
    Disconnected,
}

/// Tells once that records are dropped, for each of the two reasons.
pub fn fallback_notice(
    result: Result<(), EnqueueError>,
    overflow_reported: &mut bool,
    disconnected_reported: &mut bool,
) -> (notice: Option<FallbackNotice>)
    ensures
        notice == match result {
            Ok(()) => None,
            Err(EnqueueError::Full) => if *old(overflow_reported) {
                None
            } else {
                Some(FallbackNotice::QueueFull)
            },
            Err(EnqueueError::Disconnected) => if *old(disconnected_reported) {
                None
            } else {
                Some(FallbackNotice::Disconnected)
            },
        },
        *final(overflow_reported) == (*old(overflow_reported) || result == Err::<
            (),
            EnqueueError,
        >(EnqueueError::Full)),
        *final(disconnected_reported) == (*old(disconnected_reported) || result == Err::<
            (),
            EnqueueError,
        >(EnqueueError::Disconnected)),
{
    match result {
        Ok(()) => None,
        Err(EnqueueError::Full) => {
            let reported = *overflow_reported;
            *overflow_reported = true;
            if reported {
                None
            } else {
                Some(FallbackNotice::QueueFull)
            }
        },
        Err(EnqueueError::Disconnected) => {
            let reported = *disconnected_reported;
            *disconnected_reported = true;
            if reported {
                None
            } else {
                Some(FallbackNotice::Disconnected)
            }
        },
    }
}

/// The two flags after results from position `start` on, and the notices they gave.
pub open spec fn notices_of(
    results: Seq<Result<(), EnqueueError>>,
    start: int,
    overflow_reported: bool,
    disconnected_reported: bool,
) -> Seq<FallbackNotice>
    decreases results.len() - start,
{
    if start < 0 || start >= results.len() {
        Seq::empty()
    } else {
        match results[start] {
            Ok(()) => notices_of(results, start + 1, overflow_reported, disconnected_reported),
            Err(EnqueueError::Full) => if overflow_reported {
                notices_of(results, start + 1, true, disconnected_reported)
            } else {
                seq![FallbackNotice::QueueFull] + notices_of(
                    results,
                    start + 1,
                    true,
                    disconnected_reported,
                )
            },
            Err(EnqueueError::Disconnected) => if disconnected_reported {
                notices_of(results, start + 1, overflow_reported, true)
            } else {
                seq![FallbackNotice::Disconnected] + notices_of(
                    results,
                    start + 1,
                    overflow_reported,
                    true,
                )
            },
        }
    }
}

/// However many records are dropped, at most two notices are given: one for each reason.
pub proof fn notices_are_given_once(
    results: Seq<Result<(), EnqueueError>>,
    start: int,
    overflow_reported: bool,
    disconnected_reported: bool,
)
    requires
        0 <= start,
    ensures
        notices_of(results, start, overflow_reported, disconnected_reported).len() <= (
        if overflow_reported {
            0int
        } else {
            1
        }) + (if disconnected_reported {
            0int
        } else {
            1
        }),
    decreases results.len() - start,
{
    if start < results.len() {
        notices_are_given_once(results, start + 1, overflow_reported, disconnected_reported);
        notices_are_given_once(results, start + 1, true, disconnected_reported);
        notices_are_given_once(results, start + 1, overflow_reported, true);
    }
}

/// The records that were written and not flushed.
#[derive(Clone, Copy, Debug, PartialEq, Eq, Structural)]
pub struct Batch {
    pub unflushed: usize,
    /// Whether a batch is open, whose deadline runs from its first record.
    pub started: bool,
}

/// What happened to the writer.
#[derive(Clone, Copy, Debug, PartialEq, Eq, Structural)]
pub enum WorkerEvent {
    /// A record was written.
    Appended { flush_immediately: bool },
    /// The file was flushed.
    Flushed,
    /// The file took no more.
    Failed,
    /// The batch is as old as it may get.
    FlushDeadline,
    /// There are no more records to come.
    Disconnected,
}

/// What the writer does next.
#[derive(Clone, Copy, Debug, PartialEq, Eq, Structural)]
pub enum WorkerAction {
    /// Waits for a record, or for the deadline of the batch where one is open.
    Wait,
    Flush,
    /// Flushes what is left and ends.
    FlushAndStop,
    /// Ends. The file is of no use.
    Stop,
}

impl Batch {
    /// A batch is open exactly while records are unflushed, and never holds more than its size.
    pub open spec fn wf(self) -> bool {
        &&& self.started <==> self.unflushed > 0
        &&& self.unflushed <= FLUSH_BATCH_SIZE
    }

    pub fn new() -> (batch: Self)
        ensures
            batch == (Batch { unflushed: 0, started: false }),
            batch.wf(),
    {
        Batch { unflushed: 0, started: false }
    }

    /// Takes in what happened.
    pub fn step(&mut self, event: WorkerEvent) -> (action: WorkerAction)
        ensures
            (*final(self), action) == batch_step(*old(self), event),
    {
        match event {
            WorkerEvent::Appended { flush_immediately } => {
                self.unflushed = self.unflushed.saturating_add(1);
                self.started = true;
                if flush_immediately || self.unflushed >= FLUSH_BATCH_SIZE {
                    WorkerAction::Flush
                } else {
                    WorkerAction::Wait
                }
            },
            WorkerEvent::Flushed => {
                self.unflushed = 0;
                self.started = false;
                WorkerAction::Wait
            },
            WorkerEvent::Failed => WorkerAction::Stop,
            WorkerEvent::FlushDeadline => if self.unflushed > 0 {
                WorkerAction::Flush
            } else {
                WorkerAction::Wait
            },
            WorkerEvent::Disconnected => WorkerAction::FlushAndStop,
        }
    }
}

/// The batch after an event, and what the writer does next.
pub open spec fn batch_step(batch: Batch, event: WorkerEvent) -> (Batch, WorkerAction) {
    match event {
        WorkerEvent::Appended { flush_immediately } => {
            let unflushed = if batch.unflushed < usize::MAX {
                (batch.unflushed + 1) as usize
            } else {
                usize::MAX
            };
            (
                Batch { unflushed, started: true },
                if flush_immediately || unflushed >= FLUSH_BATCH_SIZE {
                    WorkerAction::Flush
                } else {
                    WorkerAction::Wait
                },
            )
        },
        WorkerEvent::Flushed => (Batch { unflushed: 0, started: false }, WorkerAction::Wait),
        WorkerEvent::Failed => (batch, WorkerAction::Stop),
        WorkerEvent::FlushDeadline => (
            batch,
            if batch.unflushed > 0 {
                WorkerAction::Flush
            } else {
                WorkerAction::Wait
            },
        ),
        WorkerEvent::Disconnected => (batch, WorkerAction::FlushAndStop),
    }
}

/// While the writer waits, fewer records than a batch are unflushed, and their deadline runs. A
/// record that asks for it is flushed at once.
pub proof fn batches_stay_small(batch: Batch, event: WorkerEvent)
    requires
        batch.wf(),
        batch.unflushed < FLUSH_BATCH_SIZE,
    ensures
        ({
            let (next, action) = batch_step(batch, event);
            &&& next.wf()
            &&& action == WorkerAction::Wait ==> next.unflushed < FLUSH_BATCH_SIZE
            &&& event == (WorkerEvent::Appended { flush_immediately: true }) ==> action
                == WorkerAction::Flush
            &&& action == WorkerAction::Flush ==> next.unflushed > 0
            &&& event == WorkerEvent::Disconnected ==> action == WorkerAction::FlushAndStop
        }),
{
}

/// The active file of a log.
#[derive(Clone, Copy, Debug, PartialEq, Eq, Structural)]
pub struct LogFile {
    pub bytes: u64,
}

/// Whether the file is rotated before so many bytes are written to it.
pub open spec fn rotates(bytes: u64, more: u64, max_bytes: u64) -> bool {
    bytes > 0 && bytes + more > max_bytes && (bytes + more <= u64::MAX || max_bytes < u64::MAX)
}

impl LogFile {
    /// Whether the file is rotated before a record of so many bytes is written.
    pub fn must_rotate(&self, more: u64, max_bytes: u64) -> (yes: bool)
        ensures
            yes == rotates(self.bytes, more, max_bytes),
    {
        self.bytes > 0 && self.bytes.saturating_add(more) > max_bytes
    }

    /// Takes in that a record was written.
    pub fn written(&mut self, more: u64)
        ensures
            final(self).bytes == if old(self).bytes + more <= u64::MAX {
                old(self).bytes + more
            } else {
                u64::MAX as int
            },
    {
        self.bytes = self.bytes.saturating_add(more);
    }
}

/// A file grows beyond its limit only where a single record does: whatever stands before a record,
/// the file is rotated or there is room. A rotated file begins empty.
pub proof fn files_stay_within_the_limit(bytes: u64, more: u64, max_bytes: u64)
    ensures
        ({
            let start = if rotates(bytes, more, max_bytes) {
                0u64
            } else {
                bytes
            };
            start + more <= max_bytes || start == 0 || max_bytes == u64::MAX
        }),
{
}

/// The name of a backup. The higher its number, the older it is.
pub open spec fn backup_name_of(name: Seq<char>, index: nat) -> Seq<char> {
    name + "."@ + decimal_digits(index)
}

/// The name of a backup.
pub fn backup_path(name: &str, index: usize) -> (backup: String)
    ensures
        backup@ == backup_name_of(name@, index as nat),
{
    let mut backup = name.to_owned();
    backup.append(".");
    let number = decimal(index as u64);
    backup.append(number.as_str());
    backup
}

/// The names of a log, the oldest backup first and the active file last.
pub open spec fn file_names(name: Seq<char>, backups: nat) -> Seq<Seq<char>> {
    Seq::new(
        backups + 1,
        |i: int|
            if i < backups {
                backup_name_of(name, (backups - i) as nat)
            } else {
                name
            },
    )
}

/// The files of a log, the oldest backup first and the active file last.
pub fn log_file_paths(name: &str, backups: usize) -> (names: Vec<String>)
    ensures
        names.deep_view() == file_names(name@, backups as nat),
{
    broadcast use crate::deep::group_models;

    let ghost all = file_names(name@, backups as nat);
    let mut names: Vec<String> = Vec::new();
    let mut index: usize = backups;
    proof {
        assert(names.deep_view() =~= all.take(0));
    }
    while index > 0
        invariant
            all == file_names(name@, backups as nat),
            index <= backups,
            names.deep_view() == all.take(backups - index),
        decreases index,
    {
        let backup = backup_path(name, index);
        names.push(backup);
        proof {
            assert(all[backups - index] == backup@);
            assert(all.take(backups - index + 1) =~= all.take(backups - index).push(backup@));
        }
        index -= 1;
    }
    names.push(name.to_owned());
    proof {
        assert(names.deep_view() =~= all);
    }
    names
}

/// A file that moves up by one. The active file is number 0.
#[derive(Clone, Copy, Debug, PartialEq, Eq, Structural)]
pub struct Move {
    pub source: usize,
    pub destination: usize,
}

/// The moves of a rotation, the oldest file first. A file that is not there does not move, and
/// what is at the destination goes. The active file is new after that.
pub open spec fn rotation_of(backups: nat) -> Seq<Move> {
    Seq::new(
        backups,
        |i: int|
            Move { source: (backups - i - 1) as usize, destination: (backups - i) as usize },
    )
}

/// The moves of a rotation, in order.
pub fn rotate(backups: usize) -> (moves: Vec<Move>)
    ensures
        moves@ == rotation_of(backups as nat),
{
    let ghost all = rotation_of(backups as nat);
    let mut moves: Vec<Move> = Vec::new();
    let mut index: usize = backups;
    proof {
        assert(moves@ =~= all.take(0));
    }
    while index > 0
        invariant
            all == rotation_of(backups as nat),
            index <= backups,
            moves@ == all.take(backups - index),
        decreases index,
    {
        let step = Move { source: index - 1, destination: index };
        moves.push(step);
        proof {
            assert(all[backups - index] == step);
            assert(all.take(backups - index + 1) =~= all.take(backups - index).push(step));
        }
        index -= 1;
    }
    proof {
        assert(moves@ =~= all);
    }
    moves
}

/// The files after one move. Number by number, a file holds something or is not there.
pub open spec fn moved(files: Seq<Option<Seq<char>>>, step: Move) -> Seq<Option<Seq<char>>> {
    if files[step.source as int] is Some {
        files.update(step.destination as int, files[step.source as int]).update(
            step.source as int,
            None,
        )
    } else {
        files
    }
}

/// The files after the moves from position `start` on.
pub open spec fn moved_all(
    files: Seq<Option<Seq<char>>>,
    moves: Seq<Move>,
    start: int,
) -> Seq<Option<Seq<char>>>
    decreases moves.len() - start,
{
    if start < 0 || start >= moves.len() {
        files
    } else {
        moved_all(moved(files, moves[start]), moves, start + 1)
    }
}

/// The files after a rotation of the lowest `top` numbers.
pub open spec fn rotated(files: Seq<Option<Seq<char>>>, top: int) -> Seq<Option<Seq<char>>> {
    Seq::new(
        files.len(),
        |k: int|
            if k > top || top == 0 {
                files[k]
            } else if k == 0 {
                None
            } else if k == top && files[k - 1] is None {
                files[k]
            } else {
                files[k - 1]
            },
    )
}

proof fn lemma_rotation(files: Seq<Option<Seq<char>>>, backups: nat, start: int)
    requires
        0 <= start <= backups < usize::MAX,
        files.len() == backups + 1,
    ensures
        moved_all(files, rotation_of(backups), start) == rotated(files, backups - start),
    decreases backups - start,
{
    let moves = rotation_of(backups);
    if start < backups {
        let step = moves[start];
        let top = backups - start;
        assert(step.source == top - 1 && step.destination == top);
        let next = moved(files, step);
        lemma_rotation(next, backups, start + 1);
        assert(rotated(next, top - 1) =~= rotated(files, top));
    } else {
        assert(rotated(files, 0) =~= files);
    }
}

/// A rotation keeps the log, file by file: each backup holds what the one before it held, and only
/// the oldest is lost.
pub proof fn rotation_keeps_the_newer_files(
    files: Seq<Option<Seq<char>>>,
    backups: nat,
    k: int,
)
    requires
        0 < k <= backups < usize::MAX,
        files.len() == backups + 1,
        files[k - 1] is Some,
    ensures
        moved_all(files, rotation_of(backups), 0)[k] == files[k - 1],
        moved_all(files, rotation_of(backups), 0)[0] is None,
{
    lemma_rotation(files, backups, 0);
}

/// Records are flushed when thirty-two of them have gathered, at once where one asks for it, and
/// at the deadline of those that have gathered; nothing is flushed without a record.
pub proof fn records_are_flushed_in_time(batch: Batch, now: bool)
    requires
        batch.unflushed < 32,
    ensures
        ({
            let (after, action) = batch_step(
                batch,
                WorkerEvent::Appended { flush_immediately: now },
            );
            &&& after.unflushed == batch.unflushed + 1
            &&& after.started
            &&& action == WorkerAction::Flush <==> now || batch.unflushed == 31
            &&& action == WorkerAction::Wait <==> !now && batch.unflushed < 31
        }),
        batch_step(batch, WorkerEvent::FlushDeadline) == (
            batch,
            if batch.unflushed == 0 {
                WorkerAction::Wait
            } else {
                WorkerAction::Flush
            },
        ),
        batch_step(batch, WorkerEvent::Flushed).0.unflushed == 0,
        !batch_step(batch, WorkerEvent::Flushed).0.started,
        batch_step(batch, WorkerEvent::Flushed).1 == WorkerAction::Wait,
        batch_step(batch, WorkerEvent::Failed).1 == WorkerAction::Stop,
        batch_step(batch, WorkerEvent::Disconnected).1 == WorkerAction::FlushAndStop,
{
}

/// The files of a log are its backups from the oldest on, numbered down to one, and then the file
/// itself.
pub proof fn files_are_listed_from_the_oldest(name: Seq<char>, backups: nat)
    ensures
        file_names(name, 0) == seq![name],
        file_names(name, backups + 1) == seq![name + "."@ + decimal_digits(backups + 1)]
            + file_names(name, backups),
{
    assert(file_names(name, 0) =~= seq![name]);
    assert(file_names(name, backups + 1) =~= seq![name + "."@ + decimal_digits(backups + 1)]
        + file_names(name, backups));
}

/// A file is full exactly where it holds something and one record more would take it over its
/// limit.
pub proof fn full_files_are_rotated(bytes: u64, more: u64, max_bytes: u64)
    requires
        max_bytes < u64::MAX,
    ensures
        bytes == 0 ==> !rotates(bytes, more, max_bytes),
        bytes > 0 ==> (rotates(bytes, more, max_bytes) <==> bytes + more > max_bytes),
{
}

} // verus!
