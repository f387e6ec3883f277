//! The reader of the write-ahead log: what it does next, and which files it may throw away.

use crate::text::{dec, decimal};
use vstd::prelude::*;
use vstd::string::*;

verus! {

/// How many operations are read at once.
pub const BATCH_LIMIT: usize = 10000;

/// A place in the log: a file and an offset in it.
#[derive(Debug, Clone, Copy, PartialEq, Eq, Structural)]
pub struct WalCursor {
    pub generation: u32,
    pub offset: u64,
}

impl WalCursor {
    /// A place in the log.
    pub fn new(generation: u32, offset: u64) -> (r: Self)
        ensures
            r == (WalCursor { generation, offset }),
    {
        WalCursor { generation, offset }
    }

    /// How the place is written.
    pub open spec fn text(self) -> Seq<char> {
        dec(self.generation as nat) + ":"@ + dec(self.offset as nat)
    }

    /// Writes the place.
    pub fn to_text(&self) -> (r: String)
        ensures
            r@ == self.text(),
    {
        let offset = decimal(self.offset);
        decimal(self.generation as u64).concat(":").concat(offset.as_str())
    }
}

/// What the reader does at the start of a round.
#[derive(Debug, Clone, Copy, PartialEq, Eq, Structural)]
pub enum WalStep {
    /// The service shuts down.
    Exit,
    /// The engine takes in bulk data: look again after so many milliseconds.
    Pause(u64),
    /// Read so many operations.
    Read(usize),
}

/// Decides how a round starts. While bulk data is taken in nothing is applied on top of it.
pub fn next_step(shutting_down: bool, loading: bool) -> (r: WalStep)
    ensures
        r == (if shutting_down {
            WalStep::Exit
        } else if loading {
            WalStep::Pause(100)
        } else {
            WalStep::Read(BATCH_LIMIT)
        }),
{
    if shutting_down {
        WalStep::Exit
    } else if loading {
        WalStep::Pause(100)
    } else {
        WalStep::Read(BATCH_LIMIT)
    }
}

/// What came of reading.
#[derive(Debug, Clone, Copy, PartialEq, Eq, Structural)]
pub enum ReadOutcome {
    Batch { entries: usize, crc_failures: u64, bytes_read: u64 },
    Failed,
}

/// What the reader does with what it read.
#[derive(Debug, Clone, Copy, PartialEq, Eq, Structural)]
pub enum AfterRead {
    /// Apply the operations.
    Apply,
    /// There is no engine yet: go back to `to`, so that they are read again, after so many
    /// milliseconds.
    Rewind { to: WalCursor, sleep_ms: u64 },
    /// There was nothing to apply: look again after so many milliseconds. Where bytes were read in
    /// vain that is worth a word.
    Idle { noteworthy: bool, sleep_ms: u64 },
    /// Reading failed: try again after so many milliseconds.
    Retry { sleep_ms: u64 },
}

/// A cursor so many bytes back in its file.
pub open spec fn rewound(cursor: WalCursor, bytes: u64) -> WalCursor {
    WalCursor {
        generation: cursor.generation,
        offset: if cursor.offset >= bytes {
            (cursor.offset - bytes) as u64
        } else {
            0
        },
    }
}

/// Decides what is done with what was read up to `cursor`.
pub fn after_read(outcome: ReadOutcome, has_engine: bool, cursor: WalCursor) -> (r: AfterRead)
    ensures
        r == (match outcome {
            ReadOutcome::Batch { entries, crc_failures, bytes_read } => if entries == 0 {
                AfterRead::Idle { noteworthy: crc_failures > 0 || bytes_read > 0, sleep_ms: 50 }
            } else if has_engine {
                AfterRead::Apply
            } else {
                AfterRead::Rewind { to: rewound(cursor, bytes_read), sleep_ms: 1000 }
            },
            ReadOutcome::Failed => AfterRead::Retry { sleep_ms: 1000 },
        }),
{
    match outcome {
        ReadOutcome::Batch { entries, crc_failures, bytes_read } => {
            if entries == 0 {
                AfterRead::Idle { noteworthy: crc_failures > 0 || bytes_read > 0, sleep_ms: 50 }
            } else if has_engine {
                AfterRead::Apply
            } else {
                let offset: u64 = cursor.offset.saturating_sub(bytes_read);
                AfterRead::Rewind { to: WalCursor::new(cursor.generation, offset), sleep_ms: 1000 }
            }
        },
        ReadOutcome::Failed => AfterRead::Retry { sleep_ms: 1000 },
    }
}

/// What is said of operations that were applied.
#[derive(Debug)]
pub enum ApplyReport {
    /// Some were applied or went wrong.
    Applied(String),
    /// All were left out.
    AllSkipped(String),
    Nothing,
}

/// How a batch of which something was applied or went wrong is reported.
pub open spec fn applied_text(applied: u64, skipped: u64, errors: u64, cursor: WalCursor) -> Seq<char> {
    "WAL reader: applied="@ + dec(applied as nat) + " skipped="@ + dec(skipped as nat) + " errors="@ + dec(
        errors as nat,
    ) + " cursor="@ + cursor.text()
}

/// How a batch that was left out is reported.
pub open spec fn skipped_text(batch: u64, skipped: u64, crc_failures: u64, cursor: WalCursor, slots: u64) -> Seq<char> {
    "WAL reader: ALL SKIPPED batch="@ + dec(batch as nat) + " skipped="@ + dec(skipped as nat) + " crc_failures="@ + dec(
        crc_failures as nat,
    ) + " cursor="@ + cursor.text() + " slot_counter="@ + dec(slots as nat)
}

/// What happened to a batch.
#[derive(Debug, Clone, Copy)]
pub struct Applied {
    pub batch: u64,
    pub applied: u64,
    pub skipped: u64,
    pub errors: u64,
    pub crc_failures: u64,
    pub slot_counter: u64,
}

/// Reports a batch. Where operations were applied, the documents they speak of leave the cache.
pub fn report_applied(b: Applied, cursor: WalCursor) -> (r: (ApplyReport, bool))
    ensures
        r.1 == (b.applied > 0),
        if b.applied > 0 || b.errors > 0 {
            r.0 matches ApplyReport::Applied(text) && text@ == applied_text(b.applied, b.skipped, b.errors, cursor)
        } else if b.skipped > 0 {
            r.0 matches ApplyReport::AllSkipped(text) && text@ == skipped_text(
                b.batch,
                b.skipped,
                b.crc_failures,
                cursor,
                b.slot_counter,
            )
        } else {
            r.0 is Nothing
        },
{
    let place = cursor.to_text();
    let skipped = decimal(b.skipped);
    if b.applied > 0 || b.errors > 0 {
        let applied = decimal(b.applied);
        let errors = decimal(b.errors);
        let text = "WAL reader: applied=".to_owned().concat(applied.as_str()).concat(" skipped=").concat(
            skipped.as_str(),
        ).concat(" errors=").concat(errors.as_str()).concat(" cursor=").concat(place.as_str());
        (ApplyReport::Applied(text), b.applied > 0)
    } else if b.skipped > 0 {
        let batch = decimal(b.batch);
        let crc = decimal(b.crc_failures);
        let slots = decimal(b.slot_counter);
        let text = "WAL reader: ALL SKIPPED batch=".to_owned().concat(batch.as_str()).concat(" skipped=").concat(
            skipped.as_str(),
        ).concat(" crc_failures=").concat(crc.as_str()).concat(" cursor=").concat(place.as_str()).concat(
            " slot_counter=",
        ).concat(slots.as_str());
        (ApplyReport::AllSkipped(text), false)
    } else {
        (ApplyReport::Nothing, false)
    }
}

/// Which files of the log have been thrown away: those before this one.
#[derive(Debug, Clone, Copy, PartialEq, Eq, Structural)]
pub struct Retention {
    pub kept_from: u32,
}

impl Retention {
    /// At the start those before the cursor that the service starts from.
    pub fn start(cursor: WalCursor) -> (r: Self)
        ensures
            r.kept_from == cursor.generation,
    {
        Retention { kept_from: cursor.generation }
    }

    /// Whether it is worth asking for the cursor that is safe on disk.
    pub fn is_due(&self, cursor: WalCursor) -> (r: bool)
        ensures
            r == (cursor.generation > self.kept_from),
    {
        cursor.generation > self.kept_from
    }

    /// The files that are kept once the reader has come to `cursor`, and `persisted` is safe on disk:
    /// those from the file of the cursor on disk, where the reader has moved past those that are
    /// kept.
    pub open spec fn advanced(self, cursor: WalCursor, persisted: Option<WalCursor>) -> Retention {
        match persisted {
            Some(p) if cursor.generation > self.kept_from && p.generation > self.kept_from => Retention {
                kept_from: p.generation,
            },
            _ => self,
        }
    }

    /// Decides which files go. Gives the first file that stays, where some go.
    pub fn advance(&mut self, cursor: WalCursor, persisted: Option<WalCursor>) -> (r: Option<u32>)
        ensures
            *final(self) == old(self).advanced(cursor, persisted),
            match r {
                Some(first) => final(self).kept_from > old(self).kept_from && first == final(self).kept_from,
                None => *final(self) == *old(self),
            },
    {
        if !self.is_due(cursor) {
            return None;
        }
        if let Some(p) = persisted {
            if p.generation > self.kept_from {
                self.kept_from = p.generation;
                return Some(p.generation);
            }
        }
        None
    }
}

/// Whether the sweep over overdue records is due: it is on, so many seconds have gone by, and no bulk
/// data is taken in.
pub fn sweep_due(interval_secs: Option<u64>, elapsed_secs: u64, loading: bool) -> (r: bool)
    ensures
        r == (interval_secs matches Some(n) && n > 0 && elapsed_secs >= n && !loading),
{
    match interval_secs {
        Some(n) => n > 0 && elapsed_secs >= n && !loading,
        None => false,
    }
}

/// Operations that could not be applied are read again: going back over what was read leads to where
/// reading began.
pub proof fn law_rewinding_undoes_reading(from: WalCursor, bytes: u64)
    requires
        from.offset + bytes <= u64::MAX,
    ensures
        rewound(WalCursor { generation: from.generation, offset: (from.offset + bytes) as u64 }, bytes) == from,
{
}

/// No file goes that a start from the cursor on disk would read, none goes without a cursor on disk,
/// and none comes back.
pub proof fn law_no_needed_file_goes(kept: Retention, cursor: WalCursor, persisted: Option<WalCursor>)
    ensures
        kept.kept_from <= kept.advanced(cursor, persisted).kept_from,
        kept.advanced(cursor, persisted).kept_from > kept.kept_from ==> persisted is Some && kept.advanced(
            cursor,
            persisted,
        ).kept_from <= persisted->0.generation,
{
}

/// A place is written as its file and its offset, and the report of a batch names each number as what
/// it is.
pub proof fn law_reports_name_their_numbers(
    a: u64,
    b: u64,
    c: u64,
    d: u64,
    cursor: WalCursor,
)
    ensures
        cursor.text() == dec(cursor.generation as nat) + ":"@ + dec(cursor.offset as nat),
        applied_text(a, b, c, cursor) == "WAL reader: applied="@ + dec(a as nat) + " skipped="@ + dec(b as nat)
            + " errors="@ + dec(c as nat) + " cursor="@ + (dec(cursor.generation as nat) + ":"@ + dec(
            cursor.offset as nat,
        )),
        skipped_text(a, b, c, cursor, d) == "WAL reader: ALL SKIPPED batch="@ + dec(a as nat) + " skipped="@ + dec(
            b as nat,
        ) + " crc_failures="@ + dec(c as nat) + " cursor="@ + (dec(cursor.generation as nat) + ":"@ + dec(
            cursor.offset as nat,
        )) + " slot_counter="@ + dec(d as nat),
{
}

/// Going back stays in the file, and never goes before its beginning.
pub proof fn law_rewinding_stays_in_the_file(cursor: WalCursor, bytes: u64)
    ensures
        rewound(cursor, bytes).generation == cursor.generation,
        cursor.offset <= bytes ==> rewound(cursor, bytes).offset == 0,
        cursor.offset >= bytes ==> rewound(cursor, bytes).offset + bytes == cursor.offset,
{
}

/// Files go as soon as the reader has moved past them and the cursor on disk is past them too; then
/// those before the file of the cursor on disk are gone.
pub proof fn law_read_files_go(kept: Retention, cursor: WalCursor, persisted: WalCursor)
    ensures
        cursor.generation > kept.kept_from && persisted.generation > kept.kept_from ==> kept.advanced(
            cursor,
            Some(persisted),
        ).kept_from == persisted.generation,
        cursor.generation <= kept.kept_from ==> kept.advanced(cursor, Some(persisted)) == kept,
        kept.advanced(cursor, None) == kept,
{
}

} // verus!
