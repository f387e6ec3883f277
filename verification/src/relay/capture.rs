//! Events written to disk: one JSON object to a line, in files that are rotated, compressed and
//! thrown away oldest first.

use crate::calendar::{pad, padded};
use crate::relay::channel::RelayEvent;
use crate::relay::config::{CaptureConfig, FsyncPolicy};
use crate::relay::template::escaped;
use crate::text::{dec, decimal, ends_with, to_chars};
use vstd::prelude::*;
use vstd::string::*;

verus! {

/// Where captured events can go.
pub trait CaptureSink: Send + Sync {
    fn write(&self, event: &RelayEvent);

    fn write_lagged_marker(&self, channel: &str, lagged_n: u64);
}

/// Takes events and keeps none.
pub struct NullSink;

impl CaptureSink for NullSink {
    fn write(&self, _event: &RelayEvent) {
    }

    fn write_lagged_marker(&self, _channel: &str, _lagged_n: u64) {
    }
}

/// A text as a JSON string.
pub open spec fn json_quoted(s: Seq<char>) -> Seq<char> {
    seq!['"'] + escaped(s) + seq!['"']
}

/// `serde_json::to_string` of a text: the text between quotes, with quotes, backslashes and
/// control characters escaped.
#[verifier::external_body]
pub(crate) fn json_string(s: &str) -> (r: String)
    ensures
        r@ == json_quoted(s@),
{
    serde_json::to_string(s).unwrap_or_default()
}

/// The line of an event. Its payload is JSON already.
pub open spec fn event_line(ts_ms: u64, channel: Seq<char>, seq_id: u64, payload: Seq<char>) -> Seq<char> {
    "{\"_received_at_ms\":"@ + dec(ts_ms as nat) + ",\"channel\":"@ + json_quoted(channel) + ",\"seq_id\":"@ + dec(
        seq_id as nat,
    ) + ",\"payload\":"@ + payload + "}\n"@
}

/// The line that tells that `n` events were lost.
pub open spec fn lagged_line(channel: Seq<char>, n: u64) -> Seq<char> {
    "{\"_lagged\":"@ + dec(n as nat) + ",\"channel\":"@ + json_quoted(channel) + "}\n"@
}

/// Writes the line of an event.
pub fn write_event_line(event: &RelayEvent) -> (r: String)
    ensures
        r@ == event_line(event.ts_ms, event.channel@, event.seq_id, event.payload@),
{
    let ts = decimal(event.ts_ms);
    let channel = json_string(event.channel.as_str());
    let seq = decimal(event.seq_id);
    "{\"_received_at_ms\":".to_owned().concat(ts.as_str()).concat(",\"channel\":").concat(channel.as_str()).concat(
        ",\"seq_id\":",
    ).concat(seq.as_str()).concat(",\"payload\":").concat(event.payload.as_str()).concat("}\n")
}

/// Writes the line that tells that events were lost.
pub fn write_lagged_line(channel: &str, n: u64) -> (r: String)
    ensures
        r@ == lagged_line(channel@, n),
{
    let count = decimal(n);
    let name = json_string(channel);
    "{\"_lagged\":".to_owned().concat(count.as_str()).concat(",\"channel\":").concat(name.as_str()).concat("}\n")
}

/// What reaches the writer of a channel.
pub enum CaptureInput {
    Event(RelayEvent),
    /// So many events were lost before the next one.
    Lagged(u64),
    /// The channel is closed, or the relay shuts down.
    Ended,
}

/// What the writer of a channel does next.
#[derive(Debug)]
pub enum CaptureAction {
    /// Appends the line and goes on; where `rotate` is set, in a new file.
    Append { line: String, rotate: bool },
    /// Forces the file to disk and ends.
    Finish,
}

/// The line that an input is written as.
pub open spec fn input_line(input: CaptureInput, channel: Seq<char>) -> Option<Seq<char>> {
    match input {
        CaptureInput::Event(e) => Some(event_line(e.ts_ms, e.channel@, e.seq_id, e.payload@)),
        CaptureInput::Lagged(n) => Some(lagged_line(channel, n)),
        CaptureInput::Ended => None,
    }
}

/// How many bytes a text takes.
pub open spec fn byte_len(s: Seq<char>) -> nat {
    vstd::utf8::encode_utf8(s).len()
}

/// Decides what is done with an input, where the current file holds `bytes_written` bytes. Gives
/// the action, and how many bytes the file holds that is current then.
pub fn next_action(bytes_written: u64, input: &CaptureInput, channel: &str, rotate_bytes: u64) -> (r: (
    CaptureAction,
    u64,
))
    requires
        input_line(*input, channel@) matches Some(line) ==> bytes_written + byte_len(line) <= u64::MAX
            && byte_len(line) <= usize::MAX,
    ensures
        match input_line(*input, channel@) {
            None => r.0 is Finish && r.1 == bytes_written,
            Some(text) => {
                let total = bytes_written + byte_len(text);
                let full = total >= rotate_bytes;
                &&& r.0 matches CaptureAction::Append { line, rotate }
                &&& line@ == text
                &&& rotate == full
                &&& r.1 == (if full { 0 } else { total })
            },
        },
{
    let line = match input {
        CaptureInput::Event(e) => write_event_line(e),
        CaptureInput::Lagged(n) => write_lagged_line(channel, *n),
        CaptureInput::Ended => {
            return (CaptureAction::Finish, bytes_written);
        },
    };
    let total: u64 = bytes_written + line.as_str().len() as u64;
    if total >= rotate_bytes {
        (CaptureAction::Append { line, rotate: true }, 0)
    } else {
        (CaptureAction::Append { line, rotate: false }, total)
    }
}

/// What is done between two files of a channel, in this order.
#[derive(Debug, Clone, Copy)]
pub struct RotationPlan {
    /// Whether the old file is forced to disk.
    pub fsync: bool,
    /// Whether the old file is compressed.
    pub compress: bool,
    /// How much all files may take, where that is limited.
    pub cap: Option<u64>,
}

/// Decides what is done between two files.
pub fn rotation_plan(config: &CaptureConfig) -> (r: RotationPlan)
    ensures
        r.fsync == (config.fsync !is Never),
        r.compress == config.gzip_after_rotate,
        r.cap == (if config.max_total_bytes > 0 { Some(config.max_total_bytes) } else { None::<u64> }),
{
    RotationPlan {
        fsync: config.fsync != FsyncPolicy::Never,
        compress: config.gzip_after_rotate,
        cap: if config.max_total_bytes > 0 { Some(config.max_total_bytes) } else { None },
    }
}

/// The name of a file that a channel opens at a moment.
pub open spec fn log_name_text(channel: Seq<char>, secs: u64, nanos: u32) -> Seq<char> {
    channel + "-"@ + dec(secs as nat) + "-"@ + padded(nanos as nat, 9) + ".log"@
}

/// Names the file that a channel opens.
pub fn log_name(channel: &str, secs: u64, nanos: u32) -> (r: String)
    ensures
        r@ == log_name_text(channel@, secs, nanos),
{
    let s = decimal(secs);
    let n = pad(nanos as u64, 9);
    channel.to_owned().concat("-").concat(s.as_str()).concat("-").concat(n.as_str()).concat(".log")
}

/// Names the compressed form of a file.
pub fn gz_name(path: &str) -> (r: String)
    ensures
        r@ == path@ + ".gz"@,
{
    path.to_owned().concat(".gz")
}

/// A file among the captures.
#[derive(Debug)]
pub struct CaptureFile {
    pub name: String,
    pub len: u64,
    /// When it was changed last; later is greater.
    pub modified: u128,
}

/// Whether a file belongs to the captures.
pub open spec fn is_capture(name: Seq<char>) -> bool {
    ".gz"@.is_suffix_of(name) || ".log"@.is_suffix_of(name)
}

/// Whether a file has the extension of a log, which its channel may still write to.
pub open spec fn is_log(name: Seq<char>) -> bool {
    ".log"@.is_suffix_of(name) && name.len() > 4
}

/// How much the files take together.
pub open spec fn total_len(files: Seq<CaptureFile>) -> int
    decreases files.len(),
{
    if files.len() == 0 {
        0
    } else {
        total_len(files.drop_last()) + files.last().len
    }
}

/// The files that belong to the captures, in the order in which they were listed.
pub open spec fn captures(files: Seq<CaptureFile>) -> Seq<CaptureFile>
    decreases files.len(),
{
    if files.len() == 0 {
        Seq::empty()
    } else if is_capture(files.last().name@) {
        captures(files.drop_last()).push(files.last())
    } else {
        captures(files.drop_last())
    }
}

/// The captures that are logs, or those that are not, in the order in which they were listed.
pub open spec fn captures_of(files: Seq<CaptureFile>, logs: bool) -> Seq<CaptureFile>
    decreases files.len(),
{
    if files.len() == 0 {
        Seq::empty()
    } else if is_capture(files.last().name@) && is_log(files.last().name@) == logs {
        captures_of(files.drop_last(), logs).push(files.last())
    } else {
        captures_of(files.drop_last(), logs)
    }
}

/// `s`, which goes from old to new, with `x` behind the files that are as old.
pub open spec fn insert_by_age(s: Seq<CaptureFile>, x: CaptureFile) -> Seq<CaptureFile>
    decreases s.len(),
{
    if s.len() == 0 || s.last().modified <= x.modified {
        s.push(x)
    } else {
        insert_by_age(s.drop_last(), x).push(s.last())
    }
}

/// The files from old to new; files as old as each other keep their order.
pub open spec fn by_age(files: Seq<CaptureFile>) -> Seq<CaptureFile>
    decreases files.len(),
{
    if files.len() == 0 {
        Seq::empty()
    } else {
        insert_by_age(by_age(files.drop_last()), files.last())
    }
}

/// The order in which captures go: those that are done from old to new, and only then the logs.
pub open spec fn planned(files: Seq<CaptureFile>) -> Seq<CaptureFile> {
    by_age(captures_of(files, false)) + by_age(captures_of(files, true))
}

/// What is left to throw away.
#[derive(Debug)]
pub struct CapPlan {
    /// The captures, in the order in which they go.
    pub files: Vec<CaptureFile>,
    /// The next file to go.
    pub next: usize,
    /// How much the captures take beyond the limit.
    pub over: u64,
}

fn name_is_capture(name: &str) -> (r: bool)
    ensures
        r == is_capture(name@),
{
    let chars = to_chars(name);
    ends_with(&chars, ".gz") || ends_with(&chars, ".log")
}

fn name_is_log(name: &str) -> (r: bool)
    ensures
        r == is_log(name@),
{
    let chars = to_chars(name);
    ends_with(&chars, ".log") && chars.len() > 4
}

proof fn lemma_insert_at(s: Seq<CaptureFile>, x: CaptureFile, p: int)
    requires
        0 <= p <= s.len(),
        p > 0 ==> s[p - 1].modified <= x.modified,
        forall|j: int| p <= j < s.len() ==> (#[trigger] s[j]).modified > x.modified,
    ensures
        insert_by_age(s, x) == s.insert(p, x),
    decreases s.len(),
{
    if p == s.len() {
        assert(s.insert(p, x) =~= s.push(x));
    } else {
        assert(s.last().modified > x.modified);
        let front = s.drop_last();
        assert forall|j: int| p <= j < front.len() implies (#[trigger] front[j]).modified > x.modified by {
            assert(s[j].modified > x.modified);
        }
        lemma_insert_at(front, x, p);
        assert(s.insert(p, x) =~= front.insert(p, x).push(s.last()));
    }
}

fn insert_file(sorted: &mut Vec<CaptureFile>, x: CaptureFile)
    ensures
        final(sorted)@ == insert_by_age(old(sorted)@, x),
{
    let mut p: usize = sorted.len();
    while p > 0 && sorted[p - 1].modified > x.modified
        invariant
            p <= sorted@.len(),
            forall|j: int| p <= j < sorted@.len() ==> (#[trigger] sorted@[j]).modified > x.modified,
        decreases p,
    {
        p = p - 1;
    }
    proof {
        lemma_insert_at(sorted@, x, p as int);
    }
    sorted.insert(p, x);
}

proof fn lemma_total_bounds(files: Seq<CaptureFile>, n: int)
    requires
        0 <= n <= files.len(),
    ensures
        0 <= total_len(files.take(n)) <= total_len(files),
    decreases files.len(),
{
    if n == files.len() {
        assert(files.take(n) =~= files);
        if n > 0 {
            assert(files.take(n - 1) =~= files.drop_last());
            lemma_total_bounds(files.drop_last(), n - 1);
        }
    } else {
        lemma_total_bounds(files.drop_last(), n);
        assert(files.drop_last().take(n) =~= files.take(n));
    }
}

impl CapPlan {
    /// Plans how to bring the captures among `files` down to `max_bytes`.
    pub fn start(files: Vec<CaptureFile>, max_bytes: u64) -> (r: CapPlan)
        requires
            total_len(captures(files@)) <= u64::MAX,
        ensures
            r.files@ == planned(files@),
            r.next == 0,
            r.over == (if total_len(captures(files@)) > max_bytes {
                total_len(captures(files@)) - max_bytes
            } else {
                0
            }),
    {
        let ghost all = files@;
        let mut rest = files;
        let mut done: Vec<CaptureFile> = Vec::new();
        let mut logs: Vec<CaptureFile> = Vec::new();
        let mut total: u64 = 0;
        let ghost mut n: int = 0;
        assert(all.skip(0) =~= all);
        assert(all.take(0) =~= Seq::<CaptureFile>::empty());
        proof {
            lemma_captures_grow(all, 0);
        }
        while rest.len() > 0
            invariant
                0 <= n <= all.len(),
                rest@ == all.skip(n),
                done@ == by_age(captures_of(all.take(n), false)),
                logs@ == by_age(captures_of(all.take(n), true)),
                total == total_len(captures(all.take(n))),
                total_len(captures(all)) <= u64::MAX,
            decreases rest@.len(),
        {
            let ghost left = rest@;
            let file = rest.remove(0);
            proof {
                assert(file == all[n]);
                assert(all.take(n + 1).drop_last() =~= all.take(n));
                assert(rest@ =~= all.skip(n + 1));
                lemma_captures_grow(all, n + 1);
                let before = captures(all.take(n));
                assert(before.push(file).drop_last() =~= before);
                let old_done = captures_of(all.take(n), false);
                assert(old_done.push(file).drop_last() =~= old_done);
                let old_logs = captures_of(all.take(n), true);
                assert(old_logs.push(file).drop_last() =~= old_logs);
            }
            if name_is_capture(file.name.as_str()) {
                total = total + file.len;
                if name_is_log(file.name.as_str()) {
                    insert_file(&mut logs, file);
                } else {
                    insert_file(&mut done, file);
                }
            }
            proof {
                n = n + 1;
            }
        }
        assert(all.take(n) =~= all);
        let over: u64 = if total > max_bytes { total - max_bytes } else { 0 };
        done.append(&mut logs);
        CapPlan { files: done, next: 0, over }
    }

    /// The next file to delete, as its position; none where enough is gone, or nothing is left.
    pub fn next_deletion(&mut self) -> (r: Option<usize>)
        ensures
            final(self).files@ == old(self).files@,
            final(self).over == old(self).over,
            match r {
                Some(i) => old(self).over > 0 && i == old(self).next && i < old(self).files@.len() && final(self).next
                    == i + 1,
                None => (old(self).over == 0 || old(self).next >= old(self).files@.len()) && final(self).next == old(
                    self,
                ).next,
            },
    {
        if self.over == 0 || self.next >= self.files.len() {
            return None;
        }
        let i = self.next;
        self.next = i + 1;
        Some(i)
    }

    /// Counts a file that has been deleted.
    pub fn deleted(&mut self, len: u64)
        ensures
            final(self).files@ == old(self).files@,
            final(self).next == old(self).next,
            final(self).over == (if old(self).over > len { old(self).over - len } else { 0 }),
    {
        self.over = self.over.saturating_sub(len);
    }
}

proof fn lemma_captures_grow(all: Seq<CaptureFile>, n: int)
    requires
        0 <= n <= all.len(),
    ensures
        0 <= total_len(captures(all.take(n))) <= total_len(captures(all)),
    decreases all.len() - n,
{
    if n == all.len() {
        assert(all.take(n) =~= all);
        lemma_total_bounds(captures(all), captures(all).len() as int);
        assert(captures(all).take(captures(all).len() as int) =~= captures(all));
    } else {
        lemma_captures_grow(all, n + 1);
        assert(all.take(n + 1).drop_last() =~= all.take(n));
        let before = captures(all.take(n));
        lemma_total_bounds(before, before.len() as int);
        assert(before.take(before.len() as int) =~= before);
        assert(before.push(all[n]).drop_last() =~= before);
    }
}

/// How many files of a plan go, from position `n` on, where `over` has to go and each deletion
/// succeeds.
pub open spec fn going(files: Seq<CaptureFile>, n: int, over: int) -> nat
    decreases files.len() - n,
{
    if over <= 0 || n >= files.len() {
        0
    } else {
        1 + going(files, n + 1, over - files[n].len)
    }
}

/// No more files go than are needed, and as many as are needed or as there are: what has gone makes
/// up for what was too much, or nothing is left; and without the last file that goes it would not.
pub proof fn law_no_more_files_go_than_needed(files: Seq<CaptureFile>, n: int, over: int)
    requires
        0 <= n <= files.len(),
    ensures
        n + going(files, n, over) <= files.len(),
        total_len(files.subrange(n, n + going(files, n, over))) >= over || n + going(files, n, over) == files.len(),
        going(files, n, over) > 0 ==> total_len(files.subrange(n, n + going(files, n, over) - 1)) < over,
    decreases files.len() - n,
{
    let k = going(files, n, over);
    assert(files.subrange(n, n) =~= Seq::<CaptureFile>::empty());
    if over > 0 && n < files.len() {
        law_no_more_files_go_than_needed(files, n + 1, over - files[n].len);
        lemma_total_first(files.subrange(n, n + k));
        assert(files.subrange(n, n + k).skip(1) =~= files.subrange(n + 1, n + k));
        if k > 1 {
            lemma_total_first(files.subrange(n, n + k - 1));
            assert(files.subrange(n, n + k - 1).skip(1) =~= files.subrange(n + 1, n + k - 1));
        }
    }
}

proof fn lemma_total_first(files: Seq<CaptureFile>)
    requires
        files.len() > 0,
    ensures
        total_len(files) == files[0].len + total_len(files.skip(1)),
    decreases files.len(),
{
    if files.len() == 1 {
        assert(files.drop_last() =~= Seq::<CaptureFile>::empty());
        assert(files.skip(1) =~= Seq::<CaptureFile>::empty());
    } else {
        lemma_total_first(files.drop_last());
        assert(files.drop_last().skip(1) =~= files.skip(1).drop_last());
        assert(files.skip(1).last() == files.last());
    }
}

proof fn lemma_insert_keeps_kind(s: Seq<CaptureFile>, x: CaptureFile, logs: bool)
    requires
        forall|i: int| 0 <= i < s.len() ==> is_log((#[trigger] s[i]).name@) == logs,
        is_log(x.name@) == logs,
    ensures
        forall|i: int| 0 <= i < insert_by_age(s, x).len() ==> is_log((#[trigger] insert_by_age(s, x)[i]).name@) == logs,
    decreases s.len(),
{
    if s.len() > 0 && s.last().modified > x.modified {
        let front = s.drop_last();
        lemma_insert_keeps_kind(front, x, logs);
        let t = insert_by_age(s, x);
        let head = insert_by_age(front, x);
        assert forall|i: int| 0 <= i < t.len() implies is_log((#[trigger] t[i]).name@) == logs by {
            if i < head.len() {
                assert(t[i] == head[i]);
            } else {
                assert(t[i] == s[s.len() - 1]);
            }
        }
    }
}

proof fn lemma_kind(files: Seq<CaptureFile>, logs: bool)
    ensures
        forall|i: int|
            0 <= i < by_age(captures_of(files, logs)).len() ==> is_log(
                (#[trigger] by_age(captures_of(files, logs))[i]).name@,
            ) == logs,
    decreases files.len(),
{
    if files.len() > 0 {
        lemma_kind(files.drop_last(), logs);
        let before = captures_of(files.drop_last(), logs);
        if is_capture(files.last().name@) && is_log(files.last().name@) == logs {
            assert(before.push(files.last()).drop_last() =~= before);
            lemma_insert_keeps_kind(by_age(before), files.last(), logs);
        }
    }
}

/// A log goes only after every capture that is none.
pub proof fn law_logs_go_last(files: Seq<CaptureFile>, i: int, j: int)
    requires
        0 <= i < j < planned(files).len(),
        is_log(planned(files)[i].name@),
    ensures
        is_log(planned(files)[j].name@),
{
    lemma_kind(files, false);
    lemma_kind(files, true);
    let done = by_age(captures_of(files, false));
    if i < done.len() {
        assert(planned(files)[i] == done[i]);
    }
    assert(planned(files)[j] == by_age(captures_of(files, true))[j - done.len()]);
}

proof fn lemma_insert_keeps_order(s: Seq<CaptureFile>, x: CaptureFile)
    requires
        forall|i: int, j: int| 0 <= i < j < s.len() ==> (#[trigger] s[i]).modified <= (#[trigger] s[j]).modified,
    ensures
        forall|i: int, j: int|
            0 <= i < j < insert_by_age(s, x).len() ==> (#[trigger] insert_by_age(s, x)[i]).modified <= (
            #[trigger] insert_by_age(s, x)[j]).modified,
        forall|i: int|
            0 <= i < insert_by_age(s, x).len() ==> (#[trigger] insert_by_age(s, x)[i]).modified <= x.modified || (
            s.len() > 0 && insert_by_age(s, x)[i].modified <= s.last().modified),
    decreases s.len(),
{
    let t = insert_by_age(s, x);
    if s.len() == 0 || s.last().modified <= x.modified {
        assert forall|i: int, j: int| 0 <= i < j < t.len() implies (#[trigger] t[i]).modified <= (
        #[trigger] t[j]).modified by {
            if j == s.len() && i < s.len() - 1 {
                assert(s[i].modified <= s[s.len() - 1].modified);
            } else if j < s.len() {
                assert(s[i].modified <= s[j].modified);
            }
        }
        assert forall|i: int| 0 <= i < t.len() implies (#[trigger] t[i]).modified <= x.modified by {
            if i < s.len() - 1 {
                assert(s[i].modified <= s[s.len() - 1].modified);
            }
        }
    } else {
        let front = s.drop_last();
        assert forall|i: int, j: int| 0 <= i < j < front.len() implies (#[trigger] front[i]).modified <= (
        #[trigger] front[j]).modified by {
            assert(s[i].modified <= s[j].modified);
        }
        lemma_insert_keeps_order(front, x);
        let head = insert_by_age(front, x);
        if front.len() > 0 {
            assert(s[front.len() - 1].modified <= s[s.len() - 1].modified);
        }
        assert forall|i: int| 0 <= i < t.len() implies (#[trigger] t[i]).modified <= s.last().modified by {
            if i < head.len() {
                assert(t[i] == head[i]);
            }
        }
        assert forall|i: int, j: int| 0 <= i < j < t.len() implies (#[trigger] t[i]).modified <= (
        #[trigger] t[j]).modified by {
            if j < head.len() {
                assert(t[i] == head[i] && t[j] == head[j]);
            }
        }
    }
}

proof fn lemma_age_orders(files: Seq<CaptureFile>)
    ensures
        forall|i: int, j: int|
            0 <= i < j < by_age(files).len() ==> (#[trigger] by_age(files)[i]).modified <= (#[trigger] by_age(
                files,
            )[j]).modified,
    decreases files.len(),
{
    if files.len() > 0 {
        lemma_age_orders(files.drop_last());
        lemma_insert_keeps_order(by_age(files.drop_last()), files.last());
    }
}

/// Of two captures of the same kind the older goes first.
pub proof fn law_oldest_files_go_first(files: Seq<CaptureFile>, i: int, j: int)
    requires
        0 <= i < j < planned(files).len(),
        is_log(planned(files)[i].name@) == is_log(planned(files)[j].name@),
    ensures
        planned(files)[i].modified <= planned(files)[j].modified,
{
    lemma_kind(files, false);
    lemma_kind(files, true);
    lemma_age_orders(captures_of(files, false));
    lemma_age_orders(captures_of(files, true));
    let done = by_age(captures_of(files, false));
    let logs = by_age(captures_of(files, true));
    if j < done.len() {
        assert(planned(files)[i] == done[i] && planned(files)[j] == done[j]);
    } else {
        assert(planned(files)[j] == logs[j - done.len()]);
        if i < done.len() {
            assert(planned(files)[i] == done[i]);
        } else {
            assert(planned(files)[i] == logs[i - done.len()]);
        }
    }
}

/// The line of an event is a JSON object of its moment, its channel, its number and its payload, in
/// this order; that of lost events has their count and the channel. Each ends the line.
pub proof fn law_lines_tell_the_event(ts_ms: u64, channel: Seq<char>, seq_id: u64, payload: Seq<char>, n: u64)
    ensures
        event_line(ts_ms, channel, seq_id, payload) == "{\"_received_at_ms\":"@ + dec(ts_ms as nat) + ",\"channel\":"@
            + (seq!['"'] + escaped(channel) + seq!['"']) + ",\"seq_id\":"@ + dec(seq_id as nat) + ",\"payload\":"@
            + payload + "}\n"@,
        lagged_line(channel, n) == "{\"_lagged\":"@ + dec(n as nat) + ",\"channel\":"@ + (seq!['"'] + escaped(channel)
            + seq!['"']) + "}\n"@,
        event_line(ts_ms, channel, seq_id, payload).last() == '\n',
        lagged_line(channel, n).last() == '\n',
{
    reveal_strlit("}\n");
}

/// What reaches the writer of a channel is written under the name of its channel: an event as it is,
/// lost events by their count; at the end nothing is written.
pub proof fn law_inputs_are_written_as_they_are(event: RelayEvent, n: u64, channel: Seq<char>)
    ensures
        input_line(CaptureInput::Event(event), channel) == Some(
            event_line(event.ts_ms, event.channel@, event.seq_id, event.payload@),
        ),
        input_line(CaptureInput::Lagged(n), channel) == Some(lagged_line(channel, n)),
        input_line(CaptureInput::Ended, channel) is None,
{
}

/// A file belongs to the captures by the end of its name: a compressed file ends in `.gz`, a log in
/// `.log` with something before it. A file that a channel opens is a log, and its compressed form is
/// none.
pub proof fn law_captures_go_by_their_ending(name: Seq<char>, secs: u64, nanos: u32)
    ensures
        is_capture(name + ".gz"@),
        is_capture(name + ".log"@),
        !is_log(name + ".gz"@),
        is_log(name + ".log"@) <==> name.len() > 0,
        name.len() == 0 || (name.last() != 'z' && name.last() != 'g') ==> !is_capture(name) && !is_log(name),
        is_log(log_name_text(name, secs, nanos)),
{
    reveal_strlit(".gz");
    reveal_strlit(".log");
    reveal_strlit("-");
    let a = name + ".gz"@;
    let b = name + ".log"@;
    assert(a.subrange(a.len() - 3, a.len() as int) =~= ".gz"@);
    assert(b.subrange(b.len() - 4, b.len() as int) =~= ".log"@);
    assert(a.last() == 'z');
    assert(".log"@.last() == 'g');
    assert(".gz"@.last() == 'z');
    if ".log"@.is_suffix_of(a) {
        assert(a.subrange(a.len() - 4, a.len() as int).last() == 'g');
    }
    if ".log"@.is_suffix_of(name) {
        assert(name.subrange(name.len() - 4, name.len() as int).last() == name.last());
    }
    if ".gz"@.is_suffix_of(name) {
        assert(name.subrange(name.len() - 3, name.len() as int).last() == name.last());
    }
    let c = log_name_text(name, secs, nanos);
    assert(c.subrange(c.len() - 4, c.len() as int) =~= ".log"@);
}

/// The files of a plan are the captures among the files, all of them and no others.
pub proof fn law_only_captures_are_planned(files: Seq<CaptureFile>, f: CaptureFile)
    ensures
        planned(files).contains(f) <==> files.contains(f) && is_capture(f.name@),
        planned(files).len() == captures(files).len(),
        captures(files).contains(f) <==> files.contains(f) && is_capture(f.name@),
{
    let done = captures_of(files, false);
    let logs = captures_of(files, true);
    lemma_captures_held(files, f);
    lemma_age_keeps_files(done, f);
    lemma_age_keeps_files(logs, f);
    let all = planned(files);
    if by_age(done).contains(f) {
        let i = by_age(done).index_of(f);
        assert(all[i] == f);
    }
    if by_age(logs).contains(f) {
        let i = by_age(logs).index_of(f);
        assert(all[by_age(done).len() + i] == f);
    }
    if all.contains(f) {
        let i = all.index_of(f);
        if i < by_age(done).len() {
            assert(by_age(done)[i] == f);
        } else {
            assert(by_age(logs)[i - by_age(done).len()] == f);
        }
    }
}

proof fn lemma_push_holds(s: Seq<CaptureFile>, x: CaptureFile, f: CaptureFile)
    ensures
        s.push(x).contains(f) <==> s.contains(f) || x == f,
{
    assert(s.push(x).last() == x);
    if s.contains(f) {
        let i = s.index_of(f);
        assert(s.push(x)[i] == f);
    }
    if s.push(x).contains(f) && x != f {
        let i = s.push(x).index_of(f);
        assert(s[i] == f);
    }
}

proof fn lemma_captures_held(files: Seq<CaptureFile>, f: CaptureFile)
    ensures
        captures(files).contains(f) <==> files.contains(f) && is_capture(f.name@),
        captures_of(files, true).contains(f) <==> files.contains(f) && is_capture(f.name@) && is_log(f.name@),
        captures_of(files, false).contains(f) <==> files.contains(f) && is_capture(f.name@) && !is_log(f.name@),
        captures(files).len() == captures_of(files, true).len() + captures_of(files, false).len(),
    decreases files.len(),
{
    if files.len() > 0 {
        let front = files.drop_last();
        lemma_captures_held(front, f);
        assert(front.push(files.last()) =~= files);
        lemma_push_holds(front, files.last(), f);
        lemma_push_holds(captures(front), files.last(), f);
        lemma_push_holds(captures_of(front, true), files.last(), f);
        lemma_push_holds(captures_of(front, false), files.last(), f);
    }
}

proof fn lemma_insertion_held(s: Seq<CaptureFile>, x: CaptureFile, f: CaptureFile)
    ensures
        insert_by_age(s, x).contains(f) <==> s.contains(f) || x == f,
        insert_by_age(s, x).len() == s.len() + 1,
    decreases s.len(),
{
    lemma_push_holds(s, x, f);
    if s.len() > 0 && s.last().modified > x.modified {
        let front = s.drop_last();
        lemma_insertion_held(front, x, f);
        lemma_push_holds(insert_by_age(front, x), s.last(), f);
        lemma_push_holds(front, s.last(), f);
        assert(front.push(s.last()) =~= s);
    }
}

proof fn lemma_age_keeps_files(files: Seq<CaptureFile>, f: CaptureFile)
    ensures
        by_age(files).contains(f) <==> files.contains(f),
        by_age(files).len() == files.len(),
    decreases files.len(),
{
    if files.len() > 0 {
        let front = files.drop_last();
        lemma_age_keeps_files(front, f);
        lemma_insertion_held(by_age(front), files.last(), f);
        lemma_push_holds(front, files.last(), f);
        assert(front.push(files.last()) =~= files);
    }
}

} // verus!
