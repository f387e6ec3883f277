//! Dumps of a database that are loaded, and starting over with them.

use crate::json::Json;
use crate::server::answer::{is_current, refuse, Refusal, RefusalView};
use crate::server::lookups::{find_text_field, has_field, is_field, text_field};
use crate::text::{opt_view, slice_text, text_eq, to_chars};
use vstd::prelude::*;
use vstd::string::*;

verus! {

/// What a registered dump is.
#[derive(Debug)]
pub enum DumpKind {
    /// A file that the service reads.
    File,
    /// A log that another writes.
    Log { name: String, wal_path: Option<String> },
}

/// Tells what a dump is that is registered.
pub fn dump_kind(body: &Json) -> (r: DumpKind)
    ensures
        match r {
            DumpKind::File => has_field(*body, "csv_path"@),
            DumpKind::Log { name, wal_path } => {
                &&& !has_field(*body, "csv_path"@)
                &&& name@ == (match text_field(*body, "name"@) {
                    Some(n) => n,
                    None => "unknown"@,
                })
                &&& opt_view(wal_path) == text_field(*body, "wal_path"@)
            },
        },
{
    if is_field(body, "csv_path") {
        return DumpKind::File;
    }
    let name = match find_text_field(body, "name") {
        Some(n) => n.clone(),
        None => "unknown".to_owned(),
    };
    let wal_path = match find_text_field(body, "wal_path") {
        Some(p) => Some(p.clone()),
        None => None,
    };
    DumpKind::Log { name, wal_path }
}

/// What became of the work on a dump.
#[derive(Debug)]
pub enum DumpOutcome {
    Processed { rows: u64 },
    Failed(String),
    Panicked(String),
}

/// What is done then.
#[derive(Debug)]
pub enum DumpVerdict {
    /// The task and the dump are complete; what became alive is read anew where `reload` says so.
    Complete { rows: u64, reload: bool },
    /// The task failed, and so did the dump.
    DumpFailed { error: String },
    /// The task failed; the dump stays as it was.
    TaskFailed { error: String },
}

/// What is said of a dump without rows.
pub open spec fn no_rows_text(name: Seq<char>) -> Seq<char> {
    "dump '"@ + name + "' processed 0 rows — possible CSV header/column mismatch"@
}

/// Judges what became of a dump. One without rows has failed, so that it is tried again.
pub fn judge_dump(name: &str, outcome: DumpOutcome, sets_alive: bool) -> (r: DumpVerdict)
    ensures
        match outcome {
            DumpOutcome::Processed { rows } => if rows == 0 {
                r matches DumpVerdict::DumpFailed { error } && error@ == no_rows_text(name@)
            } else {
                r == (DumpVerdict::Complete { rows, reload: sets_alive })
            },
            DumpOutcome::Failed(why) => r matches DumpVerdict::TaskFailed { error } && error@ == why@,
            DumpOutcome::Panicked(why) => r matches DumpVerdict::TaskFailed { error } && error@ == "Task panicked: "@
                + why@,
        },
{
    match outcome {
        DumpOutcome::Processed { rows } => if rows == 0 {
            DumpVerdict::DumpFailed {
                error: "dump '".to_owned().concat(name).concat(
                    "' processed 0 rows — possible CSV header/column mismatch",
                ),
            }
        } else {
            DumpVerdict::Complete { rows, reload: sets_alive }
        },
        DumpOutcome::Failed(why) => DumpVerdict::TaskFailed { error: why },
        DumpOutcome::Panicked(why) => DumpVerdict::TaskFailed {
            error: "Task panicked: ".to_owned().concat(why.as_str()),
        },
    }
}

/// Whether what is known of dumps belongs to data that is gone: a dump is complete and no index has
/// bitmaps.
pub fn is_stale(complete: &Vec<bool>, has_bitmaps: bool) -> (r: bool)
    ensures
        r == (!has_bitmaps && complete@.contains(true)),
{
    if has_bitmaps {
        return false;
    }
    let mut i: usize = 0;
    while i < complete.len()
        invariant
            !has_bitmaps,
            i <= complete@.len(),
            forall|j: int| 0 <= j < i ==> !#[trigger] complete@[j],
        decreases complete@.len() - i,
    {
        if complete[i] {
            assert(complete@[i as int]);
            return true;
        }
        i = i + 1;
    }
    false
}

/// How the service starts over.
#[derive(Debug)]
pub struct RedumpPlan {
    /// How long requests that are under way are given.
    pub drain_secs: u64,
    /// The service beside this one that is told.
    pub sidecar_url: String,
}

/// The service beside this one where nobody says.
pub open spec fn default_sidecar() -> Seq<char> {
    "http://127.0.0.1:9192"@
}

/// Lets the service start over with its own index, once at a time.
pub fn plan_redump(
    current: Option<&String>,
    name: &str,
    in_progress: bool,
    drain_secs: Option<u64>,
    asked_url: Option<String>,
    usual_url: Option<String>,
) -> (r: Result<RedumpPlan, Refusal>)
    ensures
        match r {
            Ok(plan) => {
                &&& is_current(current, name@) && !in_progress
                &&& plan.drain_secs == (match drain_secs {
                    Some(secs) => secs,
                    None => 30,
                })
                &&& plan.sidecar_url@ == (match (opt_view(asked_url), opt_view(usual_url)) {
                    (Some(url), _) => url,
                    (None, Some(url)) => url,
                    (None, None) => default_sidecar(),
                })
            },
            Err(e) => if is_current(current, name@) {
                in_progress && e@ == (RefusalView { status: 409, error: "redump already in progress"@ })
            } else {
                e@ == (RefusalView { status: 404, error: "Index '"@ + name@ + "' not loaded"@ })
            },
        },
{
    let loaded = match current {
        Some(there) => text_eq(there.as_str(), name),
        None => false,
    };
    if !loaded {
        return Err(Refusal { status: 404, error: "Index '".to_owned().concat(name).concat("' not loaded") });
    }
    if in_progress {
        return Err(refuse(409, "redump already in progress"));
    }
    let drain_secs = match drain_secs {
        Some(secs) => secs,
        None => 30,
    };
    let sidecar_url = match (asked_url, usual_url) {
        (Some(url), _) => url,
        (None, Some(url)) => url,
        (None, None) => "http://127.0.0.1:9192".to_owned(),
    };
    Ok(RedumpPlan { drain_secs, sidecar_url })
}

/// A text without the slashes at its end.
pub open spec fn without_slashes(s: Seq<char>) -> Seq<char>
    decreases s.len(),
{
    if s.len() > 0 && s.last() == '/' {
        without_slashes(s.drop_last())
    } else {
        s
    }
}

/// Where the service beside this one is told to start anew.
pub fn restart_endpoint(url: &str) -> (r: String)
    ensures
        r@ == without_slashes(url@) + "/internal/restart"@,
{
    let v = to_chars(url);
    let mut end: usize = v.len();
    assert(v@.take(end as int) =~= v@);
    while end > 0 && v[end - 1] == '/'
        invariant
            end <= v@.len(),
            v@ == url@,
            without_slashes(v@.take(end as int)) == without_slashes(url@),
        decreases end,
    {
        assert(v@.take(end as int).drop_last() =~= v@.take(end - 1));
        end = end - 1;
    }
    let base = slice_text(&v, 0, end);
    assert(base@ =~= v@.take(end as int));
    base.concat("/internal/restart")
}

/// A step of wiping what is kept on disk.
#[derive(Debug, Clone, Copy)]
pub enum WipeStep {
    /// A directory of the index.
    IndexDir(&'static str),
    /// A directory of the service.
    ServiceDir(&'static str),
    /// A file of the service.
    ServiceFile(&'static str),
    /// A file of the service that may stay where it cannot be removed.
    Marker(&'static str),
}

impl WipeStep {
    /// The name of what is wiped.
    pub open spec fn target(self) -> Seq<char> {
        match self {
            WipeStep::IndexDir(name) => name@,
            WipeStep::ServiceDir(name) => name@,
            WipeStep::ServiceFile(name) => name@,
            WipeStep::Marker(name) => name@,
        }
    }
}

/// The steps in order: what an index keeps, what the service keeps, what is known of dumps, and the
/// markers last.
pub open spec fn wipe_steps() -> Seq<WipeStep> {
    seq![
        WipeStep::IndexDir("shardstore"),
        WipeStep::IndexDir("docstore"),
        WipeStep::IndexDir("bitmaps"),
        WipeStep::IndexDir("cursors"),
        WipeStep::IndexDir("system"),
        WipeStep::IndexDir("load_stage"),
        WipeStep::ServiceDir("wal"),
        WipeStep::ServiceDir("captures"),
        WipeStep::ServiceFile("dumps.json"),
        WipeStep::Marker(".ready"),
        WipeStep::Marker(".redump_in_progress"),
    ]
}

/// Plans how what is kept on disk is wiped.
pub fn plan_wipe() -> (r: Vec<WipeStep>)
    ensures
        r@ == wipe_steps(),
{
    let mut steps: Vec<WipeStep> = Vec::new();
    steps.push(WipeStep::IndexDir("shardstore"));
    steps.push(WipeStep::IndexDir("docstore"));
    steps.push(WipeStep::IndexDir("bitmaps"));
    steps.push(WipeStep::IndexDir("cursors"));
    steps.push(WipeStep::IndexDir("system"));
    steps.push(WipeStep::IndexDir("load_stage"));
    steps.push(WipeStep::ServiceDir("wal"));
    steps.push(WipeStep::ServiceDir("captures"));
    steps.push(WipeStep::ServiceFile("dumps.json"));
    steps.push(WipeStep::Marker(".ready"));
    steps.push(WipeStep::Marker(".redump_in_progress"));
    steps
}

/// Wiping leaves the configurations alone.
pub proof fn law_configurations_stay(i: int)
    requires
        0 <= i < wipe_steps().len(),
    ensures
        wipe_steps()[i].target() != "config.yaml"@,
        wipe_steps()[i].target() != "ui-config.yaml"@,
{
    reveal_strlit("config.yaml");
    reveal_strlit("ui-config.yaml");
    reveal_strlit("shardstore");
    reveal_strlit("docstore");
    reveal_strlit("bitmaps");
    reveal_strlit("cursors");
    reveal_strlit("system");
    reveal_strlit("load_stage");
    reveal_strlit("wal");
    reveal_strlit("captures");
    reveal_strlit("dumps.json");
    reveal_strlit(".ready");
    reveal_strlit(".redump_in_progress");
    let target = wipe_steps()[i].target();
    assert(target.len() != 11 || target[0] != 'c');
    assert(target.len() != 14 || target[0] != 'u');
}

/// Nothing is removed after the markers, and the one that tells of the work is the last.
pub proof fn law_the_markers_go_last(i: int)
    requires
        0 <= i < wipe_steps().len(),
    ensures
        wipe_steps()[i] is Marker <==> i >= wipe_steps().len() - 2,
        wipe_steps().last().target() == ".redump_in_progress"@,
{
}

/// Slashes at the end of an address do not count.
pub proof fn law_trailing_slashes_do_not_count(url: Seq<char>)
    ensures
        without_slashes(url.push('/')) == without_slashes(url),
        url.len() == 0 || url.last() != '/' ==> without_slashes(url) == url,
{
    assert(url.push('/').drop_last() =~= url);
}

/// Wiping takes everything that is built from a dump: what an index keeps, the log, the captures, what
/// is known of dumps, and both markers.
pub proof fn law_everything_from_a_dump_goes()
    ensures
        wipe_steps().contains(WipeStep::IndexDir("shardstore")),
        wipe_steps().contains(WipeStep::IndexDir("docstore")),
        wipe_steps().contains(WipeStep::IndexDir("bitmaps")),
        wipe_steps().contains(WipeStep::IndexDir("cursors")),
        wipe_steps().contains(WipeStep::IndexDir("system")),
        wipe_steps().contains(WipeStep::IndexDir("load_stage")),
        wipe_steps().contains(WipeStep::ServiceDir("wal")),
        wipe_steps().contains(WipeStep::ServiceDir("captures")),
        wipe_steps().contains(WipeStep::ServiceFile("dumps.json")),
        wipe_steps().contains(WipeStep::Marker(".ready")),
        wipe_steps().contains(WipeStep::Marker(".redump_in_progress")),
        wipe_steps().len() == 11,
{
    let steps = wipe_steps();
    assert(steps[0] == WipeStep::IndexDir("shardstore"));
    assert(steps[1] == WipeStep::IndexDir("docstore"));
    assert(steps[2] == WipeStep::IndexDir("bitmaps"));
    assert(steps[3] == WipeStep::IndexDir("cursors"));
    assert(steps[4] == WipeStep::IndexDir("system"));
    assert(steps[5] == WipeStep::IndexDir("load_stage"));
    assert(steps[6] == WipeStep::ServiceDir("wal"));
    assert(steps[7] == WipeStep::ServiceDir("captures"));
    assert(steps[8] == WipeStep::ServiceFile("dumps.json"));
    assert(steps[9] == WipeStep::Marker(".ready"));
    assert(steps[10] == WipeStep::Marker(".redump_in_progress"));
}

/// Where nobody says which, the service beside this one is looked for on this machine.
pub proof fn law_the_usual_sidecar_is_on_this_machine()
    ensures
        default_sidecar() == "http://127.0.0.1:9192"@,
{
}

} // verus!
