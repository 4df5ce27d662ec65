//! Decisions of the upload queue: which line an attempt uses, how the line
//! is reached, how much is sent per progress report, and which waiting
//! tasks start.
use crate::config::{copy_opt_string, ConfigRoot, VideoInfo};
use crate::error::AppError;
use crate::text::{chars_of, str_eq, string_of};
use vstd::prelude::*;

verus! {

/// The upload lines, in the order in which retries go through them.
pub open spec fn line_names() -> Seq<Seq<char>> {
    seq!["auto"@, "bda2"@, "bldsa"@, "tx"@, "txa"@, "alia"@, "cnbd"@, "atbd"@]
}

/// The line of an attempt: the configured line on the first attempt, else
/// the line at `retry_count` (cyclically) in `line_names`, so that retries
/// move away from a failing line.
pub open spec fn line_for(configured: Option<Seq<char>>, retry_count: u32) -> Seq<char> {
    match configured {
        Some(c) => if retry_count == 0 {
            c
        } else {
            line_names()[retry_count as int % 8]
        },
        None => line_names()[retry_count as int % 8],
    }
}

fn line_at(i: u32) -> (r: String)
    requires
        i < 8,
    ensures
        r@ == line_names()[i as int],
{
    proof {
        reveal_strlit("auto");
        reveal_strlit("bda2");
        reveal_strlit("bldsa");
        reveal_strlit("tx");
        reveal_strlit("txa");
        reveal_strlit("alia");
        reveal_strlit("cnbd");
        reveal_strlit("atbd");
    }
    let s = if i == 0 {
        "auto"
    } else if i == 1 {
        "bda2"
    } else if i == 2 {
        "bldsa"
    } else if i == 3 {
        "tx"
    } else if i == 4 {
        "txa"
    } else if i == 5 {
        "alia"
    } else if i == 6 {
        "cnbd"
    } else {
        "atbd"
    };
    s.to_string()
}

/// The line an upload attempt uses (see `line_for`).
pub fn select_line(configured: Option<&str>, retry_count: u32) -> (r: String)
    ensures
        r@ == line_for(
            match configured {
                Some(c) => Some(c@),
                None => None,
            },
            retry_count,
        ),
{
    match configured {
        Some(c) => if retry_count == 0 {
            string_of(chars_of(c).as_slice())
        } else {
            line_at(retry_count % 8)
        },
        None => line_at(retry_count % 8),
    }
}

/// How an upload line is reached: one of the fixed lines, or the line
/// that answers best when probed.
#[derive(Debug, Clone, Copy, PartialEq, Eq, Structural)]
pub enum LineProbe {
    Bda2,
    Bldsa,
    Tx,
    Txa,
    Alia,
    Probe,
}

/// The probe of a line name: `bda2` (also written `bda`), `bldsa`, `tx`,
/// `txa` and `alia` are fixed lines; any other name is probed.
pub open spec fn probe_of(line: Seq<char>) -> LineProbe {
    if line == "bda2"@ || line == "bda"@ {
        LineProbe::Bda2
    } else if line == "bldsa"@ {
        LineProbe::Bldsa
    } else if line == "tx"@ {
        LineProbe::Tx
    } else if line == "txa"@ {
        LineProbe::Txa
    } else if line == "alia"@ {
        LineProbe::Alia
    } else {
        LineProbe::Probe
    }
}

/// The probe of a line name (see `probe_of`).
pub fn probe_for_line(line: &str) -> (r: LineProbe)
    ensures
        r == probe_of(line@),
{
    if str_eq(line, "bda2") || str_eq(line, "bda") {
        LineProbe::Bda2
    } else if str_eq(line, "bldsa") {
        LineProbe::Bldsa
    } else if str_eq(line, "tx") {
        LineProbe::Tx
    } else if str_eq(line, "txa") {
        LineProbe::Txa
    } else if str_eq(line, "alia") {
        LineProbe::Alia
    } else {
        LineProbe::Probe
    }
}

/// The most sent between two progress reports: 1 MiB.
pub const PIECE: usize = 1048576;

/// How much of a chunk to send next when `remaining` bytes are left: all
/// of it below 1 MiB, else 1 MiB; 0 when the chunk is done.
pub open spec fn next_piece(remaining: nat) -> nat {
    if remaining < PIECE {
        remaining
    } else {
        PIECE as nat
    }
}

/// How much of a chunk to send next (see `next_piece`).
pub fn piece_len(remaining: usize) -> (n: usize)
    ensures
        n == next_piece(remaining as nat),
{
    if remaining < PIECE {
        remaining
    } else {
        PIECE
    }
}

/// The pieces in which a chunk of `n` bytes is sent, taking `next_piece`
/// until nothing is left.
pub open spec fn pieces(n: nat) -> Seq<nat>
    decreases n,
{
    if n == 0 {
        Seq::<nat>::empty()
    } else {
        seq![next_piece(n)] + pieces((n - next_piece(n)) as nat)
    }
}

pub open spec fn total(s: Seq<nat>) -> nat
    decreases s.len(),
{
    if s.len() == 0 {
        0
    } else {
        s[0] + total(s.subrange(1, s.len() as int))
    }
}

/// A chunk is sent whole, in `ceil(n / 1 MiB)` pieces of 1 to 1 MiB bytes.
pub proof fn law_pieces_cover_chunk(n: nat)
    ensures
        total(pieces(n)) == n,
        forall|i: int| 0 <= i < pieces(n).len() ==> 0 < #[trigger] pieces(n)[i] <= PIECE,
        pieces(n).len() * PIECE >= n,
        n > 0 ==> (pieces(n).len() - 1) * PIECE < n,
    decreases n,
{
    if n > 0 {
        let k = next_piece(n);
        let rest = (n - k) as nat;
        law_pieces_cover_chunk(rest);
        let p = pieces(n);
        assert(p.subrange(1, p.len() as int) =~= pieces(rest));
        assert forall|i: int| 0 <= i < p.len() implies 0 < #[trigger] p[i] <= PIECE by {
            if i > 0 {
                assert(p[i] == pieces(rest)[i - 1]);
            }
        }
    }
}

/// The tasks that may start: waiting for a slot and not already running.
pub open spec fn startable(pending: Seq<bool>, running: Seq<bool>) -> Seq<int>
    decreases pending.len(),
{
    if pending.len() == 0 {
        Seq::<int>::empty()
    } else {
        let i = pending.len() - 1;
        let p = startable(pending.drop_last(), running.subrange(0, i));
        if pending[i] && !(i < running.len() && running[i]) {
            p.push(i)
        } else {
            p
        }
    }
}

/// The free slots: the limit less what runs, never below 0.
pub open spec fn free_slots(current: u32, max: u32) -> int {
    if max > current {
        max - current
    } else {
        0
    }
}

/// The tasks (by position in the queue) to start now: the first startable
/// ones, as many as there are free slots.
pub open spec fn to_start(pending: Seq<bool>, running: Seq<bool>, current: u32, max: u32) -> Seq<int> {
    let s = startable(pending, running);
    if s.len() <= free_slots(current, max) {
        s
    } else {
        s.subrange(0, free_slots(current, max))
    }
}

proof fn lemma_startable_prefix(pending: Seq<bool>, running: Seq<bool>, k: int)
    requires
        0 <= k <= pending.len(),
        pending.len() == running.len(),
    ensures
        startable(pending.subrange(0, k), running.subrange(0, k)).len() <= startable(
            pending,
            running,
        ).len(),
        startable(pending.subrange(0, k), running.subrange(0, k)) == startable(
            pending,
            running,
        ).subrange(0, startable(pending.subrange(0, k), running.subrange(0, k)).len() as int),
    decreases pending.len() - k,
{
    if k == pending.len() {
        assert(pending.subrange(0, k) =~= pending);
        assert(running.subrange(0, k) =~= running);
        let s = startable(pending, running);
        assert(s.subrange(0, s.len() as int) =~= s);
    } else {
        lemma_startable_prefix(pending, running, k + 1);
        let p1 = pending.subrange(0, k + 1);
        let r1 = running.subrange(0, k + 1);
        assert(p1.drop_last() =~= pending.subrange(0, k));
        assert(r1.subrange(0, k) =~= running.subrange(0, k));
    }
}

/// The positions of the tasks to start (see `to_start`): `pending[i]` says
/// that task `i` waits for a slot, `running[i]` that it already has one;
/// `current` tasks run, at most `max` may.
pub fn tasks_to_start(pending: &Vec<bool>, running: &Vec<bool>, current: u32, max: u32) -> (r: Vec<
    usize,
>)
    requires
        pending@.len() == running@.len(),
    ensures
        r@.map_values(|i: usize| i as int) == to_start(pending@, running@, current, max),
{
    let remain0: u32 = if max > current {
        max - current
    } else {
        0
    };
    let mut remain = remain0;
    let mut r: Vec<usize> = Vec::new();
    if remain == 0 {
        assert(r@.map_values(|i: usize| i as int) =~= to_start(pending@, running@, current, max));
        return r;
    }
    let mut i: usize = 0;
    while i < pending.len()
        invariant
            pending@.len() == running@.len(),
            i <= pending@.len(),
            remain0 == free_slots(current, max),
            remain0 > 0,
            r@.len() + remain == remain0,
            remain > 0,
            r@.map_values(|k: usize| k as int) == startable(
                pending@.subrange(0, i as int),
                running@.subrange(0, i as int),
            ),
        decreases pending@.len() - i,
    {
        let ghost before = r@.map_values(|k: usize| k as int);
        assert(pending@.subrange(0, i + 1).drop_last() =~= pending@.subrange(0, i as int));
        assert(running@.subrange(0, i + 1).subrange(0, i as int) =~= running@.subrange(0, i as int));
        if pending[i] && !running[i] {
            r.push(i);
            remain = remain - 1;
            assert(r@.map_values(|k: usize| k as int) =~= before.push(i as int));
            if remain == 0 {
                proof {
                    lemma_startable_prefix(pending@, running@, i + 1);
                }
                assert(r@.map_values(|k: usize| k as int) =~= to_start(
                    pending@,
                    running@,
                    current,
                    max,
                ));
                return r;
            }
        }
        i = i + 1;
    }
    assert(pending@.subrange(0, pending@.len() as int) =~= pending@);
    assert(running@.subrange(0, running@.len() as int) =~= running@);
    r
}

/// Starting what `to_start` names never runs more tasks than allowed, and
/// starts only tasks that wait and do not run yet.
pub proof fn law_start_within_limit(pending: Seq<bool>, running: Seq<bool>, current: u32, max: u32)
    requires
        pending.len() == running.len(),
        current <= max,
    ensures
        current + to_start(pending, running, current, max).len() <= max,
        forall|k: int|
            0 <= k < to_start(pending, running, current, max).len() ==> {
                let i = #[trigger] to_start(pending, running, current, max)[k];
                0 <= i < pending.len() && pending[i] && !running[i]
            },
{
    lemma_startable_members(pending, running);
}

pub(crate) proof fn lemma_startable_members(pending: Seq<bool>, running: Seq<bool>)
    requires
        pending.len() == running.len(),
    ensures
        forall|k: int|
            0 <= k < startable(pending, running).len() ==> {
                let i = #[trigger] startable(pending, running)[k];
                0 <= i < pending.len() && pending[i] && !running[i]
            },
    decreases pending.len(),
{
    if pending.len() > 0 {
        let n = pending.len() - 1;
        let pd = pending.drop_last();
        let rd = running.subrange(0, n);
        lemma_startable_members(pd, rd);
        let p = startable(pd, rd);
        assert forall|k: int| 0 <= k < startable(pending, running).len() implies {
            let i = #[trigger] startable(pending, running)[k];
            0 <= i < pending.len() && pending[i] && !running[i]
        } by {
            if k < p.len() {
                let i = p[k];
                assert(pd[i] == pending[i]);
                assert(rd[i] == running[i]);
            }
        }
    }
}

/// The state of an upload task.
#[derive(Debug, Clone, Copy, PartialEq, Eq, Structural)]
pub enum TaskStatus {
    Waiting,
    Pending,
    Running,
    Paused,
    Completed,
    Failed,
    Cancelled,
}

/// What asking a task to start does: a running or finished task is left
/// alone; a paused, failed or waiting task is queued for a slot (pending);
/// the answer says whether it was queued.
pub open spec fn start_request(status: TaskStatus) -> (bool, TaskStatus) {
    match status {
        TaskStatus::Running | TaskStatus::Completed => (false, status),
        TaskStatus::Paused | TaskStatus::Failed | TaskStatus::Waiting => (true, TaskStatus::Pending),
        _ => (false, status),
    }
}

/// Asks a task to start (see `start_request`).
pub fn start_task(status: &mut TaskStatus) -> (queued: bool)
    ensures
        (queued, *final(status)) == start_request(*old(status)),
{
    match *status {
        TaskStatus::Running | TaskStatus::Completed => false,
        TaskStatus::Paused | TaskStatus::Failed | TaskStatus::Waiting => {
            *status = TaskStatus::Pending;
            true
        },
        _ => false,
    }
}

/// What the upload loop does after looking at its task's status.
pub enum PauseStep {
    /// The task is paused: wait a moment and look again.
    Wait,
    /// The task was cancelled while paused: the upload ends, without error.
    Stop,
    /// The pause is over: the task runs again.
    Resume,
    /// Nothing changed: the upload goes on.
    Go,
}

/// The upload loop's memory of a pause.
pub struct UploadRun {
    /// The task has been seen paused since the upload last went on.
    pub paused: bool,
}

impl UploadRun {
    pub fn new() -> (r: Self)
        ensures
            !r.paused,
    {
        UploadRun { paused: false }
    }

    /// Looks at the task's status before the upload goes on: a paused task
    /// waits (and the pause is remembered); after a pause, a cancelled task
    /// stops and any other runs again; otherwise the upload goes on.
    pub fn check(&mut self, status: &mut TaskStatus) -> (r: PauseStep)
        ensures
            *old(status) == TaskStatus::Paused ==> r is Wait && final(self).paused && *final(status)
                == *old(status),
            *old(status) != TaskStatus::Paused && old(self).paused ==> !final(self).paused && (if *old(
                status,
            ) == TaskStatus::Cancelled {
                r is Stop && *final(status) == *old(status)
            } else {
                r is Resume && *final(status) == TaskStatus::Running
            }),
            *old(status) != TaskStatus::Paused && !old(self).paused ==> r is Go && !final(self).paused
                && *final(status) == *old(status),
    {
        if *status == TaskStatus::Paused {
            self.paused = true;
            return PauseStep::Wait;
        }
        if self.paused {
            self.paused = false;
            if *status == TaskStatus::Cancelled {
                return PauseStep::Stop;
            }
            *status = TaskStatus::Running;
            return PauseStep::Resume;
        }
        PauseStep::Go
    }
}

pub open spec fn upload_failed_message(e: Seq<char>) -> Seq<char> {
    "上传任务失败: "@ + e
}

/// `new` is `old` with the file name `filename` kept and the local path
/// cleared, everything else as it was.
pub open spec fn video_uploaded(new: VideoInfo, old: VideoInfo, filename: String) -> bool {
    &&& new.filename == filename
    &&& new.path@.len() == 0
    &&& new.id == old.id
    &&& new.cid == old.cid
    &&& new.title == old.title
    &&& new.desc == old.desc
    &&& new.finished_at == old.finished_at
    &&& new.encoding_status == old.encoding_status
    &&& new.status_desc == old.status_desc
}

/// The end of an upload (`result`: the file name the platform gave the
/// video, or the failure's text): on success the video keeps that file
/// name, its local path is cleared and the task is completed; a failure is
/// the upload's error, and nothing changes.
pub fn finish_upload(video: &mut VideoInfo, status: &mut TaskStatus, result: Result<String, String>) -> (r:
    Result<(), AppError>)
    ensures
        match result {
            Ok(f) => r is Ok && video_uploaded(*final(video), *old(video), f) && *final(status)
                == TaskStatus::Completed,
            Err(e) => (r matches Err(AppError::Custom(m)) && m@ == upload_failed_message(e@))
                && *final(video) == *old(video) && *final(status) == *old(status),
        },
{
    match result {
        Ok(f) => {
            video.filename = f;
            video.path = String::new();
            *status = TaskStatus::Completed;
            Ok(())
        },
        Err(e) => {
            proof {
                reveal_strlit("上传任务失败: ");
            }
            Err(AppError::Custom(crate::text::concat2("上传任务失败: ", e.as_str())))
        },
    }
}

pub open spec fn not_logged_in_message() -> Seq<char> {
    "用户未登录或不存在"@
}

/// The upload settings of user `uid`: line, proxy and concurrency limit;
/// an error when the user has no settings (is not logged in).
pub fn upload_settings(config: &ConfigRoot, uid: u64) -> (r: Result<
    (Option<String>, Option<String>, u32),
    AppError,
>)
    ensures
        match r {
            Ok((line, proxy, limit)) => config.config@.contains_key(uid) && {
                let u = config.config@[uid];
                &&& line == u.line
                &&& proxy == u.proxy
                &&& limit == u.limit
            },
            Err(e) => !config.config@.contains_key(uid) && (e matches AppError::Custom(m) && m@
                == not_logged_in_message()),
        },
{
    match config.config.get(&uid) {
        Some(u) => Ok((copy_opt_string(&u.line), copy_opt_string(&u.proxy), u.limit)),
        None => {
            proof {
                reveal_strlit("用户未登录或不存在");
            }
            Err(AppError::Custom("用户未登录或不存在".to_string()))
        },
    }
}

} // verus!
