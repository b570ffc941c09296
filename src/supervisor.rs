//! Per-camera reconnect supervision: attempt counting, the backoff schedule,
//! and the status and error events each step emits. The caller runs the
//! worker and the sleeps; this module decides.
use vstd::prelude::*;
use vstd::string::*;
use vstd::arithmetic::power2::{pow2, lemma2_to64};
use crate::text::{chars_of, contains_chars, contains_seq, decimal, decimal_string};

verus! {

/// From this attempt on, a failed attempt is reported as a stream error.
pub const ERROR_REPORT_ATTEMPT: u32 = 3;

/// Seconds to wait after attempt `attempt`: 1, 2, 4, 8, 16 for attempts 1 to
/// 5, one minute for attempts 6 to 10, five minutes from then on.
pub open spec fn backoff_secs(attempt: int) -> u64 {
    if 1 <= attempt <= 5 {
        pow2((attempt - 1) as nat) as u64
    } else if 6 <= attempt <= 10 {
        60
    } else {
        300
    }
}

/// Seconds to wait before the attempt after `attempt`; never gives up.
pub fn calculate_backoff(attempt: u32) -> (r: u64)
    ensures
        r == backoff_secs(attempt as int),
{
    proof {
        lemma2_to64();
    }
    if attempt == 1 {
        1
    } else if attempt == 2 {
        2
    } else if attempt == 3 {
        4
    } else if attempt == 4 {
        8
    } else if attempt == 5 {
        16
    } else if 6 <= attempt && attempt <= 10 {
        60
    } else {
        300
    }
}

/// The status shown while waiting after attempt `attempt`: the wait in
/// minutes once it is a minute or more, else the attempt number.
pub open spec fn reconnect_status(attempt: int) -> Seq<char> {
    let wait = backoff_secs(attempt);
    if wait >= 60 {
        "reconnecting ("@ + decimal((wait / 60) as nat) + "m wait)"@
    } else {
        "reconnecting (attempt "@ + decimal(attempt as nat) + ")"@
    }
}

/// The text of the stream error reported after a failed attempt.
pub open spec fn failure_text(attempt: int, reason: Seq<char>) -> Seq<char> {
    "Stream failed (attempt "@ + decimal(attempt as nat) + "): "@ + reason
}

/// What an event tells the user interface.
pub enum EventKind {
    /// A `camera-status` record.
    Status(String),
    /// A `stream-error` record.
    StreamError(String),
}

pub enum EventKindView {
    Status(Seq<char>),
    StreamError(Seq<char>),
}

impl View for EventKind {
    type V = EventKindView;

    open spec fn view(&self) -> EventKindView {
        match self {
            EventKind::Status(s) => EventKindView::Status(s@),
            EventKind::StreamError(s) => EventKindView::StreamError(s@),
        }
    }
}

/// An event for the user interface, tagged with its camera.
pub struct CameraEvent {
    pub camera_id: String,
    pub kind: EventKind,
}

impl View for CameraEvent {
    type V = (Seq<char>, EventKindView);

    open spec fn view(&self) -> (Seq<char>, EventKindView) {
        (self.camera_id@, self.kind@)
    }
}

pub open spec fn events_view(es: Seq<CameraEvent>) -> Seq<(Seq<char>, EventKindView)> {
    es.map_values(|e: CameraEvent| e@)
}

/// How a worker attempt ended.
pub enum AttemptOutcome {
    /// The worker's output ended cleanly after `frames` frames.
    Ended { frames: u64 },
    /// The attempt failed (spawn failure, read timeout, read error) for `reason`.
    Failed(String),
}

pub enum OutcomeView {
    Ended(u64),
    Failed(Seq<char>),
}

impl View for AttemptOutcome {
    type V = OutcomeView;

    open spec fn view(&self) -> OutcomeView {
        match self {
            AttemptOutcome::Ended { frames } => OutcomeView::Ended(*frames),
            AttemptOutcome::Failed(r) => OutcomeView::Failed(r@),
        }
    }
}

/// The supervisor of one camera: its id, its reconnect counter (reset only
/// when an attempt produces its first unit), the number of the current
/// attempt, and whether that attempt has come online.
pub struct SupervisorView {
    pub camera_id: Seq<char>,
    pub counter: u32,
    pub attempt: u32,
    pub online: bool,
}

/// Entering `connecting`: the counter goes up by one and numbers the attempt.
pub open spec fn begin_spec(s: SupervisorView) -> SupervisorView {
    let n = if s.counter == u32::MAX {
        u32::MAX
    } else {
        (s.counter + 1) as u32
    };
    SupervisorView { counter: n, attempt: n, online: false, ..s }
}

/// The first unit of an attempt: the counter resets and the camera is online.
pub open spec fn online_spec(s: SupervisorView) -> SupervisorView {
    SupervisorView { counter: 0, online: true, ..s }
}

/// Ending an attempt, however it ends, leaves the counter as it is; the
/// camera is no longer online.
pub open spec fn end_spec(s: SupervisorView, o: OutcomeView) -> SupervisorView {
    SupervisorView { online: false, ..s }
}

/// Whether the end of an attempt reports the camera `offline`: an attempt
/// that came online always does, and so does a clean end without any frame.
pub open spec fn ends_offline(s: SupervisorView, o: OutcomeView) -> bool {
    s.online || o == OutcomeView::Ended(0)
}

/// The events at the end of an attempt: `offline` as [`ends_offline`] says,
/// a stream error for a failure from attempt [`ERROR_REPORT_ATTEMPT`] on,
/// then the reconnecting status.
pub open spec fn end_events(s: SupervisorView, o: OutcomeView) -> Seq<(Seq<char>, EventKindView)> {
    let offline: Seq<(Seq<char>, EventKindView)> = if ends_offline(s, o) {
        seq![(s.camera_id, EventKindView::Status("offline"@))]
    } else {
        seq![]
    };
    let error: Seq<(Seq<char>, EventKindView)> = match o {
        OutcomeView::Failed(reason) => if s.attempt >= ERROR_REPORT_ATTEMPT {
            seq![(s.camera_id, EventKindView::StreamError(failure_text(s.attempt as int, reason)))]
        } else {
            seq![]
        },
        OutcomeView::Ended(_) => seq![],
    };
    offline + error + seq![(s.camera_id, EventKindView::Status(reconnect_status(s.attempt as int)))]
}

/// What to do after an attempt: emit `events` in order, then wait `wait_secs`
/// seconds before the next attempt.
pub struct Retry {
    pub events: Vec<CameraEvent>,
    pub wait_secs: u64,
}

/// The reconnect state machine of one camera.
pub struct Supervisor {
    camera_id: String,
    counter: u32,
    attempt: u32,
    online: bool,
}

impl View for Supervisor {
    type V = SupervisorView;

    closed spec fn view(&self) -> SupervisorView {
        SupervisorView {
            camera_id: self.camera_id@,
            counter: self.counter,
            attempt: self.attempt,
            online: self.online,
        }
    }
}

fn event(camera_id: &String, kind: EventKind) -> (e: CameraEvent)
    ensures
        e@ == (camera_id@, kind@),
{
    CameraEvent { camera_id: camera_id.clone(), kind }
}

fn status_event(camera_id: &String, status: &str) -> (e: CameraEvent)
    ensures
        e@ == (camera_id@, EventKindView::Status(status@)),
{
    event(camera_id, EventKind::Status(String::from_str(status)))
}

/// Builds the reconnecting status text for `attempt`.
fn reconnect_status_text(attempt: u32, wait: u64) -> (r: String)
    requires
        wait == backoff_secs(attempt as int),
    ensures
        r@ == reconnect_status(attempt as int),
{
    if wait >= 60 {
        let mut s = String::from_str("reconnecting (");
        s.append(decimal_string(wait / 60).as_str());
        s.append("m wait)");
        s
    } else {
        let mut s = String::from_str("reconnecting (attempt ");
        s.append(decimal_string(attempt as u64).as_str());
        s.append(")");
        s
    }
}

impl Supervisor {
    /// The supervisor of camera `camera_id`, before its first attempt.
    pub fn new(camera_id: String) -> (r: Self)
        ensures
            r@ == (SupervisorView { camera_id: camera_id@, counter: 0, attempt: 0, online: false }),
    {
        Supervisor { camera_id, counter: 0, attempt: 0, online: false }
    }

    pub fn camera_id(&self) -> (r: &String)
        ensures
            r@ == self@.camera_id,
    {
        &self.camera_id
    }

    /// The reconnect counter.
    pub fn counter(&self) -> (r: u32)
        ensures
            r == self@.counter,
    {
        self.counter
    }

    /// The number of the current attempt.
    pub fn attempt(&self) -> (r: u32)
        ensures
            r == self@.attempt,
    {
        self.attempt
    }

    /// Starts an attempt and returns its `connecting` status.
    pub fn begin_attempt(&mut self) -> (e: CameraEvent)
        ensures
            final(self)@ == begin_spec(old(self)@),
            e@ == (old(self)@.camera_id, EventKindView::Status("connecting"@)),
    {
        let n = self.counter.saturating_add(1);
        self.counter = n;
        self.attempt = n;
        self.online = false;
        status_event(&self.camera_id, "connecting")
    }

    /// The worker produced its first unit: the counter resets and the camera
    /// is `online`.
    pub fn went_online(&mut self) -> (e: CameraEvent)
        ensures
            final(self)@ == online_spec(old(self)@),
            e@ == (old(self)@.camera_id, EventKindView::Status("online"@)),
    {
        self.counter = 0;
        self.online = true;
        status_event(&self.camera_id, "online")
    }

    /// Ends the current attempt and says what to emit and how long to wait.
    /// Every event is tagged with this camera's id.
    pub fn end_attempt(&mut self, outcome: &AttemptOutcome) -> (r: Retry)
        ensures
            final(self)@ == end_spec(old(self)@, outcome@),
            r.wait_secs == backoff_secs(old(self)@.attempt as int),
            events_view(r.events@) == end_events(old(self)@, outcome@),
            forall|i: int|
                0 <= i < r.events@.len() ==> r.events@[i].camera_id@ == old(self)@.camera_id,
    {
        let ghost s0 = self@;
        let attempt = self.attempt;
        let mut events: Vec<CameraEvent> = Vec::new();
        let clean_without_frames = match outcome {
            AttemptOutcome::Ended { frames } => *frames == 0,
            AttemptOutcome::Failed(_) => false,
        };
        if self.online || clean_without_frames {
            events.push(status_event(&self.camera_id, "offline"));
        }
        self.online = false;
        match outcome {
            AttemptOutcome::Ended { .. } => {},
            AttemptOutcome::Failed(reason) => {
                if attempt >= ERROR_REPORT_ATTEMPT {
                    let mut text = String::from_str("Stream failed (attempt ");
                    text.append(decimal_string(attempt as u64).as_str());
                    text.append("): ");
                    text.append(reason.as_str());
                    events.push(event(&self.camera_id, EventKind::StreamError(text)));
                }
            },
        }
        let wait = calculate_backoff(attempt);
        let status = reconnect_status_text(attempt, wait);
        events.push(event(&self.camera_id, EventKind::Status(status)));
        assert(events_view(events@) =~= end_events(s0, outcome@));
        Retry { events, wait_secs: wait }
    }
}

/// The `offline` status of each camera in `ids`, in order: what stopping the
/// engine reports.
pub fn offline_events(ids: Vec<String>) -> (r: Vec<CameraEvent>)
    ensures
        events_view(r@) == ids@.map_values(
            |id: String| (id@, EventKindView::Status("offline"@)),
        ),
{
    let ghost idv = ids@;
    let mut out: Vec<CameraEvent> = Vec::new();
    let mut i: usize = 0;
    while i < ids.len()
        invariant
            idv == ids@,
            i <= ids@.len(),
            events_view(out@) =~= ids@.subrange(0, i as int).map_values(
                |id: String| (id@, EventKindView::Status("offline"@)),
            ),
        decreases ids@.len() - i,
    {
        let ghost before = out@;
        let e = status_event(&ids[i], "offline");
        out.push(e);
        proof {
            assert(events_view(out@) =~= events_view(before).push(e@));
            assert(ids@.subrange(0, i + 1) =~= ids@.subrange(0, i as int).push(ids@[i as int]));
        }
        i = i + 1;
    }
    assert(ids@.subrange(0, ids@.len() as int) =~= ids@);
    out
}

/// A worker diagnostic line that is expected noise while joining a stream
/// before its first keyframe: missing parameter sets, no frame yet, or a
/// repetition notice.
pub open spec fn is_startup_noise_spec(line: Seq<char>) -> bool {
    contains_seq(line, "non-existing PPS"@) || contains_seq(line, "non-existing SPS"@)
        || contains_seq(line, "no frame"@) || contains_seq(line, "Last message repeated"@)
}

/// Whether the worker diagnostic `line` is startup noise, as
/// [`is_startup_noise_spec`] says.
pub fn is_startup_noise(line: &str) -> (r: bool)
    ensures
        r == is_startup_noise_spec(line@),
{
    let cs = chars_of(line);
    contains_chars(&cs, "non-existing PPS") || contains_chars(&cs, "non-existing SPS")
        || contains_chars(&cs, "no frame") || contains_chars(&cs, "Last message repeated")
}

/// A run of attempts that produce no unit, ending as `os` says: the state
/// after them, and for each attempt its number and the wait that follows it.
pub open spec fn run_attempts(s: SupervisorView, os: Seq<OutcomeView>) -> (
    SupervisorView,
    Seq<(u32, u64)>,
)
    decreases os.len(),
{
    if os.len() == 0 {
        (s, seq![])
    } else {
        let p = run_attempts(s, os.drop_last());
        let b = begin_spec(p.0);
        (end_spec(b, os.last()), p.1.push((b.attempt, backoff_secs(b.attempt as int))))
    }
}

/// Attempts that produce no unit, however they end, are numbered one higher
/// each time, counting on from the reconnect counter, and the wait after each
/// follows the schedule of [`backoff_secs`]; nothing resets the counter.
pub proof fn lemma_failed_attempts_count_up(s: SupervisorView, os: Seq<OutcomeView>)
    requires
        s.counter + os.len() <= u32::MAX,
    ensures
        run_attempts(s, os).1.len() == os.len(),
        run_attempts(s, os).0.counter == s.counter + os.len(),
        run_attempts(s, os).0.camera_id == s.camera_id,
        forall|i: int|
            0 <= i < os.len() ==> run_attempts(s, os).1[i] == (
                (s.counter + i + 1) as u32,
                backoff_secs(s.counter + i + 1),
            ),
    decreases os.len(),
{
    if os.len() > 0 {
        lemma_failed_attempts_count_up(s, os.drop_last());
    }
}

/// The schedule in numbers: 1, 2, 4, 8 and 16 seconds for attempts 1 to 5,
/// 60 seconds for attempts 6 to 10, 300 seconds after that.
pub proof fn lemma_backoff_schedule(n: int)
    ensures
        n == 1 ==> backoff_secs(n) == 1,
        n == 2 ==> backoff_secs(n) == 2,
        n == 3 ==> backoff_secs(n) == 4,
        n == 4 ==> backoff_secs(n) == 8,
        n == 5 ==> backoff_secs(n) == 16,
        6 <= n <= 10 ==> backoff_secs(n) == 60,
        n >= 11 ==> backoff_secs(n) == 300,
        1 <= n <= 4 ==> backoff_secs(n + 1) == 2 * backoff_secs(n),
{
    lemma2_to64();
}

} // verus!
