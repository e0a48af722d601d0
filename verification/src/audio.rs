//! The decisions of the audio capture worker: when to open the capture, when
//! to keep it warm without demand and when to close it, how long to back off
//! after a failure, and which state the service reports. Time is counted in
//! milliseconds on a monotonic clock that the caller reads.

use vstd::prelude::*;

verus! {

/// How long a capture is kept open without demand, unless told otherwise.
pub const DEFAULT_IDLE_TIMEOUT_MS: u64 = 30000;

/// How long the worker waits for a command while there is demand.
pub const ACTIVE_POLL_INTERVAL_MS: u64 = 5;

/// The longest the worker waits for a command without demand.
pub const INACTIVE_POLL_INTERVAL_MS: u64 = 100;

/// The first delay before opening the capture again after a failure.
pub const INITIAL_BACKOFF_MS: u64 = 1000;

/// The longest delay between attempts to open the capture.
pub const MAX_BACKOFF_MS: u64 = 30000;

/// The state that the audio service reports.
#[derive(Debug, Clone, Copy, PartialEq, Eq, Structural)]
pub enum AudioServiceState {
    Closed,
    Starting,
    Active,
    WarmIdle,
    Backoff,
    Stopping,
}

/// What became of an attempt to open the capture.
#[derive(Debug, Clone, Copy, PartialEq, Eq, Structural)]
pub enum OpenResult {
    /// The capture is open.
    Opened,
    /// The audio library or one of its symbols is missing: trying again
    /// cannot help until demand goes away and comes back.
    Unavailable,
    /// Any other failure: try again after the backoff.
    Failed,
}

/// What the worker does after it woke up and handled a command, if any.
#[derive(Debug, Clone, Copy, PartialEq, Eq, Structural)]
pub enum WakeAction {
    /// No demand; when `close` is set the idle time ran out, so the capture
    /// is closed and the service reports `Closed`.
    Idle { close: bool },
    /// Report `Starting` and try to open the capture, then hand the result
    /// to [`AudioWorker::on_open_result`].
    Open,
    /// Read from the open capture.
    Read,
    /// Demand, but no capture and no attempt due yet.
    Wait,
}

/// What a change of demand asks of the worker.
#[derive(Debug, Clone, Copy, PartialEq, Eq, Structural)]
pub struct DemandOutcome {
    /// Whether demand changed at all; if not, nothing else happens.
    pub changed: bool,
    /// Discard what the open capture buffered and restart the analysis.
    pub reset_capture: bool,
    /// The state to report, if any.
    pub report: Option<AudioServiceState>,
}

/// The worker's own state: demand, whether a capture is open, and the
/// deadlines it waits for.
#[derive(Debug, Clone, Copy, PartialEq, Eq, Structural)]
pub struct AudioWorker {
    pub demand: bool,
    pub backend_open: bool,
    pub idle_deadline_ms: Option<u64>,
    pub retry_deadline_ms: Option<u64>,
    pub backoff_ms: u64,
    pub unavailable_latched: bool,
    pub idle_timeout_ms: u64,
}

/// The backoff after `b`: doubled, at most [`MAX_BACKOFF_MS`].
pub open spec fn next_backoff(b: u64) -> u64 {
    if 2 * b < MAX_BACKOFF_MS {
        (2 * b) as u64
    } else {
        MAX_BACKOFF_MS
    }
}

/// The worker after demand became `next` at `now`, and what it asks for.
pub open spec fn demand_step(s: AudioWorker, next: bool, now: u64) -> (AudioWorker, DemandOutcome) {
    if next == s.demand {
        (s, DemandOutcome { changed: false, reset_capture: false, report: None })
    } else {
        let base = AudioWorker {
            demand: next,
            retry_deadline_ms: None,
            backoff_ms: INITIAL_BACKOFF_MS,
            ..s
        };
        if next {
            (
                AudioWorker { idle_deadline_ms: None, unavailable_latched: false, ..base },
                DemandOutcome {
                    changed: true,
                    reset_capture: s.backend_open,
                    report: if s.backend_open {
                        Some(AudioServiceState::Active)
                    } else {
                        None
                    },
                },
            )
        } else if s.backend_open {
            (
                AudioWorker { idle_deadline_ms: Some((now + s.idle_timeout_ms) as u64), ..base },
                DemandOutcome {
                    changed: true,
                    reset_capture: false,
                    report: Some(AudioServiceState::WarmIdle),
                },
            )
        } else {
            (
                base,
                DemandOutcome {
                    changed: true,
                    reset_capture: false,
                    report: Some(AudioServiceState::Closed),
                },
            )
        }
    }
}

/// Whether an attempt to open the capture is due at `now`.
pub open spec fn open_due(s: AudioWorker, now: u64) -> bool {
    &&& !s.backend_open
    &&& !s.unavailable_latched
    &&& match s.retry_deadline_ms {
        Some(d) => now >= d,
        None => true,
    }
}

/// What the worker does at `now` after a wake-up, and its state after.
pub open spec fn wake_step(s: AudioWorker, now: u64) -> (AudioWorker, WakeAction) {
    if !s.demand {
        if s.idle_deadline_ms matches Some(d) && now >= d {
            (
                AudioWorker { backend_open: false, idle_deadline_ms: None, ..s },
                WakeAction::Idle { close: true },
            )
        } else {
            (s, WakeAction::Idle { close: false })
        }
    } else if open_due(s, now) {
        (s, WakeAction::Open)
    } else if s.backend_open {
        (s, WakeAction::Read)
    } else {
        (s, WakeAction::Wait)
    }
}

/// The worker after an attempt to open the capture at `now`, and the state
/// it reports.
pub open spec fn open_step(s: AudioWorker, result: OpenResult, now: u64) -> (
    AudioWorker,
    AudioServiceState,
) {
    match result {
        OpenResult::Opened => (
            AudioWorker {
                backend_open: true,
                retry_deadline_ms: None,
                backoff_ms: INITIAL_BACKOFF_MS,
                ..s
            },
            AudioServiceState::Active,
        ),
        OpenResult::Unavailable => (
            AudioWorker { unavailable_latched: true, ..s },
            AudioServiceState::Closed,
        ),
        OpenResult::Failed => (
            AudioWorker {
                unavailable_latched: false,
                retry_deadline_ms: Some((now + s.backoff_ms) as u64),
                backoff_ms: next_backoff(s.backoff_ms),
                ..s
            },
            AudioServiceState::Backoff,
        ),
    }
}

/// The worker after reading the open capture failed at `now`.
pub open spec fn capture_failed_step(s: AudioWorker, now: u64) -> AudioWorker {
    AudioWorker {
        backend_open: false,
        retry_deadline_ms: Some((now + s.backoff_ms) as u64),
        backoff_ms: next_backoff(s.backoff_ms),
        ..s
    }
}

impl AudioWorker {
    /// The backoff lies between its first value and its cap.
    pub open spec fn wf(self) -> bool {
        INITIAL_BACKOFF_MS <= self.backoff_ms <= MAX_BACKOFF_MS
    }

    /// A worker without demand or capture, keeping an idle capture open for
    /// `idle_timeout_ms`.
    pub fn new(idle_timeout_ms: u64) -> (w: Self)
        ensures
            w.wf(),
            w == (AudioWorker {
                demand: false,
                backend_open: false,
                idle_deadline_ms: None,
                retry_deadline_ms: None,
                backoff_ms: INITIAL_BACKOFF_MS,
                unavailable_latched: false,
                idle_timeout_ms,
            }),
    {
        AudioWorker {
            demand: false,
            backend_open: false,
            idle_deadline_ms: None,
            retry_deadline_ms: None,
            backoff_ms: INITIAL_BACKOFF_MS,
            unavailable_latched: false,
            idle_timeout_ms,
        }
    }

    /// How long to wait for a command at `now`: briefly while there is
    /// demand; otherwise until the idle deadline, at most the inactive poll
    /// interval.
    pub fn poll_timeout_ms(&self, now_ms: u64) -> (t: u64)
        ensures
            self.demand ==> t == ACTIVE_POLL_INTERVAL_MS,
            !self.demand ==> t == match self.idle_deadline_ms {
                Some(d) => if d > now_ms && d - now_ms < INACTIVE_POLL_INTERVAL_MS {
                    (d - now_ms) as u64
                } else if d > now_ms {
                    INACTIVE_POLL_INTERVAL_MS
                } else {
                    0
                },
                None => INACTIVE_POLL_INTERVAL_MS,
            },
    {
        if self.demand {
            return ACTIVE_POLL_INTERVAL_MS;
        }
        let wait = match self.idle_deadline_ms {
            Some(deadline) => deadline.saturating_sub(now_ms),
            None => INACTIVE_POLL_INTERVAL_MS,
        };
        if wait < INACTIVE_POLL_INTERVAL_MS {
            wait
        } else {
            INACTIVE_POLL_INTERVAL_MS
        }
    }

    /// Demand became `next` at `now_ms`. A change forgets the frames, the
    /// analysis and any pending retry, and restarts the backoff; demand
    /// clears the latch and reuses a warm capture, and the loss of demand
    /// keeps an open capture warm until the idle timeout.
    pub fn on_demand(&mut self, next: bool, now_ms: u64) -> (r: DemandOutcome)
        requires
            old(self).wf(),
            old(self).demand && !next && old(self).backend_open ==> now_ms + old(
                self,
            ).idle_timeout_ms <= u64::MAX,
        ensures
            final(self).wf(),
            (*final(self), r) == demand_step(*old(self), next, now_ms),
    {
        if next == self.demand {
            return DemandOutcome { changed: false, reset_capture: false, report: None };
        }
        self.demand = next;
        self.retry_deadline_ms = None;
        self.backoff_ms = INITIAL_BACKOFF_MS;
        if next {
            self.idle_deadline_ms = None;
            self.unavailable_latched = false;
            if self.backend_open {
                DemandOutcome {
                    changed: true,
                    reset_capture: true,
                    report: Some(AudioServiceState::Active),
                }
            } else {
                DemandOutcome { changed: true, reset_capture: false, report: None }
            }
        } else if self.backend_open {
            self.idle_deadline_ms = Some(now_ms + self.idle_timeout_ms);
            DemandOutcome {
                changed: true,
                reset_capture: false,
                report: Some(AudioServiceState::WarmIdle),
            }
        } else {
            DemandOutcome {
                changed: true,
                reset_capture: false,
                report: Some(AudioServiceState::Closed),
            }
        }
    }

    /// The worker shuts down: it reports `Stopping`, closes the capture and
    /// reports `Closed`. Returns the two states in that order.
    pub fn on_shutdown(&mut self) -> (r: (AudioServiceState, AudioServiceState))
        requires
            old(self).wf(),
        ensures
            final(self).wf(),
            r == (AudioServiceState::Stopping, AudioServiceState::Closed),
            *final(self) == (AudioWorker { backend_open: false, ..*old(self) }),
    {
        self.backend_open = false;
        (AudioServiceState::Stopping, AudioServiceState::Closed)
    }

    /// Decides what to do at `now_ms` after a wake-up that did not end the
    /// worker: without demand, close a capture whose idle time ran out;
    /// with demand, open the capture when an attempt is due, else read it.
    pub fn on_wake(&mut self, now_ms: u64) -> (r: WakeAction)
        requires
            old(self).wf(),
        ensures
            final(self).wf(),
            (*final(self), r) == wake_step(*old(self), now_ms),
    {
        if !self.demand {
            if let Some(deadline) = self.idle_deadline_ms {
                if now_ms >= deadline {
                    self.backend_open = false;
                    self.idle_deadline_ms = None;
                    return WakeAction::Idle { close: true };
                }
            }
            return WakeAction::Idle { close: false };
        }
        let retry_due = match self.retry_deadline_ms {
            Some(deadline) => now_ms >= deadline,
            None => true,
        };
        if !self.backend_open && !self.unavailable_latched && retry_due {
            WakeAction::Open
        } else if self.backend_open {
            WakeAction::Read
        } else {
            WakeAction::Wait
        }
    }

    /// An attempt to open the capture at `now_ms` ended with `result`:
    /// an open capture is active; a missing library latches the worker
    /// closed; any other failure backs off, doubling the next delay up to
    /// the cap. Returns the state to report.
    pub fn on_open_result(&mut self, result: OpenResult, now_ms: u64) -> (r: AudioServiceState)
        requires
            old(self).wf(),
            result == OpenResult::Failed ==> now_ms + old(self).backoff_ms <= u64::MAX,
        ensures
            final(self).wf(),
            (*final(self), r) == open_step(*old(self), result, now_ms),
    {
        match result {
            OpenResult::Opened => {
                self.backend_open = true;
                self.retry_deadline_ms = None;
                self.backoff_ms = INITIAL_BACKOFF_MS;
                AudioServiceState::Active
            },
            OpenResult::Unavailable => {
                self.unavailable_latched = true;
                AudioServiceState::Closed
            },
            OpenResult::Failed => {
                self.unavailable_latched = false;
                self.retry_deadline_ms = Some(now_ms + self.backoff_ms);
                self.backoff_ms = Self::doubled_backoff(self.backoff_ms);
                AudioServiceState::Backoff
            },
        }
    }

    /// Reading the open capture failed at `now_ms`: the capture is closed
    /// and the worker backs off. Returns the state to report.
    pub fn on_capture_failed(&mut self, now_ms: u64) -> (r: AudioServiceState)
        requires
            old(self).wf(),
            now_ms + old(self).backoff_ms <= u64::MAX,
        ensures
            final(self).wf(),
            *final(self) == capture_failed_step(*old(self), now_ms),
            r == AudioServiceState::Backoff,
    {
        self.backend_open = false;
        self.retry_deadline_ms = Some(now_ms + self.backoff_ms);
        self.backoff_ms = Self::doubled_backoff(self.backoff_ms);
        AudioServiceState::Backoff
    }

    fn doubled_backoff(b: u64) -> (r: u64)
        requires
            b <= MAX_BACKOFF_MS,
        ensures
            r == next_backoff(b),
    {
        let doubled = b * 2;
        if doubled < MAX_BACKOFF_MS {
            doubled
        } else {
            MAX_BACKOFF_MS
        }
    }
}

/// Whether the latest frame is sent after `last` was, and which frame was
/// sent last afterwards.
pub open spec fn take_step(last: Option<(u64, u64)>, latest: Option<(u64, u64)>) -> (
    bool,
    Option<(u64, u64)>,
) {
    if latest is Some && latest != last {
        (true, latest)
    } else {
        (false, last)
    }
}

/// Which spectrum frame was last sent to subscribers, so that none is sent
/// twice in a row.
#[derive(Debug, Clone, Copy, PartialEq, Eq)]
pub struct FrameDispatch {
    /// The generation and sequence number of the frame sent last.
    pub last_sent: Option<(u64, u64)>,
}

impl FrameDispatch {
    /// Nothing sent yet.
    pub fn new() -> (d: Self)
        ensures
            d.last_sent is None,
    {
        FrameDispatch { last_sent: None }
    }

    /// Demand changed to `demanded`; without demand the last frame is
    /// forgotten, so that it is sent again when demand returns.
    pub fn on_demand(&mut self, demanded: bool)
        ensures
            final(self).last_sent == (if demanded {
                old(self).last_sent
            } else {
                None
            }),
    {
        if !demanded {
            self.last_sent = None;
        }
    }

    /// Whether the latest frame, identified by its generation and sequence
    /// number, is to be sent: there is one and it is not the one sent last.
    /// A frame to send becomes the last sent.
    pub fn take(&mut self, latest: Option<(u64, u64)>) -> (send: bool)
        ensures
            (send, final(self).last_sent) == take_step(old(self).last_sent, latest),
    {
        match latest {
            None => false,
            Some(identity) => {
                let same = match self.last_sent {
                    Some(last) => last.0 == identity.0 && last.1 == identity.1,
                    None => false,
                };
                if same {
                    false
                } else {
                    self.last_sent = Some(identity);
                    true
                }
            },
        }
    }
}

/// Whatever was sent before, offering the same frame twice in a row sends
/// it at most once.
pub proof fn lemma_frame_not_sent_twice(last: Option<(u64, u64)>, frame: (u64, u64))
    ensures
        !take_step(take_step(last, Some(frame)).1, Some(frame)).0,
{
}

/// Once the audio library was found missing, no attempt to open the capture
/// is made while demand lasts, however much time passes.
pub proof fn lemma_unavailable_is_latched(s: AudioWorker, now: u64, later: u64)
    requires
        s.demand,
        !s.backend_open,
    ensures
        ({
            let latched = open_step(s, OpenResult::Unavailable, now).0;
            &&& latched.unavailable_latched
            &&& wake_step(latched, later).1 != WakeAction::Open
            &&& wake_step(latched, later).0 == latched
        }),
{
}

/// The latch lasts only until demand cycles: losing demand and regaining it
/// makes an attempt due at once.
pub proof fn lemma_latch_cleared_by_demand_cycle(s: AudioWorker, t1: u64, t2: u64)
    requires
        s.demand,
        !s.backend_open,
        s.unavailable_latched,
    ensures
        ({
            let off = demand_step(s, false, t1).0;
            let on = demand_step(off, true, t2).0;
            &&& !on.unavailable_latched
            &&& wake_step(on, t2).1 == WakeAction::Open
        }),
{
}

/// Losing demand keeps an open capture warm: regaining demand before the
/// idle deadline reuses it without opening a new one.
pub proof fn lemma_warm_idle_reuses_capture(s: AudioWorker, t1: u64, t2: u64)
    requires
        s.demand,
        s.backend_open,
        t1 + s.idle_timeout_ms <= u64::MAX,
        t2 < t1 + s.idle_timeout_ms,
    ensures
        ({
            let (off, out_off) = demand_step(s, false, t1);
            let (idle, act) = wake_step(off, t2);
            let (on, out_on) = demand_step(idle, true, t2);
            &&& out_off.report == Some(AudioServiceState::WarmIdle)
            &&& act == (WakeAction::Idle { close: false })
            &&& on.backend_open
            &&& out_on.reset_capture
            &&& out_on.report == Some(AudioServiceState::Active)
            &&& wake_step(on, t2).1 == WakeAction::Read
        }),
{
}

/// Without demand, a warm capture is closed once the idle timeout has run,
/// and not before.
pub proof fn lemma_warm_idle_closes_at_deadline(s: AudioWorker, t1: u64, t2: u64)
    requires
        s.demand,
        s.backend_open,
        t1 + s.idle_timeout_ms <= u64::MAX,
    ensures
        ({
            let off = demand_step(s, false, t1).0;
            let (after, act) = wake_step(off, t2);
            &&& (t2 >= t1 + s.idle_timeout_ms) == (act == WakeAction::Idle { close: true })
            &&& (t2 >= t1 + s.idle_timeout_ms) ==> !after.backend_open
        }),
{
}

/// Each failure doubles the next delay up to the cap, and a retry is never
/// attempted before the delay has passed.
pub proof fn lemma_backoff_doubles_until_cap(s: AudioWorker, now: u64, later: u64)
    requires
        s.wf(),
        s.demand,
        !s.backend_open,
        now + s.backoff_ms <= u64::MAX,
    ensures
        ({
            let (after, _) = open_step(s, OpenResult::Failed, now);
            &&& after.wf()
            &&& after.backoff_ms == next_backoff(s.backoff_ms)
            &&& after.backoff_ms <= MAX_BACKOFF_MS
            &&& (wake_step(after, later).1 == WakeAction::Open) == (later >= now + s.backoff_ms)
        }),
{
}

/// Any change of demand restarts the backoff: right after it no retry is
/// scheduled, and the next failed attempt to open waits one second, however
/// long the backoff had grown before.
pub proof fn lemma_demand_change_restarts_backoff(s: AudioWorker, next: bool, now: u64, later: u64)
    requires
        next != s.demand,
        later + 1000 <= u64::MAX,
    ensures
        demand_step(s, next, now).0.backoff_ms == 1000,
        demand_step(s, next, now).0.retry_deadline_ms is None,
        demand_step(s, next, now).0.demand == next,
        open_step(demand_step(s, next, now).0, OpenResult::Failed, later).0.retry_deadline_ms == Some(
            (later + 1000) as u64,
        ),
{
}

} // verus!
