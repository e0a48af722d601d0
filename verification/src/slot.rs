//! A retained renderer slot: what the router remembers of a renderer across
//! its processes, namely the request it is spawned from, the revision of that
//! request, the generation of the current process and the state it is in.

use vstd::prelude::*;

verus! {

/// Whether a renderer is kept when its process stops.
#[derive(Debug, Clone, Copy, PartialEq, Eq, Structural)]
pub enum RendererRetention {
    Keep,
    Drop,
}

impl RendererRetention {
    /// Whether this is `Keep`.
    pub fn keep(self) -> (r: bool)
        ensures
            r == (self == RendererRetention::Keep),
    {
        match self {
            RendererRetention::Keep => true,
            RendererRetention::Drop => false,
        }
    }
}

/// The life of a renderer's process.
#[derive(Debug, Clone, Copy, PartialEq, Eq, Structural)]
pub enum RendererProcessState {
    Starting,
    Running,
    Stopping,
    Stopped,
    Killed,
    Failed,
}

/// The name under which a process state is reported.
pub open spec fn process_state_name(s: RendererProcessState) -> Seq<char> {
    match s {
        RendererProcessState::Starting => "starting"@,
        RendererProcessState::Running => "running"@,
        RendererProcessState::Stopping => "stopping"@,
        RendererProcessState::Stopped => "stopped"@,
        RendererProcessState::Killed => "killed"@,
        RendererProcessState::Failed => "failed"@,
    }
}

/// A process exists in these states: it is being started, runs, or is being
/// stopped.
pub open spec fn state_has_process(s: RendererProcessState) -> bool {
    s is Starting || s is Running || s is Stopping
}

/// The process is gone in these states, so a retained renderer may be
/// started again.
pub open spec fn state_is_down(s: RendererProcessState) -> bool {
    s is Stopped || s is Killed || s is Failed
}

impl RendererProcessState {
    /// The name under which the state is reported.
    pub fn as_str(self) -> (r: &'static str)
        ensures
            r@ == process_state_name(self),
    {
        match self {
            RendererProcessState::Starting => "starting",
            RendererProcessState::Running => "running",
            RendererProcessState::Stopping => "stopping",
            RendererProcessState::Stopped => "stopped",
            RendererProcessState::Killed => "killed",
            RendererProcessState::Failed => "failed",
        }
    }

    /// Whether a process exists in this state.
    pub fn has_process(self) -> (r: bool)
        ensures
            r == state_has_process(self),
    {
        match self {
            RendererProcessState::Starting | RendererProcessState::Running
            | RendererProcessState::Stopping => true,
            _ => false,
        }
    }
}

/// Why a renderer's playback is paused.
#[derive(Debug, Clone, Copy, PartialEq, Eq, Structural)]
pub enum PausedRendererStatus {
    Paused,
    Muted,
}

/// The playback activity commanded to a renderer.
#[derive(Debug, Clone, Copy, PartialEq, Eq, Structural)]
pub enum RendererStatus {
    Playing,
    Paused(PausedRendererStatus),
    Stopped,
}

/// How a renderer's last process ended.
#[derive(Debug, Clone, PartialEq, Eq)]
pub struct RendererExitSnapshot {
    pub code: Option<i32>,
    pub signal: Option<i32>,
    pub reason: String,
}

/// The revision after `r`: one more, wrapping past `u64::MAX` to 1, so that
/// a revision is never 0.
pub open spec fn next_revision(r: u64) -> u64 {
    if r < u64::MAX {
        (r + 1) as u64
    } else {
        1
    }
}

/// What the router keeps of a retained renderer; `S` is the request the
/// renderer's processes are spawned from.
pub struct RendererSlot<S> {
    pub spawn_request: S,
    pub name: String,
    pub spec_revision: u64,
    pub process_generation: u64,
    pub process_state: RendererProcessState,
    pub activity_state: RendererStatus,
    pub retention: RendererRetention,
    pub last_exit: Option<RendererExitSnapshot>,
    pub restart_failures: u32,
}

impl<S> RendererSlot<S> {
    /// The slot of a renderer whose process of `process_generation` was
    /// just spawned from `spawn_request` under `name`: running, playing, kept,
    /// at revision 1.
    pub fn running(spawn_request: S, name: String, process_generation: u64) -> (s: Self)
        ensures
            s.spawn_request == spawn_request,
            s.name@ == name@,
            s.spec_revision == 1,
            s.process_generation == process_generation,
            s.process_state == RendererProcessState::Running,
            s.activity_state == RendererStatus::Playing,
            s.retention == RendererRetention::Keep,
            s.last_exit is None,
            s.restart_failures == 0,
    {
        RendererSlot {
            spawn_request,
            name,
            spec_revision: 1,
            process_generation,
            process_state: RendererProcessState::Running,
            activity_state: RendererStatus::Playing,
            retention: RendererRetention::Keep,
            last_exit: None,
            restart_failures: 0,
        }
    }

    /// The slot of a renderer assigned but not started yet: stopped, kept,
    /// at revision 1, with no process generation.
    pub fn stopped(spawn_request: S, name: String) -> (s: Self)
        ensures
            s.spawn_request == spawn_request,
            s.name@ == name@,
            s.spec_revision == 1,
            s.process_generation == 0,
            s.process_state == RendererProcessState::Stopped,
            s.activity_state == RendererStatus::Stopped,
            s.retention == RendererRetention::Keep,
            s.last_exit is None,
            s.restart_failures == 0,
    {
        RendererSlot {
            spawn_request,
            name,
            spec_revision: 1,
            process_generation: 0,
            process_state: RendererProcessState::Stopped,
            activity_state: RendererStatus::Stopped,
            retention: RendererRetention::Keep,
            last_exit: None,
            restart_failures: 0,
        }
    }

    /// Moves the spec revision on by one, wrapping past the largest value
    /// to 1; nothing else changes.
    pub fn bump_spec_revision(&mut self)
        ensures
            final(self).spec_revision == next_revision(old(self).spec_revision),
            final(self).spawn_request == old(self).spawn_request,
            final(self).name == old(self).name,
            final(self).process_generation == old(self).process_generation,
            final(self).process_state == old(self).process_state,
            final(self).activity_state == old(self).activity_state,
            final(self).retention == old(self).retention,
            final(self).last_exit == old(self).last_exit,
            final(self).restart_failures == old(self).restart_failures,
    {
        let next = self.spec_revision.wrapping_add(1);
        self.spec_revision = if next > 1 {
            next
        } else {
            1
        };
    }

    /// Gives the renderer a new request and name: a new revision, with the
    /// last exit and the restart failures forgotten. The process is not
    /// touched.
    pub fn replace_spec(&mut self, spawn_request: S, name: String)
        ensures
            final(self).spawn_request == spawn_request,
            final(self).name@ == name@,
            final(self).spec_revision == next_revision(old(self).spec_revision),
            final(self).last_exit is None,
            final(self).restart_failures == 0,
            final(self).process_generation == old(self).process_generation,
            final(self).process_state == old(self).process_state,
            final(self).activity_state == old(self).activity_state,
            final(self).retention == old(self).retention,
    {
        self.spawn_request = spawn_request;
        self.name = name;
        self.bump_spec_revision();
        self.last_exit = None;
        self.restart_failures = 0;
    }

    /// Adopts a process of `process_generation` spawned from `spawn_request`
    /// under `name`: the slot runs it, with no exit recorded.
    pub fn attach_process(&mut self, spawn_request: S, name: String, process_generation: u64)
        ensures
            final(self).spawn_request == spawn_request,
            final(self).name@ == name@,
            final(self).process_generation == process_generation,
            final(self).process_state == RendererProcessState::Running,
            final(self).last_exit is None,
            final(self).spec_revision == old(self).spec_revision,
            final(self).activity_state == old(self).activity_state,
            final(self).retention == old(self).retention,
            final(self).restart_failures == old(self).restart_failures,
    {
        self.spawn_request = spawn_request;
        self.name = name;
        self.process_generation = process_generation;
        self.process_state = RendererProcessState::Running;
        self.last_exit = None;
    }

    /// Starts a process of `process_generation`: the slot is starting and
    /// kept. Returns the revision it starts from and the generation.
    pub fn begin_start(&mut self, process_generation: u64) -> (r: (u64, u64))
        ensures
            r == (old(self).spec_revision, process_generation),
            final(self).process_generation == process_generation,
            final(self).process_state == RendererProcessState::Starting,
            final(self).retention == RendererRetention::Keep,
            final(self).spawn_request == old(self).spawn_request,
            final(self).name == old(self).name,
            final(self).spec_revision == old(self).spec_revision,
            final(self).activity_state == old(self).activity_state,
            final(self).last_exit == old(self).last_exit,
            final(self).restart_failures == old(self).restart_failures,
    {
        self.process_generation = process_generation;
        self.process_state = RendererProcessState::Starting;
        self.retention = RendererRetention::Keep;
        (self.spec_revision, self.process_generation)
    }

    /// Begins to stop the process, if there is one: the slot is stopping,
    /// stopped in activity, with `retention`. Returns the generation of the
    /// process to stop; without a process nothing changes.
    pub fn begin_stop(&mut self, retention: RendererRetention) -> (r: Option<u64>)
        ensures
            state_has_process(old(self).process_state) ==> {
                &&& r == Some(old(self).process_generation)
                &&& final(self).process_state == RendererProcessState::Stopping
                &&& final(self).activity_state == RendererStatus::Stopped
                &&& final(self).retention == retention
            },
            !state_has_process(old(self).process_state) ==> r is None && final(self).process_state
                == old(self).process_state && final(self).activity_state == old(
                self,
            ).activity_state && final(self).retention == old(self).retention,
            final(self).process_generation == old(self).process_generation,
            final(self).spawn_request == old(self).spawn_request,
            final(self).name == old(self).name,
            final(self).spec_revision == old(self).spec_revision,
            final(self).last_exit == old(self).last_exit,
            final(self).restart_failures == old(self).restart_failures,
    {
        if !self.process_state.has_process() {
            return None;
        }
        self.process_state = RendererProcessState::Stopping;
        self.activity_state = RendererStatus::Stopped;
        self.retention = retention;
        Some(self.process_generation)
    }

    /// Whether a retained start may spawn a process now: only once the last
    /// one is gone.
    pub fn may_start(&self) -> (r: bool)
        ensures
            r == state_is_down(self.process_state),
            r == !state_has_process(self.process_state),
    {
        match self.process_state {
            RendererProcessState::Stopped | RendererProcessState::Killed
            | RendererProcessState::Failed => true,
            _ => false,
        }
    }

    /// Whether a retained start spawns a process now: there is demand for
    /// the renderer, no live process is registered for it, and its last
    /// process is gone.
    pub fn retained_start_due(&self, has_demand: bool, live_handle: bool) -> (r: bool)
        ensures
            r == (has_demand && !live_handle && state_is_down(self.process_state)),
            r == (has_demand && !live_handle && !state_has_process(self.process_state)),
    {
        has_demand && !live_handle && self.may_start()
    }

    /// Whether an assignment may take this renderer over: it is kept and its
    /// process is neither starting nor running.
    pub fn reusable_for_assignment(&self) -> (r: bool)
        ensures
            r == (self.retention == RendererRetention::Keep && !(self.process_state is Starting
                || self.process_state is Running)),
    {
        match self.process_state {
            RendererProcessState::Starting | RendererProcessState::Running => false,
            _ => self.retention.keep(),
        }
    }

    /// Schedules a restart after the process died: only when no restart is
    /// pending for the renderer already, with demand for it, while it is
    /// kept, after it was killed or failed, and while fewer than
    /// `max_failures` restarts were tried. A scheduled restart counts as one
    /// more failure; returns the new count.
    pub fn schedule_restart(&mut self, restart_pending: bool, has_demand: bool, max_failures: u32) -> (r:
        Option<u32>)
        ensures
            restart_pending ==> r is None && final(self).restart_failures == old(
                self,
            ).restart_failures,
            ({
                let due = !restart_pending && has_demand && old(self).retention == RendererRetention::Keep && (old(
                    self,
                ).process_state is Killed || old(self).process_state is Failed) && old(
                    self,
                ).restart_failures < max_failures;
                &&& due ==> r == Some((old(self).restart_failures + 1) as u32)
                    && final(self).restart_failures == old(self).restart_failures + 1
                &&& !due ==> r is None && final(self).restart_failures == old(
                    self,
                ).restart_failures
            }),
            final(self).spawn_request == old(self).spawn_request,
            final(self).name == old(self).name,
            final(self).spec_revision == old(self).spec_revision,
            final(self).process_generation == old(self).process_generation,
            final(self).process_state == old(self).process_state,
            final(self).activity_state == old(self).activity_state,
            final(self).retention == old(self).retention,
            final(self).last_exit == old(self).last_exit,
    {
        let died = match self.process_state {
            RendererProcessState::Killed | RendererProcessState::Failed => true,
            _ => false,
        };
        if restart_pending || !has_demand || !self.retention.keep() || !died || self.restart_failures >= max_failures {
            return None;
        }
        self.restart_failures = self.restart_failures + 1;
        Some(self.restart_failures)
    }

    /// Whether a scheduled restart made for `spec_revision` should still
    /// start the renderer: there is demand, the request was not replaced
    /// since, the renderer is kept, and its process was killed or failed.
    pub fn restart_still_wanted(&self, spec_revision: u64, has_demand: bool) -> (r: bool)
        ensures
            r == (has_demand && self.spec_revision == spec_revision && self.retention
                == RendererRetention::Keep && (self.process_state is Killed || self.process_state
                is Failed)),
    {
        let died = match self.process_state {
            RendererProcessState::Killed | RendererProcessState::Failed => true,
            _ => false,
        };
        has_demand && self.spec_revision == spec_revision && self.retention.keep() && died
    }

    /// After a restart attempt for `spec_revision`, decides on another one:
    /// only if there is demand, the request was not replaced, the renderer is
    /// kept, the attempt failed, and fewer than `max_failures` were tried.
    /// Another attempt counts as one more failure; returns the new count.
    pub fn retry_restart(&mut self, spec_revision: u64, has_demand: bool, max_failures: u32) -> (r:
        Option<u32>)
        ensures
            ({
                let due = has_demand && old(self).spec_revision == spec_revision && old(
                    self,
                ).retention == RendererRetention::Keep && old(self).process_state
                    == RendererProcessState::Failed && old(self).restart_failures < max_failures;
                &&& due ==> r == Some((old(self).restart_failures + 1) as u32)
                    && final(self).restart_failures == old(self).restart_failures + 1
                &&& !due ==> r is None && final(self).restart_failures == old(
                    self,
                ).restart_failures
            }),
            final(self).spawn_request == old(self).spawn_request,
            final(self).name == old(self).name,
            final(self).spec_revision == old(self).spec_revision,
            final(self).process_generation == old(self).process_generation,
            final(self).process_state == old(self).process_state,
            final(self).activity_state == old(self).activity_state,
            final(self).retention == old(self).retention,
            final(self).last_exit == old(self).last_exit,
    {
        let failed = match self.process_state {
            RendererProcessState::Failed => true,
            _ => false,
        };
        if !has_demand || self.spec_revision != spec_revision || !self.retention.keep() || !failed
            || self.restart_failures >= max_failures {
            return None;
        }
        self.restart_failures = self.restart_failures + 1;
        Some(self.restart_failures)
    }

    /// A spawn of `process_generation` failed with `reason`: if the slot
    /// still tracks that process while starting or stopping it, the slot
    /// fails with that exit. Returns whether it did.
    pub fn record_start_failure(&mut self, process_generation: u64, reason: String) -> (r: bool)
        ensures
            r == (old(self).process_generation == process_generation && (old(self).process_state
                is Starting || old(self).process_state is Stopping)),
            r ==> final(self).process_state == RendererProcessState::Failed,
            r ==> (final(self).last_exit matches Some(e) && e.code is None && e.signal is None
                && e.reason@ == reason@),
            !r ==> final(self).process_state == old(self).process_state && final(self).last_exit
                == old(self).last_exit,
            final(self).spawn_request == old(self).spawn_request,
            final(self).name == old(self).name,
            final(self).spec_revision == old(self).spec_revision,
            final(self).process_generation == old(self).process_generation,
            final(self).activity_state == old(self).activity_state,
            final(self).retention == old(self).retention,
            final(self).restart_failures == old(self).restart_failures,
    {
        let in_flight = match self.process_state {
            RendererProcessState::Starting | RendererProcessState::Stopping => true,
            _ => false,
        };
        if self.process_generation != process_generation || !in_flight {
            return false;
        }
        self.process_state = RendererProcessState::Failed;
        self.last_exit = Some(RendererExitSnapshot { code: None, signal: None, reason });
        true
    }

    /// Stopping the process of `process_generation` failed with `reason`: if
    /// the slot still tracks that process, the slot fails with that exit.
    /// Returns whether it did.
    pub fn record_stop_failure(&mut self, process_generation: u64, reason: String) -> (r: bool)
        ensures
            r == (old(self).process_generation == process_generation),
            r ==> final(self).process_state == RendererProcessState::Failed,
            r ==> (final(self).last_exit matches Some(e) && e.code is None && e.signal is None
                && e.reason@ == reason@),
            !r ==> final(self).process_state == old(self).process_state && final(self).last_exit
                == old(self).last_exit,
            final(self).spawn_request == old(self).spawn_request,
            final(self).name == old(self).name,
            final(self).spec_revision == old(self).spec_revision,
            final(self).process_generation == old(self).process_generation,
            final(self).activity_state == old(self).activity_state,
            final(self).retention == old(self).retention,
            final(self).restart_failures == old(self).restart_failures,
    {
        if self.process_generation != process_generation {
            return false;
        }
        self.process_state = RendererProcessState::Failed;
        self.last_exit = Some(RendererExitSnapshot { code: None, signal: None, reason });
        true
    }

    /// The generation whose stop is to be finished, when the slot is
    /// stopping.
    pub fn stopping_generation(&self) -> (r: Option<u64>)
        ensures
            r == (if self.process_state == RendererProcessState::Stopping {
                Some(self.process_generation)
            } else {
                None
            }),
    {
        match self.process_state {
            RendererProcessState::Stopping => Some(self.process_generation),
            _ => None,
        }
    }

    /// Marks the renderer to be dropped. When it has a process that is still
    /// live, the slot begins stopping it and the generation to stop is
    /// returned; otherwise the renderer can be removed at once.
    pub fn release_for_drop(&mut self, has_live_process: bool) -> (r: Option<u64>)
        ensures
            final(self).retention == RendererRetention::Drop,
            ({
                let stop = state_has_process(old(self).process_state) && has_live_process;
                &&& stop ==> r == Some(old(self).process_generation) && final(self).process_state
                    == RendererProcessState::Stopping
                &&& !stop ==> r is None && final(self).process_state == old(self).process_state
            }),
            final(self).spawn_request == old(self).spawn_request,
            final(self).name == old(self).name,
            final(self).spec_revision == old(self).spec_revision,
            final(self).process_generation == old(self).process_generation,
            final(self).activity_state == old(self).activity_state,
            final(self).last_exit == old(self).last_exit,
            final(self).restart_failures == old(self).restart_failures,
    {
        self.retention = RendererRetention::Drop;
        let has_process = self.process_state.has_process() && has_live_process;
        if has_process {
            self.process_state = RendererProcessState::Stopping;
            Some(self.process_generation)
        } else {
            None
        }
    }

    /// A process of `process_generation` was spawned but could not be
    /// registered: if no live handle took its place and the slot still
    /// tracks it, the slot begins stopping it. Returns whether it did.
    pub fn abandon_spawn(&mut self, process_generation: u64, no_live_handle: bool) -> (r: bool)
        ensures
            r == (no_live_handle && old(self).process_generation == process_generation),
            r ==> final(self).process_state == RendererProcessState::Stopping,
            !r ==> final(self).process_state == old(self).process_state,
            final(self).spawn_request == old(self).spawn_request,
            final(self).name == old(self).name,
            final(self).spec_revision == old(self).spec_revision,
            final(self).process_generation == old(self).process_generation,
            final(self).activity_state == old(self).activity_state,
            final(self).retention == old(self).retention,
            final(self).last_exit == old(self).last_exit,
            final(self).restart_failures == old(self).restart_failures,
    {
        if no_live_handle && self.process_generation == process_generation {
            self.process_state = RendererProcessState::Stopping;
            true
        } else {
            false
        }
    }

    /// Whether the renderer is commanded to pause.
    pub fn is_paused(&self) -> (r: bool)
        ensures
            r == (self.activity_state == RendererStatus::Paused(PausedRendererStatus::Paused)),
    {
        match self.activity_state {
            RendererStatus::Paused(PausedRendererStatus::Paused) => true,
            _ => false,
        }
    }

    /// Whether the renderer is commanded to play muted.
    pub fn is_muted(&self) -> (r: bool)
        ensures
            r == (self.activity_state == RendererStatus::Paused(PausedRendererStatus::Muted)),
    {
        match self.activity_state {
            RendererStatus::Paused(PausedRendererStatus::Muted) => true,
            _ => false,
        }
    }
}

/// Whether a renderer's links give it demand: some link is enabled and
/// leads to a registered display. Each link is given as (enabled, display
/// registered).
pub fn has_demand(links: &Vec<(bool, bool)>) -> (r: bool)
    ensures
        r == exists|i: int| 0 <= i < links@.len() && #[trigger] links@[i] == (true, true),
{
    let mut i: usize = 0;
    while i < links.len()
        invariant
            i <= links@.len(),
            forall|j: int| 0 <= j < i ==> #[trigger] links@[j] != (true, true),
        decreases links@.len() - i,
    {
        let (enabled, registered) = links[i];
        if enabled && registered {
            assert(links@[i as int] == (true, true));
            return true;
        }
        i = i + 1;
    }
    false
}

/// The restart counter never passes the limit: a scheduled restart or a
/// retry only counts up while fewer than `max_failures` were tried.
pub proof fn lemma_restart_failures_bounded(failures: u32, max_failures: u32, counted: bool)
    requires
        failures <= max_failures,
        counted ==> failures < max_failures,
    ensures
        (if counted {
            failures + 1
        } else {
            failures as int
        }) <= max_failures,
{
}

/// A spec revision is never 0, whatever revision came before it.
pub proof fn lemma_next_revision_never_zero(r: u64)
    ensures
        next_revision(r) >= 1,
        r < u64::MAX ==> next_revision(r) == r + 1,
{
}

/// A retained renderer may be started exactly when it has no process: every
/// state without a process (stopped, killed or failed) allows a start, and
/// every state with one (starting, running or stopping) forbids it.
pub proof fn lemma_start_allowed_exactly_without_process(s: RendererProcessState)
    ensures
        state_is_down(s) == !state_has_process(s),
        s is Failed ==> state_is_down(s),
        s is Killed ==> state_is_down(s),
        s is Stopped ==> state_is_down(s),
        s is Starting || s is Running || s is Stopping ==> state_has_process(s) && !state_is_down(s),
{
}

} // verus!
