//! The session coordinator: one serving session at a time. Starting a new
//! session drains every previously registered listener handle — each is
//! handed back exactly once, to be shut down gracefully — before the
//! manifest is rebuilt, and only after the rebuild may new listeners be
//! registered.

use vstd::prelude::*;

verus! {

/// Where a serving session stands.
#[derive(Clone, Copy, Debug, PartialEq, Eq, Structural)]
pub enum SessionPhase {
    /// No session is serving.
    Idle,
    /// A new session has begun: the old handles are drained; the manifest
    /// rebuild may still be under way.
    Starting,
    /// The session serves: its listeners are registered and see the
    /// rebuilt manifest.
    Active,
    /// The session's handles were handed out for graceful shutdown.
    ShuttingDown,
}

/// The owned session state: the registry of live listener handles (as
/// caller-chosen identifiers) and the phase of the current session. A
/// caller holds exactly one of these and threads it through session starts
/// and stops; there is no ambient global registry.
pub struct Coordinator {
    phase: SessionPhase,
    manifest_ready: bool,
    handles: Vec<u64>,
}

impl Coordinator {
    pub closed spec fn phase(self) -> SessionPhase {
        self.phase
    }

    /// The registered listener handles of the current session, in
    /// registration order.
    pub closed spec fn handles_model(self) -> Seq<u64> {
        self.handles@
    }

    /// Whether the current session's manifest rebuild has completed.
    pub closed spec fn manifest_ready(self) -> bool {
        self.manifest_ready
    }

    /// Until the rebuild completes, no listener of the new session is
    /// registered: an accepted request can never see a stale manifest.
    pub open spec fn wf(self) -> bool {
        self.phase() is Starting && !self.manifest_ready() ==> self.handles_model()
            == Seq::<u64>::empty()
    }

    pub fn new() -> (res: Coordinator)
        ensures
            res.wf(),
            res.phase() is Idle,
            res.handles_model() == Seq::<u64>::empty(),
    {
        Coordinator { phase: SessionPhase::Idle, manifest_ready: false, handles: Vec::new() }
    }

    /// Begin a new session, whatever was running: every previously
    /// registered handle is popped and handed back, each exactly once, so
    /// the caller can shut it down before any new listener binds. The
    /// registry is empty afterwards.
    pub fn begin_start(&mut self) -> (drained: Vec<u64>)
        ensures
            final(self).wf(),
            final(self).phase() is Starting,
            !final(self).manifest_ready(),
            final(self).handles_model() == Seq::<u64>::empty(),
            drained@ == old(self).handles_model().reverse(),
    {
        let mut drained: Vec<u64> = Vec::new();
        let ghost orig = self.handles@;
        while self.handles.len() > 0
            invariant
                orig == self.handles@ + drained@.reverse(),
            decreases self.handles@.len(),
        {
            let h = self.handles.pop().unwrap();
            drained.push(h);
            proof {
                assert(orig =~= self.handles@ + drained@.reverse());
            }
        }
        proof {
            assert(self.handles@ =~= Seq::<u64>::empty());
            assert(orig =~= drained@.reverse());
            assert(orig.reverse() =~= drained@);
        }
        self.phase = SessionPhase::Starting;
        self.manifest_ready = false;
        drained
    }

    /// Record that the served root's manifest has been rebuilt; only now
    /// may listeners be registered.
    pub fn manifest_rebuilt(&mut self)
        requires
            old(self).wf(),
            old(self).phase() is Starting,
        ensures
            final(self).wf(),
            final(self).phase() is Starting,
            final(self).manifest_ready(),
            final(self).handles_model() == old(self).handles_model(),
    {
        self.manifest_ready = true;
    }

    /// Register one newly bound listener's handle.
    pub fn register_handle(&mut self, handle: u64)
        requires
            old(self).wf(),
            old(self).phase() is Starting,
            old(self).manifest_ready(),
        ensures
            final(self).wf(),
            final(self).phase() is Starting,
            final(self).manifest_ready(),
            final(self).handles_model() == old(self).handles_model().push(handle),
    {
        self.handles.push(handle);
    }

    /// The session-start sequence is complete: the session serves.
    pub fn activate(&mut self)
        requires
            old(self).wf(),
            old(self).phase() is Starting,
            old(self).manifest_ready(),
        ensures
            final(self).wf(),
            final(self).phase() is Active,
            final(self).handles_model() == old(self).handles_model(),
    {
        self.phase = SessionPhase::Active;
    }

    /// Stop serving: every registered handle is handed back, each exactly
    /// once, for a graceful signal-and-wait shutdown — never a kill.
    pub fn begin_shutdown(&mut self) -> (drained: Vec<u64>)
        requires
            old(self).wf(),
        ensures
            final(self).wf(),
            final(self).phase() is ShuttingDown,
            final(self).handles_model() == Seq::<u64>::empty(),
            drained@ == old(self).handles_model().reverse(),
    {
        let mut drained: Vec<u64> = Vec::new();
        let ghost orig = self.handles@;
        while self.handles.len() > 0
            invariant
                orig == self.handles@ + drained@.reverse(),
            decreases self.handles@.len(),
        {
            let h = self.handles.pop().unwrap();
            drained.push(h);
            proof {
                assert(orig =~= self.handles@ + drained@.reverse());
            }
        }
        proof {
            assert(self.handles@ =~= Seq::<u64>::empty());
            assert(orig =~= drained@.reverse());
            assert(orig.reverse() =~= drained@);
        }
        self.phase = SessionPhase::ShuttingDown;
        self.manifest_ready = false;
        drained
    }

    /// The handed-back handles have all been signalled and waited on.
    pub fn finish_shutdown(&mut self)
        requires
            old(self).wf(),
            old(self).phase() is ShuttingDown,
        ensures
            final(self).wf(),
            final(self).phase() is Idle,
            final(self).handles_model() == old(self).handles_model(),
    {
        self.phase = SessionPhase::Idle;
    }

    /// The phase the session is in now.
    pub fn phase_now(&self) -> (res: SessionPhase)
        ensures
            res == self.phase(),
    {
        self.phase
    }

    /// Whether the manifest rebuild of the starting session has completed.
    pub fn manifest_is_ready(&self) -> (res: bool)
        ensures
            res == self.manifest_ready(),
    {
        self.manifest_ready
    }

    /// The currently registered handles, in registration order.
    pub fn current_handles(&self) -> (res: Vec<u64>)
        ensures
            res@ == self.handles_model(),
    {
        let mut out: Vec<u64> = Vec::new();
        let mut i: usize = 0;
        while i < self.handles.len()
            invariant
                i <= self.handles@.len(),
                out@ == self.handles@.take(i as int),
            decreases self.handles@.len() - i,
        {
            out.push(self.handles[i]);
            proof {
                assert(out@ =~= self.handles@.take(i as int + 1));
            }
            i = i + 1;
        }
        proof {
            assert(self.handles@.take(self.handles@.len() as int) =~= self.handles@);
        }
        out
    }
}

} // verus!
