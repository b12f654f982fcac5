//! The frame synchronizer: the state machine that sequences acquire,
//! record, submit and present across frames.
//!
//! The platform performs the actual GPU calls; this machine owns the
//! decisions: a frame is recorded only against an acquired image that has a
//! framebuffer, submissions carry strictly increasing sequence numbers, a
//! stale surface skips the tick and must be recreated before the next
//! acquire, and staleness is never escalated to a fatal error.

use vstd::prelude::*;
use vstd::string::*;

use crate::error::RuntimeError;
use crate::swapchain::RenderSwapchain;

verus! {

/// What an acquire attempt reported.
#[derive(Debug, Clone, Copy, PartialEq, Eq, Structural)]
pub enum AcquireOutcome {
    /// An image is ready for recording; `suboptimal` marks a surface that
    /// still works but no longer matches the platform exactly.
    Ready { image_index: u32, suboptimal: bool },
    /// The image set no longer matches the output surface.
    OutOfDate,
    /// Any other device failure.
    Failed,
}

/// What a submit-and-present attempt reported.
#[derive(Debug, Clone, Copy, PartialEq, Eq, Structural)]
pub enum PresentOutcome {
    /// The work was submitted and the present was queued.
    Completed,
    /// The work was submitted but the present found the surface stale.
    OutOfDate,
    /// The submission itself failed.
    Failed,
}

/// Where the synchronizer stands within a tick.
#[derive(Debug, Clone, Copy, PartialEq, Eq, Structural)]
pub enum FramePhase {
    /// No frame is in preparation.
    Idle,
    /// A frame is being recorded against the acquired image.
    Recording { image_index: u32 },
}

/// The synchronizer state a tick acts on, as a plain record.
pub struct SyncState {
    pub stale: bool,
    pub phase: FramePhase,
    pub submitted: int,
    pub image_count: int,
}

/// The state after an acquire attempt: a ready image enters the recording
/// phase and carries the suboptimal flag into the stale flag; an
/// out-of-date report marks the surface stale and skips the tick; a failure
/// changes nothing (it is fatal to the caller).
pub open spec fn spec_after_acquire(s: SyncState, a: AcquireOutcome) -> SyncState {
    match a {
        AcquireOutcome::Ready { image_index, suboptimal } => if (image_index as int)
            < s.image_count {
            SyncState { stale: suboptimal, phase: FramePhase::Recording { image_index }, ..s }
        } else {
            s
        },
        AcquireOutcome::OutOfDate => SyncState { stale: true, ..s },
        AcquireOutcome::Failed => s,
    }
}

/// The state after submitting the recorded frame and requesting its
/// present: a completed or out-of-date present both count the submission
/// (the work was dispatched either way), an out-of-date present
/// additionally marks the surface stale; a failed submission counts
/// nothing. All three return to the idle phase.
pub open spec fn spec_after_submit(s: SyncState, p: PresentOutcome) -> SyncState {
    match p {
        PresentOutcome::Completed => SyncState {
            phase: FramePhase::Idle,
            submitted: s.submitted + 1,
            ..s
        },
        PresentOutcome::OutOfDate => SyncState {
            stale: true,
            phase: FramePhase::Idle,
            submitted: s.submitted + 1,
            ..s
        },
        PresentOutcome::Failed => SyncState { phase: FramePhase::Idle, ..s },
    }
}

/// The state after the surface was rebuilt with `image_count` images.
pub open spec fn spec_after_recreate(s: SyncState, image_count: int) -> SyncState {
    SyncState { stale: false, image_count, ..s }
}

/// One staleness-free tick: acquire an image, record against it, submit and
/// present successfully.
pub open spec fn spec_tick_ok(s: SyncState, image_index: u32) -> SyncState {
    spec_after_submit(
        spec_after_acquire(s, AcquireOutcome::Ready { image_index, suboptimal: false }),
        PresentOutcome::Completed,
    )
}

/// `n` staleness-free ticks in a row.
pub open spec fn spec_run_ok_ticks(s: SyncState, image_index: u32, n: nat) -> SyncState
    decreases n,
{
    if n == 0 {
        s
    } else {
        spec_tick_ok(spec_run_ok_ticks(s, image_index, (n - 1) as nat), image_index)
    }
}

/// Frame-order monotonicity: across `n` ticks with no staleness the
/// submission counter advances by exactly one per tick, so tick `k` submits
/// sequence number `s.submitted + k` — the submission numbers a device
/// observes are strictly increasing in tick order. (That frame `k`'s
/// submission cannot start before frame `k - 1`'s has been dispatched is
/// structural: acquiring requires the idle phase, which only submitting
/// restores.)
pub proof fn lemma_frame_order_monotonic(s: SyncState, image_index: u32, n: nat)
    requires
        s.phase is Idle,
        !s.stale,
        (image_index as int) < s.image_count,
    ensures
        spec_run_ok_ticks(s, image_index, n).submitted == s.submitted + n,
        spec_run_ok_ticks(s, image_index, n).phase is Idle,
        !spec_run_ok_ticks(s, image_index, n).stale,
        spec_run_ok_ticks(s, image_index, n).image_count == s.image_count,
    decreases n,
{
    if n > 0 {
        lemma_frame_order_monotonic(s, image_index, (n - 1) as nat);
    }
}

/// Staleness recovery: an out-of-date acquire submits nothing and marks the
/// surface stale; one recreate clears the mark without touching the
/// submission counter; and the next clean tick submits exactly the next
/// sequence number. (That the recreate happens exactly once before that
/// tick is structural: acquiring requires a non-stale surface, and only
/// recreating clears the mark.)
pub proof fn lemma_staleness_recovery(s: SyncState, image_count: int, image_index: u32)
    requires
        s.phase is Idle,
        !s.stale,
        0 <= (image_index as int) < image_count,
    ensures
        ({
            let s_skip = spec_after_acquire(s, AcquireOutcome::OutOfDate);
            let s_rec = spec_after_recreate(s_skip, image_count);
            &&& s_skip.stale
            &&& s_skip.submitted == s.submitted
            &&& s_skip.phase is Idle
            &&& !s_rec.stale
            &&& s_rec.submitted == s.submitted
            &&& spec_tick_ok(s_rec, image_index).submitted == s.submitted + 1
        }),
{
}

/// The frame synchronizer: owns the surface bookkeeping, the stale flag,
/// the tick phase and the submission counter.
pub struct RenderFrame {
    swapchain: RenderSwapchain,
    framebuffer_count: u32,
    recreate_swapchain: bool,
    phase: FramePhase,
    frames_submitted: u64,
}

impl RenderFrame {
    /// The surface bookkeeping.
    pub closed spec fn spec_swapchain(&self) -> RenderSwapchain {
        self.swapchain
    }

    /// How many framebuffers exist.
    pub closed spec fn spec_framebuffer_count(&self) -> u32 {
        self.framebuffer_count
    }

    /// Whether the surface is marked stale.
    pub closed spec fn spec_recreate_swapchain(&self) -> bool {
        self.recreate_swapchain
    }

    /// The tick phase.
    pub closed spec fn spec_phase(&self) -> FramePhase {
        self.phase
    }

    /// How many frames have been submitted.
    pub closed spec fn spec_frames_submitted(&self) -> u64 {
        self.frames_submitted
    }

    /// This synchronizer as a plain state record.
    pub closed spec fn sync_state(&self) -> SyncState {
        SyncState {
            stale: self.recreate_swapchain,
            phase: self.phase,
            submitted: self.frames_submitted as int,
            image_count: self.framebuffer_count as int,
        }
    }

    /// The invariant: one framebuffer per image, the current image inside
    /// the set, and a recorded frame always against an existing
    /// framebuffer.
    pub closed spec fn wf(&self) -> bool {
        &&& self.swapchain.wf()
        &&& self.framebuffer_count == self.swapchain.spec_max_frame_in_flight()
        &&& match self.phase {
            FramePhase::Recording { image_index } => image_index < self.framebuffer_count,
            FramePhase::Idle => true,
        }
    }

    /// A synchronizer for a freshly built surface.
    pub fn new(image_count: u32, extent: (u32, u32)) -> (r: Self)
        requires
            image_count >= 1,
        ensures
            r.wf(),
            !r.spec_recreate_swapchain(),
            r.spec_phase() is Idle,
            r.spec_frames_submitted() == 0,
            r.spec_framebuffer_count() == image_count,
            r.spec_swapchain().spec_extent() == extent,
    {
        RenderFrame {
            swapchain: RenderSwapchain::new(image_count, extent),
            framebuffer_count: image_count,
            recreate_swapchain: false,
            phase: FramePhase::Idle,
            frames_submitted: 0,
        }
    }

    /// Whether the surface must be rebuilt before the next acquire.
    pub fn needs_recreate(&self) -> (r: bool)
        ensures
            r == self.spec_recreate_swapchain(),
    {
        self.recreate_swapchain
    }

    /// Whether a frame is currently being recorded.
    pub fn is_recording(&self) -> (r: bool)
        ensures
            r == (self.spec_phase() is Recording),
    {
        matches!(self.phase, FramePhase::Recording { .. })
    }

    /// The submission counter.
    pub fn get_frames_submitted(&self) -> (r: u64)
        ensures
            r == self.spec_frames_submitted(),
    {
        self.frames_submitted
    }

    /// The number of framebuffers.
    pub fn get_framebuffer_count(&self) -> (r: u32)
        ensures
            r == self.spec_framebuffer_count(),
    {
        self.framebuffer_count
    }

    /// The framebuffer index of the image the last acquire handed out;
    /// always an existing framebuffer.
    pub fn ref_current_framebuffer(&self) -> (r: u32)
        requires
            self.wf(),
        ensures
            r == self.spec_swapchain().spec_current_frame(),
            r < self.spec_framebuffer_count(),
    {
        self.swapchain.get_current_frame()
    }

    /// Records that the surface, its depth-stencil target and every
    /// framebuffer were rebuilt. Safe while an earlier frame is still in
    /// flight on the device; the tick itself must be between frames.
    pub fn recreate(
        &mut self,
        image_count: u32,
        platform_extent: Option<(u32, u32)>,
        width: u32,
        height: u32,
    )
        requires
            old(self).wf(),
            old(self).spec_phase() is Idle,
            image_count >= 1,
        ensures
            final(self).wf(),
            final(self).sync_state() == spec_after_recreate(
                old(self).sync_state(),
                image_count as int,
            ),
            final(self).spec_phase() is Idle,
            !final(self).spec_recreate_swapchain(),
            final(self).spec_framebuffer_count() == image_count,
            final(self).spec_frames_submitted() == old(self).spec_frames_submitted(),
            final(self).spec_swapchain().spec_extent() == match platform_extent {
                Some(e) => e,
                None => (width, height),
            },
    {
        self.swapchain.recreate(image_count, platform_extent, width, height);
        self.framebuffer_count = image_count;
        self.recreate_swapchain = false;
    }

    /// Acts on what the platform's acquire reported.
    ///
    /// A ready image with a framebuffer starts the recording phase and is
    /// returned to the caller; a suboptimal surface is marked stale for the
    /// next tick. An out-of-date report skips this tick (`None`) and marks
    /// the surface stale; it is never an error. A failure, or an image
    /// index with no framebuffer, is fatal.
    pub fn wait_for_next_frame(&mut self, acquired: AcquireOutcome) -> (r: Result<
        Option<u32>,
        RuntimeError,
    >)
        requires
            old(self).wf(),
            old(self).spec_phase() is Idle,
            !old(self).spec_recreate_swapchain(),
        ensures
            final(self).wf(),
            final(self).sync_state() == spec_after_acquire(old(self).sync_state(), acquired),
            final(self).spec_swapchain().spec_max_frame_in_flight() == old(
                self,
            ).spec_swapchain().spec_max_frame_in_flight(),
            match acquired {
                AcquireOutcome::Ready { image_index, suboptimal } => if image_index < old(
                    self,
                ).spec_framebuffer_count() {
                    &&& r == Ok::<Option<u32>, RuntimeError>(Some(image_index))
                    &&& final(self).spec_swapchain().spec_current_frame() == image_index
                } else {
                    r is Err
                },
                AcquireOutcome::OutOfDate => r == Ok::<Option<u32>, RuntimeError>(None),
                AcquireOutcome::Failed => r is Err,
            },
    {
        match acquired {
            AcquireOutcome::Ready { image_index, suboptimal } => {
                if image_index < self.framebuffer_count {
                    self.swapchain.record_acquire(image_index);
                    self.recreate_swapchain = suboptimal;
                    self.phase = FramePhase::Recording { image_index };
                    Ok(Some(image_index))
                } else {
                    Err(
                        RuntimeError::new(
                            "src/frame.rs",
                            0,
                            0,
                            String::from_str("Acquired image has no framebuffer."),
                        ),
                    )
                }
            },
            AcquireOutcome::OutOfDate => {
                self.recreate_swapchain = true;
                Ok(None)
            },
            AcquireOutcome::Failed => {
                Err(
                    RuntimeError::new(
                        "src/frame.rs",
                        0,
                        0,
                        String::from_str("Failed to get swapchain next image."),
                    ),
                )
            },
        }
    }

    /// Acts on what the platform's submit-and-present reported, ending the
    /// recording phase.
    ///
    /// The submission is chained after the previous frame's completion
    /// signal by the caller, so sequence numbers follow dispatch order. A
    /// completed present returns this frame's sequence number; an
    /// out-of-date present still does (the work was dispatched) but marks
    /// the surface stale, with a fresh completion signal substituted so
    /// later frames are not blocked. Any other failure is fatal.
    pub fn queue_submit_and_present(&mut self, present: PresentOutcome) -> (r: Result<
        u64,
        RuntimeError,
    >)
        requires
            old(self).wf(),
            old(self).spec_phase() is Recording,
            old(self).spec_frames_submitted() < u64::MAX,
        ensures
            final(self).wf(),
            final(self).sync_state() == spec_after_submit(old(self).sync_state(), present),
            final(self).spec_phase() is Idle,
            final(self).spec_swapchain() == old(self).spec_swapchain(),
            match present {
                PresentOutcome::Completed => r == Ok::<u64, RuntimeError>(
                    old(self).spec_frames_submitted(),
                ),
                PresentOutcome::OutOfDate => r == Ok::<u64, RuntimeError>(
                    old(self).spec_frames_submitted(),
                ),
                PresentOutcome::Failed => r is Err,
            },
    {
        self.phase = FramePhase::Idle;
        match present {
            PresentOutcome::Completed => {
                let seq = self.frames_submitted;
                self.frames_submitted = self.frames_submitted + 1;
                Ok(seq)
            },
            PresentOutcome::OutOfDate => {
                let seq = self.frames_submitted;
                self.frames_submitted = self.frames_submitted + 1;
                self.recreate_swapchain = true;
                Ok(seq)
            },
            PresentOutcome::Failed => {
                Err(
                    RuntimeError::new(
                        "src/frame.rs",
                        0,
                        0,
                        String::from_str("Presentation failed."),
                    ),
                )
            },
        }
    }
}

} // verus!
