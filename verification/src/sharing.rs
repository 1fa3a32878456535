//! The presenter's side: the sharing session and its capture loop.
//!
//! Nothing here waits, listens or sends. The session and the loop are
//! small state machines: the caller performs the outside work (binding,
//! capturing, publishing, sleeping), reports what came of it, and is told
//! what to do next.

use vstd::prelude::*;
use vstd::string::StringExecFns;
use crate::frame::{captured_frame, encode_capture};
use crate::notify::Notification;
use crate::text::{decimal, push_decimal, text_of};
use crate::wire::{encode_frame, wire_text};

verus! {

// ---------------------------------------------------------------------
// The session
// ---------------------------------------------------------------------

/// Where a sharing session stands.
#[derive(Clone, Copy, Debug, PartialEq, Eq, Structural)]
pub enum SharingState {
    /// Nothing is shared.
    Idle,
    /// A start was accepted; the listening endpoint is being bound.
    Starting,
    /// Frames are captured and broadcast.
    Active,
}

/// Why a start failed.
#[derive(Clone, Debug, PartialEq, Eq)]
pub enum StartError {
    /// A session is starting or active already.
    AlreadyActive,
    /// The listening endpoint could not be bound; the cause is kept.
    BindError(String),
}

/// The sharing state of one presenter.
#[derive(Clone, Copy, Debug, PartialEq, Eq, Structural)]
pub struct SharingSession {
    pub state: SharingState,
    /// The port of the latest accepted start.
    pub port: u16,
}

/// The address on which the presenter listens: every interface, at `port`.
pub open spec fn bind_address(port: u16) -> Seq<char> {
    "0.0.0.0:"@ + decimal(port as nat)
}

/// The address that the presenter hands to its viewers: the local address
/// and the port, with a placeholder where the local address is not known.
pub open spec fn share_address(local_ip: Option<Seq<char>>, port: u16) -> Seq<char> {
    (match local_ip {
        Some(ip) => ip,
        None => "unknown"@,
    }) + ":"@ + decimal(port as nat)
}

/// What the caller of a failed start is told.
pub open spec fn start_error_text(e: StartError) -> Seq<char> {
    match e {
        StartError::AlreadyActive => "Already sharing"@,
        StartError::BindError(cause) => cause@,
    }
}

impl StartError {
    /// The message for the caller: a fixed text where a session exists
    /// already, the cause itself where binding failed.
    pub fn message(&self) -> (text: String)
        ensures
            text@ == start_error_text(*self),
    {
        match self {
            StartError::AlreadyActive => "Already sharing".to_owned(),
            StartError::BindError(cause) => cause.clone(),
        }
    }
}

/// The number that stands for a sharing state in a packed session.
pub open spec fn sharing_state_code(state: SharingState) -> int {
    match state {
        SharingState::Idle => 0,
        SharingState::Starting => 1,
        SharingState::Active => 2,
    }
}

impl SharingSession {
    /// The session packed into one word, so that it can be kept in a single
    /// atomic cell: the port in the low 16 bits, the state above them.
    pub open spec fn word(self) -> u32 {
        (sharing_state_code(self.state) * 0x10000 + self.port) as u32
    }

    /// Packs the session into one word.
    pub fn to_word(&self) -> (w: u32)
        ensures
            w == self.word(),
    {
        let code: u32 = match self.state {
            SharingState::Idle => 0,
            SharingState::Starting => 1,
            SharingState::Active => 2,
        };
        code * 0x10000 + self.port as u32
    }

    /// The session that a word stands for. Every session comes back from
    /// its own word; a word that no session packs to stands for an idle
    /// one.
    pub fn from_word(w: u32) -> (session: SharingSession)
        ensures
            forall|s: SharingSession| s.word() == w ==> session == s,
            (forall|s: SharingSession| s.word() != w) ==> session.state is Idle,
            session.port == w % 0x10000,
    {
        let code: u32 = w / 0x10000;
        let port: u16 = (w % 0x10000) as u16;
        let state = if code == 1 {
            SharingState::Starting
        } else if code == 2 {
            SharingState::Active
        } else {
            SharingState::Idle
        };
        let session = SharingSession { state, port };
        assert(code < 3 ==> session.word() == w);
        session
    }

    /// A session that shares nothing.
    pub fn new() -> (session: SharingSession)
        ensures
            session.state is Idle,
            session.port == 0,
    {
        SharingSession { state: SharingState::Idle, port: 0 }
    }

    /// Whether frames are being captured and broadcast.
    pub fn is_sharing(&self) -> (sharing: bool)
        ensures
            sharing == (self.state is Active),
    {
        match self.state {
            SharingState::Active => true,
            _ => false,
        }
    }

    /// Asks to start sharing on `port`.
    ///
    /// An idle session accepts: it is now starting, and the result is the
    /// address at which the caller is to bind the listening endpoint. Any
    /// other session refuses with `AlreadyActive` and stays as it is.
    pub fn begin_start(&mut self, port: u16) -> (r: Result<String, StartError>)
        ensures
            old(self).state is Idle ==> r is Ok && r->Ok_0@ == bind_address(port) && *final(self)
                == (SharingSession { state: SharingState::Starting, port }),
            !(old(self).state is Idle) ==> r == Err::<String, StartError>(
                StartError::AlreadyActive,
            ) && *final(self) == *old(self),
    {
        match self.state {
            SharingState::Idle => {
                self.state = SharingState::Starting;
                self.port = port;
                let mut address = "0.0.0.0:".to_owned();
                push_decimal(&mut address, port as u64);
                Ok(address)
            },
            _ => Err(StartError::AlreadyActive),
        }
    }

    /// Takes the outcome of binding the listening endpoint.
    ///
    /// Where binding succeeded the session is active, and the result is the
    /// address to pass on to viewers; `local_ip` is the presenter's own
    /// address where one was found. Where binding failed a starting session
    /// is idle again, and the result is `BindError` with the cause.
    pub fn finish_start(&mut self, bound: Result<(), String>, local_ip: Option<String>) -> (r:
        Result<String, StartError>)
        ensures
            final(self).port == old(self).port,
            bound is Ok ==> final(self).state is Active && r is Ok && r->Ok_0@ == share_address(
                text_of(local_ip),
                old(self).port,
            ),
            bound is Err ==> final(self).state == (if old(self).state is Starting {
                SharingState::Idle
            } else {
                old(self).state
            }) && r is Err && r->Err_0 is BindError && r->Err_0->BindError_0@ == bound->Err_0@,
    {
        match bound {
            Ok(_) => {
                self.state = SharingState::Active;
                let mut address = match local_ip {
                    Some(ip) => ip,
                    None => "unknown".to_owned(),
                };
                address.append(":");
                push_decimal(&mut address, self.port as u64);
                Ok(address)
            },
            Err(cause) => {
                match self.state {
                    SharingState::Starting => {
                        self.state = SharingState::Idle;
                    },
                    _ => {},
                }
                Err(StartError::BindError(cause))
            },
        }
    }

    /// Stops sharing: the session is idle, whatever it was.
    pub fn stop(&mut self)
        ensures
            final(self).state is Idle,
            final(self).port == old(self).port,
    {
        self.state = SharingState::Idle;
    }
}

// ---------------------------------------------------------------------
// The capture loop
// ---------------------------------------------------------------------

/// The raw pixels of one capture: `width` times `height` pixels, row by
/// row, four bytes (red, green, blue, alpha) each.
#[derive(Clone, Debug, PartialEq, Eq)]
pub struct RawCapture {
    pub pixels: Vec<u8>,
    pub width: u32,
    pub height: u32,
}

/// A capture as the contracts see it.
pub struct CaptureView {
    pub pixels: Seq<u8>,
    pub width: u32,
    pub height: u32,
}

impl View for RawCapture {
    type V = CaptureView;

    open spec fn view(&self) -> CaptureView {
        CaptureView { pixels: self.pixels@, width: self.width, height: self.height }
    }
}

/// The capture that an attempt gave, if it gave one.
pub open spec fn capture_of(capture: Option<RawCapture>) -> Option<CaptureView> {
    match capture {
        Some(c) => Some(c@),
        None => None,
    }
}

/// The message that one tick publishes: the wire text of the frame made
/// from the capture. A tick publishes nothing where the capture failed or
/// no frame could be made from it.
pub open spec fn tick_message(capture: Option<CaptureView>) -> Option<Seq<char>> {
    match capture {
        None => None,
        Some(c) => match captured_frame(c.pixels, c.width, c.height) {
            Some(frame) => Some(wire_text(frame)),
            None => None,
        },
    }
}

/// The time between two ticks, in milliseconds.
pub open spec fn frame_interval(frames_per_second: u32) -> int {
    1000int / (frames_per_second as int)
}

/// What the capture loop does next.
#[derive(Clone, Debug, PartialEq, Eq)]
pub enum CaptureStep {
    /// Capture the screen, publish what [`CaptureLoop::message`] gives for
    /// it, sleep for the interval, and poll again.
    Capture,
    /// Emit the notification and end the loop.
    Finish(Notification),
}

/// The loop that captures and publishes one frame per interval while the
/// session is active.
#[derive(Clone, Copy, Debug, PartialEq, Eq, Structural)]
pub struct CaptureLoop {
    /// The time to sleep between two ticks, in milliseconds.
    pub interval_ms: u64,
    /// Whether the loop has seen the session inactive. It never runs again.
    pub finished: bool,
}

impl CaptureLoop {
    /// The loop after it has looked at the sharing state.
    pub open spec fn polled(self, sharing: bool) -> CaptureLoop {
        CaptureLoop { interval_ms: self.interval_ms, finished: self.finished || !sharing }
    }

    /// A loop for the given rate, which must not be zero.
    pub fn new(frames_per_second: u32) -> (l: CaptureLoop)
        requires
            frames_per_second > 0,
        ensures
            l.interval_ms == frame_interval(frames_per_second),
            !l.finished,
    {
        CaptureLoop { interval_ms: 1000 / (frames_per_second as u64), finished: false }
    }

    /// Looks at the sharing state at the head of the loop.
    ///
    /// While the session is active and the loop has not finished, the next
    /// step is a capture. Once the loop sees the session inactive it has
    /// finished, for good, and the host shell is told that sharing stopped.
    pub fn poll(&mut self, sharing: bool) -> (step: CaptureStep)
        ensures
            *final(self) == old(self).polled(sharing),
            !final(self).finished ==> step is Capture,
            final(self).finished ==> step == CaptureStep::Finish(Notification::SharingStopped),
    {
        if sharing && !self.finished {
            CaptureStep::Capture
        } else {
            self.finished = true;
            CaptureStep::Finish(Notification::SharingStopped)
        }
    }

    /// The message to publish for one capture attempt, if any.
    pub fn message(capture: Option<RawCapture>) -> (text: Option<String>)
        ensures
            text_of(text) == tick_message(capture_of(capture)),
    {
        match capture {
            None => None,
            Some(c) => match encode_capture(c.pixels, c.width, c.height) {
                Some(frame) => Some(encode_frame(&frame)),
                None => None,
            },
        }
    }
}

/// What the capture loop meets at one tick: the sharing state at the head
/// of the loop and, if it captures, what the capture gives.
pub struct Tick {
    pub sharing: bool,
    pub capture: Option<CaptureView>,
}

/// The messages that a capture loop publishes over a run of ticks, in
/// order.
pub open spec fn published(l: CaptureLoop, ticks: Seq<Tick>) -> Seq<Seq<char>>
    decreases ticks.len(),
{
    if ticks.len() == 0 {
        Seq::empty()
    } else {
        let next = l.polled(ticks[0].sharing);
        let later = published(next, ticks.skip(1));
        if !next.finished && tick_message(ticks[0].capture) is Some {
            seq![tick_message(ticks[0].capture)->0] + later
        } else {
            later
        }
    }
}

/// A loop publishes at most one frame per tick.
pub proof fn lemma_at_most_one_frame_per_tick(l: CaptureLoop, ticks: Seq<Tick>)
    ensures
        published(l, ticks).len() <= ticks.len(),
    decreases ticks.len(),
{
    if ticks.len() > 0 {
        lemma_at_most_one_frame_per_tick(l.polled(ticks[0].sharing), ticks.skip(1));
    }
}

/// A loop that has finished publishes nothing, whatever the sharing state
/// is afterwards.
pub proof fn lemma_finished_loop_is_silent(l: CaptureLoop, ticks: Seq<Tick>)
    requires
        l.finished,
    ensures
        published(l, ticks) == Seq::<Seq<char>>::empty(),
    decreases ticks.len(),
{
    if ticks.len() > 0 {
        lemma_finished_loop_is_silent(l.polled(ticks[0].sharing), ticks.skip(1));
    }
}

/// A running loop that meets an active session at every tick, and at
/// least one capture of which a frame can be made, publishes at least one
/// frame.
pub proof fn lemma_active_run_publishes(l: CaptureLoop, ticks: Seq<Tick>, good: int)
    requires
        !l.finished,
        forall|i: int| 0 <= i < ticks.len() ==> (#[trigger] ticks[i]).sharing,
        0 <= good < ticks.len(),
        tick_message(ticks[good].capture) is Some,
    ensures
        published(l, ticks).len() >= 1,
    decreases ticks.len(),
{
    if good > 0 {
        assert(ticks.skip(1)[good - 1] == ticks[good]);
        assert forall|i: int| 0 <= i < ticks.skip(1).len() implies (#[trigger] ticks.skip(
            1,
        )[i]).sharing by {
            assert(ticks.skip(1)[i] == ticks[i + 1]);
        }
        lemma_active_run_publishes(l.polled(ticks[0].sharing), ticks.skip(1), good - 1);
    }
}

/// Once the loop meets an inactive session, what it has published is all
/// it ever publishes.
pub proof fn lemma_stop_ends_publishing(l: CaptureLoop, before: Seq<Tick>, after: Seq<Tick>)
    requires
        after.len() > 0,
        !after[0].sharing,
    ensures
        published(l, before + after) == published(l, before),
    decreases before.len(),
{
    let all = before + after;
    if before.len() == 0 {
        assert(all =~= after);
        lemma_finished_loop_is_silent(l.polled(after[0].sharing), after.skip(1));
    } else {
        assert(all[0] == before[0]);
        assert(all.skip(1) =~= before.skip(1) + after);
        lemma_stop_ends_publishing(l.polled(before[0].sharing), before.skip(1), after);
    }
}

} // verus!
