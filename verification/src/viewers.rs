//! The presenter's viewers: accepting connections, and the task that
//! forwards broadcast messages to one of them.
//!
//! Each viewer has a task of its own. A task knows nothing of the other
//! tasks: it is moved by the sharing state, by what its own subscription
//! yields and by what becomes of its own writes.

use vstd::prelude::*;
use crate::notify::Notification;
use crate::text::text_of;

verus! {

/// The number of published messages that the broadcast keeps for a viewer
/// that is slow to take them. A viewer that falls further behind loses the
/// oldest ones.
pub const BACKLOG: usize = 16;

/// Whether the accept loop waits for one more connection: it does so
/// while the session is active.
pub fn accept_more(sharing: bool) -> (more: bool)
    ensures
        more == sharing,
{
    sharing
}

/// Takes the outcome of waiting for a connection; `remote` is the address
/// of the peer where one connected.
///
/// A connection is announced to the host shell and gets a forwarding task
/// of its own, which the caller subscribes to the broadcast and runs. A
/// failed accept gives nothing, and the loop goes on.
pub fn on_accept(remote: Option<String>) -> (r: Option<(Notification, ForwardTask)>)
    ensures
        remote is None ==> r is None,
        remote is Some ==> (r matches Some((note, task)) && note matches Notification::ClientConnected(
            address,
        ) && address@ == remote->0@ && task.state is Upgrading),
{
    match remote {
        None => None,
        Some(address) => Some((Notification::ClientConnected(address), ForwardTask::new())),
    }
}

/// Where a forwarding task stands.
#[derive(Clone, Copy, Debug, PartialEq, Eq, Structural)]
pub enum ForwardState {
    /// The connection is being promoted to a streaming channel.
    Upgrading,
    /// Broadcast messages are written to the connection.
    Streaming,
    /// The task is over.
    Closed,
}

/// What a subscription to the broadcast yields.
#[derive(Clone, Debug, PartialEq, Eq)]
pub enum Broadcast {
    /// The next message, in the order of publishing.
    Message(String),
    /// The subscriber was too slow: this many of the oldest messages were
    /// dropped from its backlog.
    Lagged(u64),
    /// Nothing more will come.
    Closed,
}

/// The task that forwards broadcast messages to one viewer.
#[derive(Clone, Copy, Debug, PartialEq, Eq, Structural)]
pub struct ForwardTask {
    pub state: ForwardState,
}

impl ForwardTask {
    /// The task after the upgrade of its connection ended.
    pub open spec fn upgraded(self, ok: bool) -> ForwardTask {
        if self.state is Upgrading {
            ForwardTask {
                state: if ok {
                    ForwardState::Streaming
                } else {
                    ForwardState::Closed
                },
            }
        } else {
            self
        }
    }

    /// The task after it looked at the sharing state.
    pub open spec fn polled(self, sharing: bool) -> ForwardTask {
        if self.state is Streaming && !sharing {
            ForwardTask { state: ForwardState::Closed }
        } else {
            self
        }
    }

    /// The task after its subscription yielded `event`.
    pub open spec fn received(self, event: Broadcast) -> ForwardTask {
        if self.state is Streaming && event is Closed {
            ForwardTask { state: ForwardState::Closed }
        } else {
            self
        }
    }

    /// The message that the task writes to its connection for `event`.
    pub open spec fn outgoing(self, event: Broadcast) -> Option<Seq<char>> {
        match event {
            Broadcast::Message(text) => if self.state is Streaming {
                Some(text@)
            } else {
                None
            },
            _ => None,
        }
    }

    /// The task after a write to its connection ended.
    pub open spec fn wrote(self, ok: bool) -> ForwardTask {
        if self.state is Streaming && !ok {
            ForwardTask { state: ForwardState::Closed }
        } else {
            self
        }
    }

    /// A task for a connection that was just accepted.
    pub fn new() -> (task: ForwardTask)
        ensures
            task.state is Upgrading,
    {
        ForwardTask { state: ForwardState::Upgrading }
    }

    /// Takes the outcome of promoting the connection to a streaming
    /// channel. A connection that fails the upgrade is dropped.
    pub fn on_upgrade(&mut self, ok: bool)
        ensures
            *final(self) == old(self).upgraded(ok),
    {
        match self.state {
            ForwardState::Upgrading => {
                self.state = if ok {
                    ForwardState::Streaming
                } else {
                    ForwardState::Closed
                };
            },
            _ => {},
        }
    }

    /// Looks at the sharing state at the head of the loop. The result says
    /// whether to wait for the next broadcast message; the task is over
    /// once the session is no longer active.
    pub fn poll(&mut self, sharing: bool) -> (receive: bool)
        ensures
            *final(self) == old(self).polled(sharing),
            receive == (final(self).state is Streaming),
    {
        match self.state {
            ForwardState::Streaming => {
                if sharing {
                    true
                } else {
                    self.state = ForwardState::Closed;
                    false
                }
            },
            _ => false,
        }
    }

    /// Takes what the subscription yielded. The result is the message to
    /// write to the connection, if any. Lost messages are passed over; a
    /// subscription that has nothing more to give ends the task.
    pub fn on_broadcast(&mut self, event: Broadcast) -> (text: Option<String>)
        ensures
            *final(self) == old(self).received(event),
            text_of(text) == old(self).outgoing(event),
    {
        match self.state {
            ForwardState::Streaming => match event {
                Broadcast::Message(text) => Some(text),
                Broadcast::Lagged(_) => None,
                Broadcast::Closed => {
                    self.state = ForwardState::Closed;
                    None
                },
            },
            _ => None,
        }
    }

    /// Takes the outcome of a write to the connection. A failed write ends
    /// the task.
    pub fn on_write(&mut self, ok: bool)
        ensures
            *final(self) == old(self).wrote(ok),
    {
        match self.state {
            ForwardState::Streaming => {
                if !ok {
                    self.state = ForwardState::Closed;
                }
            },
            _ => {},
        }
    }
}

/// One turn of a forwarding task's loop: the sharing state at the head of
/// the loop, what the subscription then yields, and whether the write
/// succeeds if one is made.
pub struct ForwardTurn {
    pub sharing: bool,
    pub event: Broadcast,
    pub written: bool,
}

/// The messages that the subscription yields over the turns, in order.
pub open spec fn yielded(turns: Seq<ForwardTurn>) -> Seq<Seq<char>>
    decreases turns.len(),
{
    if turns.len() == 0 {
        Seq::empty()
    } else {
        match turns[0].event {
            Broadcast::Message(text) => seq![text@] + yielded(turns.skip(1)),
            _ => yielded(turns.skip(1)),
        }
    }
}

impl ForwardTask {
    /// The task after one whole turn of its loop.
    pub open spec fn after_turn(self, t: ForwardTurn) -> ForwardTask {
        let polled = self.polled(t.sharing);
        let received = polled.received(t.event);
        if polled.outgoing(t.event) is Some {
            received.wrote(t.written)
        } else {
            received
        }
    }

    /// The message that reaches the viewer in one turn, if any: the one
    /// that the task writes, where the write succeeds.
    pub open spec fn delivers(self, t: ForwardTurn) -> Option<Seq<char>> {
        if t.written {
            self.polled(t.sharing).outgoing(t.event)
        } else {
            None
        }
    }
}

/// The number of turns that the task gets through before it ends.
pub open spec fn served(task: ForwardTask, turns: Seq<ForwardTurn>) -> nat
    decreases turns.len(),
{
    if turns.len() == 0 || !(task.after_turn(turns[0]).state is Streaming) {
        0
    } else {
        1 + served(task.after_turn(turns[0]), turns.skip(1))
    }
}

/// The messages that reach the viewer over the turns, in order.
pub open spec fn delivered(task: ForwardTask, turns: Seq<ForwardTurn>) -> Seq<Seq<char>>
    decreases turns.len(),
{
    if turns.len() == 0 {
        Seq::empty()
    } else {
        let later = delivered(task.after_turn(turns[0]), turns.skip(1));
        match task.delivers(turns[0]) {
            Some(text) => seq![text] + later,
            None => later,
        }
    }
}

/// A task that is over delivers nothing.
pub proof fn lemma_closed_task_is_silent(task: ForwardTask, turns: Seq<ForwardTurn>)
    requires
        !(task.state is Streaming),
    ensures
        delivered(task, turns) == Seq::<Seq<char>>::empty(),
    decreases turns.len(),
{
    if turns.len() > 0 {
        lemma_closed_task_is_silent(task.after_turn(turns[0]), turns.skip(1));
    }
}

/// A viewer receives the messages that its subscription yields in the
/// order in which they are yielded, each once, up to the turn at which its
/// task ends: nothing is reordered, repeated or made up.
pub proof fn lemma_forwarding_keeps_order(task: ForwardTask, turns: Seq<ForwardTurn>)
    requires
        task.state is Streaming,
    ensures
        served(task, turns) <= turns.len(),
        delivered(task, turns) == yielded(turns.take(served(task, turns) as int)),
    decreases turns.len(),
{
    if turns.len() == 0 {
        assert(turns.take(0) =~= turns);
    } else {
        let t = turns[0];
        let next = task.after_turn(t);
        if next.state is Streaming {
            lemma_forwarding_keeps_order(next, turns.skip(1));
            let n = served(next, turns.skip(1)) as int;
            assert(turns.take(n + 1)[0] == t);
            assert(turns.take(n + 1).skip(1) =~= turns.skip(1).take(n));
        } else {
            lemma_closed_task_is_silent(next, turns.skip(1));
            assert(task.delivers(t) is None);
            assert(turns.take(0).len() == 0);
        }
    }
}

/// While the session is active, a viewer whose own writes succeed receives
/// every message that its subscription yields, whatever becomes of the
/// other viewers.
pub proof fn lemma_healthy_viewer_receives_all(task: ForwardTask, turns: Seq<ForwardTurn>)
    requires
        task.state is Streaming,
        forall|i: int|
            0 <= i < turns.len() ==> (#[trigger] turns[i]).sharing && turns[i].written
                && !(turns[i].event is Closed),
    ensures
        delivered(task, turns) == yielded(turns),
    decreases turns.len(),
{
    if turns.len() > 0 {
        let t = turns[0];
        assert(t.sharing && t.written && !(t.event is Closed));
        let next = task.after_turn(t);
        assert forall|i: int| 0 <= i < turns.skip(1).len() implies (#[trigger] turns.skip(
            1,
        )[i]).sharing && turns.skip(1)[i].written && !(turns.skip(1)[i].event is Closed) by {
            assert(turns.skip(1)[i] == turns[i + 1]);
        }
        lemma_healthy_viewer_receives_all(next, turns.skip(1));
    }
}

/// Whether `part` can be had from `whole` by leaving messages out: the
/// messages of `part` occur in `whole`, in the same order.
pub open spec fn is_selection(part: Seq<Seq<char>>, whole: Seq<Seq<char>>) -> bool
    decreases whole.len(),
{
    if part.len() == 0 {
        true
    } else if whole.len() == 0 {
        false
    } else {
        (part[0] == whole[0] && is_selection(part.skip(1), whole.skip(1))) || is_selection(
            part,
            whole.skip(1),
        )
    }
}

/// The first messages of a selection are a selection.
proof fn lemma_selection_prefix(part: Seq<Seq<char>>, more: Seq<Seq<char>>, whole: Seq<Seq<char>>)
    requires
        is_selection(part + more, whole),
    ensures
        is_selection(part, whole),
    decreases whole.len(),
{
    let all = part + more;
    if part.len() > 0 && whole.len() > 0 {
        assert(all[0] == part[0]);
        assert(all.skip(1) =~= part.skip(1) + more);
        if all[0] == whole[0] && is_selection(all.skip(1), whole.skip(1)) {
            lemma_selection_prefix(part.skip(1), more, whole.skip(1));
        } else {
            lemma_selection_prefix(part, more, whole.skip(1));
        }
    }
}

/// What is yielded over a run of turns is what is yielded over its first
/// turns, and then over the rest.
proof fn lemma_yielded_split(turns: Seq<ForwardTurn>, n: int)
    requires
        0 <= n <= turns.len(),
    ensures
        yielded(turns) == yielded(turns.take(n)) + yielded(turns.skip(n)),
    decreases n,
{
    if n == 0 {
        assert(turns.skip(0) =~= turns);
        assert(yielded(turns.take(0)) =~= Seq::<Seq<char>>::empty());
        assert(yielded(turns) =~= yielded(turns.take(0)) + yielded(turns.skip(0)));
    } else {
        lemma_yielded_split(turns.skip(1), n - 1);
        assert(turns.take(n)[0] == turns[0]);
        assert(turns.take(n).skip(1) =~= turns.skip(1).take(n - 1));
        assert(turns.skip(1).skip(n - 1) =~= turns.skip(n));
        assert(yielded(turns) =~= yielded(turns.take(n)) + yielded(turns.skip(n)));
    }
}

/// Where the subscription yields published messages in the order of
/// publishing, with or without gaps, the viewer receives published
/// messages in the order of publishing: never one that was published
/// before one that it has received already.
pub proof fn lemma_delivery_follows_publishing(
    task: ForwardTask,
    turns: Seq<ForwardTurn>,
    published: Seq<Seq<char>>,
)
    requires
        task.state is Streaming,
        is_selection(yielded(turns), published),
    ensures
        is_selection(delivered(task, turns), published),
{
    lemma_forwarding_keeps_order(task, turns);
    let n = served(task, turns) as int;
    lemma_yielded_split(turns, n);
    lemma_selection_prefix(yielded(turns.take(n)), yielded(turns.skip(n)), published);
}

} // verus!
