//! The runtime's rules: one turn at a time, numbered turns, cancellation.

use vstd::prelude::*;

use crate::error::{Error, ErrorView};
use crate::event::{AgentEvent, AgentEventView};
use crate::message::{no_usage, Usage};
use crate::seqs::{group_views, views};
use crate::text::join2;

verus! {

broadcast use group_views;

/// Whether a turn is running, which number the next one gets, and the handle
/// `C` by which the running turn is cancelled.
#[derive(Debug)]
pub struct Runtime<C> {
    busy: bool,
    next_turn_id: u64,
    cancel: Option<C>,
}

/// What a [`Runtime`] stands for.
pub struct RuntimeView<C> {
    pub busy: bool,
    pub next_turn_id: u64,
    pub cancel: Option<C>,
}

impl<C> View for Runtime<C> {
    type V = RuntimeView<C>;

    closed spec fn view(&self) -> RuntimeView<C> {
        RuntimeView { busy: self.busy, next_turn_id: self.next_turn_id, cancel: self.cancel }
    }
}

impl<C> Runtime<C> {
    /// An idle runtime; turns are numbered from 1.
    pub fn new() -> (r: Runtime<C>)
        ensures
            r@ == (RuntimeView { busy: false, next_turn_id: 1, cancel: None::<C> }),
    {
        Runtime { busy: false, next_turn_id: 1, cancel: None }
    }

    /// Whether a turn is running.
    pub fn is_busy(&self) -> (r: bool)
        ensures
            r == self@.busy,
    {
        self.busy
    }

    /// Starts a turn, which `handle` cancels, and returns its number.
    /// Rejected while another turn is running: one session has one active
    /// turn.
    pub fn submit(&mut self, handle: C) -> (r: Result<u64, Error>)
        ensures
            match r {
                Ok(id) => {
                    &&& !old(self)@.busy
                    &&& id == old(self)@.next_turn_id
                    &&& final(self)@ == (RuntimeView {
                        busy: true,
                        next_turn_id: id.wrapping_add(1),
                        cancel: Some(handle),
                    })
                },
                Err(e) => {
                    &&& old(self)@.busy
                    &&& e@ == ErrorView::Busy
                    &&& final(self)@ == old(self)@
                },
            },
    {
        if self.busy {
            return Err(Error::Busy);
        }
        self.busy = true;
        let id: u64 = self.next_turn_id;
        self.next_turn_id = id.wrapping_add(1);
        self.cancel = Some(handle);
        Ok(id)
    }

    /// The running turn is to be cancelled: hands out its handle. Nothing
    /// where none is running, or where it was cancelled already.
    pub fn cancel(&mut self) -> (r: Option<C>)
        ensures
            r == old(self)@.cancel,
            final(self)@ == (RuntimeView { cancel: None, ..old(self)@ }),
    {
        let mut c: Option<C> = None;
        std::mem::swap(&mut c, &mut self.cancel);
        c
    }

    /// The running turn has ended. To be called before its event stream is
    /// closed, so that whoever drained the stream can submit again at once.
    pub fn finish(&mut self)
        ensures
            final(self)@ == (RuntimeView::<C> {
                busy: false,
                next_turn_id: old(self)@.next_turn_id,
                cancel: None,
            }),
    {
        self.busy = false;
        self.cancel = None;
    }
}

/// The events that end the stream of a turn whose task crashed.
pub fn crash_events(reason: &str) -> (r: Vec<AgentEvent>)
    ensures
        views(r@) == seq![
            AgentEventView::Error { message: "agent task crashed: "@ + reason@ },
            AgentEventView::TurnCompleted { usage: no_usage() },
        ],
{
    let mut r: Vec<AgentEvent> = Vec::new();
    r.push(AgentEvent::Error { message: join2("agent task crashed: ", reason) });
    r.push(AgentEvent::TurnCompleted { usage: Usage::default() });
    assert(views(r@) =~= seq![
        AgentEventView::Error { message: "agent task crashed: "@ + reason@ },
        AgentEventView::TurnCompleted { usage: no_usage() },
    ]);
    r
}

} // verus!
