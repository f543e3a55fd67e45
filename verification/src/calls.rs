//! Remote-callable values: the generalized call stub.
//!
//! A callable value is itself transferable: the side owning the real
//! function answers requests in a loop — receive the argument handles,
//! reconstruct each argument from its fork, invoke, fork the result, send
//! the result's handle back.  The side holding the stub sends one request
//! per call and resolves the returned handle.  One implementation covers
//! every arity: a request carries one argument handle per parameter (or the
//! bare request shape for zero parameters).
//!
//! Concurrent local callers of one shared stub are serialized: the stub
//! holds its channel exclusively from request to response, so two calls can
//! never interleave their argument-handle sends.

use vstd::prelude::*;
use crate::wire::{ForkHandle, WireItem, WireItemV};

verus! {

/// Calling discipline of a remote-callable value.
#[derive(Clone, Copy, Debug, PartialEq, Eq, Structural)]
pub enum Discipline {
    /// Callable again and again.
    Repeat,
    /// Exactly one round; afterwards the stub and its channel are spent.
    Once,
}

/// A misuse of the call protocol, reported as a typed result.
#[derive(Clone, Copy, Debug, PartialEq, Eq, Structural)]
pub enum CallError {
    /// Another call of this stub still holds the channel.
    Busy,
    /// A call-once value has already completed its round.
    Spent,
    /// The number of argument handles does not match the arity.
    BadArity,
    /// An item of the wrong shape for the current protocol state.
    Protocol,
}

/// One event of a stub's request/response history.
pub enum CallEvent {
    /// A request left the stub, carrying these argument handles.
    Requested(Seq<u64>),
    /// The response arrived: the result's fork handle.
    Responded(u64),
}

/// A well-formed call history strictly alternates: requests at even
/// positions, responses at odd ones.
pub open spec fn call_history_wf(h: Seq<CallEvent>) -> bool {
    forall|k: int| 0 <= k < h.len() ==> ((#[trigger] h[k]) is Requested <==> k % 2 == 0)
}

/// The caller side of a remote-callable value: a local stub with exclusive
/// access to its channel.
pub struct Stub {
    arity: usize,
    discipline: Discipline,
    busy: bool,
    spent: bool,
    history: Ghost<Seq<CallEvent>>,
}

impl Stub {
    /// Number of arguments a call takes.
    pub closed spec fn arity(&self) -> usize {
        self.arity
    }

    pub closed spec fn discipline(&self) -> Discipline {
        self.discipline
    }

    /// Whether a call currently holds the channel, between its request and
    /// its response.
    pub closed spec fn is_busy(&self) -> bool {
        self.busy
    }

    /// Whether a call-once stub has completed its round.
    pub closed spec fn is_spent(&self) -> bool {
        self.spent
    }

    /// Everything this stub ever put on or took off the channel, in order.
    pub closed spec fn history_view(&self) -> Seq<CallEvent> {
        self.history@
    }

    /// The stub invariant: the history alternates, the channel is held
    /// exactly while a request is unanswered, and a call-once stub is spent
    /// exactly after one full round.
    pub closed spec fn wf(&self) -> bool {
        &&& call_history_wf(self.history@)
        &&& self.busy <==> self.history@.len() % 2 == 1
        &&& self.spent <==> (self.discipline is Once && self.history@.len() >= 2)
        &&& self.discipline is Once ==> self.history@.len() <= 2
    }

    pub fn new(arity: usize, discipline: Discipline) -> (s: Stub)
        ensures
            s.wf(),
            s.arity() == arity,
            s.discipline() == discipline,
            !s.is_busy(),
            !s.is_spent(),
            s.history_view() == Seq::<CallEvent>::empty(),
    {
        Stub { arity, discipline, busy: false, spent: false, history: Ghost(Seq::empty()) }
    }

    /// Begins a call: acquires the channel and produces the request item to
    /// send — the bare request for a zero-argument stub, the argument
    /// handle list otherwise.  A stub whose channel is held, or a spent
    /// call-once stub, refuses; concurrent callers therefore serialize.
    pub fn begin_call(&mut self, args: &Vec<ForkHandle>) -> (r: Result<WireItem, CallError>)
        requires
            old(self).wf(),
        ensures
            final(self).wf(),
            final(self).arity() == old(self).arity(),
            final(self).discipline() == old(self).discipline(),
            old(self).is_spent() ==> r == Err::<WireItem, CallError>(CallError::Spent) && final(self).history_view() == old(self).history_view(),
            !old(self).is_spent() && old(self).is_busy() ==> r == Err::<WireItem, CallError>(
                CallError::Busy,
            ) && final(self).history_view() == old(self).history_view(),
            !old(self).is_spent() && !old(self).is_busy() && args@.len() != old(self).arity() ==> r
                == Err::<WireItem, CallError>(CallError::BadArity) && final(self).history_view()
                == old(self).history_view(),
            !old(self).is_spent() && !old(self).is_busy() && args@.len() == old(self).arity()
                ==> (r matches Ok(item) && item@ == (if old(self).arity() == 0 {
                WireItemV::Request
            } else {
                WireItemV::Handles(args@.map_values(|h: ForkHandle| h.id))
            }) && final(self).history_view() == old(self).history_view().push(
                CallEvent::Requested(args@.map_values(|h: ForkHandle| h.id)),
            ) && final(self).is_busy()),
    {
        if self.spent {
            return Err(CallError::Spent);
        }
        if self.busy {
            return Err(CallError::Busy);
        }
        if args.len() != self.arity {
            return Err(CallError::BadArity);
        }
        self.busy = true;
        proof {
            self.history@ = self.history@.push(
                CallEvent::Requested(args@.map_values(|h: ForkHandle| h.id)),
            );
        }
        if self.arity == 0 {
            Ok(WireItem::Request)
        } else {
            let mut hs: Vec<ForkHandle> = Vec::new();
            let mut k: usize = 0;
            while k < args.len()
                invariant
                    k <= args@.len(),
                    hs@ == args@.take(k as int),
                decreases args@.len() - k,
            {
                hs.push(args[k]);
                proof {
                    assert(hs@ =~= args@.take(k as int + 1));
                }
                k += 1;
            }
            proof {
                assert(hs@ =~= args@);
            }
            Ok(WireItem::Handles(hs))
        }
    }

    /// Completes a call: consumes the response item, releases the channel,
    /// and yields the result's fork handle.  A call-once stub is spent from
    /// here on.
    pub fn on_response(&mut self, item: WireItem) -> (r: Result<ForkHandle, CallError>)
        requires
            old(self).wf(),
        ensures
            final(self).wf(),
            final(self).arity() == old(self).arity(),
            final(self).discipline() == old(self).discipline(),
            !old(self).is_busy() ==> r == Err::<ForkHandle, CallError>(CallError::Protocol)
                && final(self).history_view() == old(self).history_view(),
            old(self).is_busy() && !(item@ is Handle) ==> r == Err::<ForkHandle, CallError>(
                CallError::Protocol,
            ) && final(self).history_view() == old(self).history_view(),
            old(self).is_busy() && item@ is Handle ==> (r matches Ok(h) && h.id == item@->Handle_0
                && final(self).history_view() == old(self).history_view().push(
                CallEvent::Responded(item@->Handle_0),
            ) && !final(self).is_busy() && (final(self).is_spent() <==> old(self).discipline()
                is Once)),
    {
        if !self.busy {
            return Err(CallError::Protocol);
        }
        match item {
            WireItem::Handle(h) => {
                self.busy = false;
                if matches!(self.discipline, Discipline::Once) {
                    self.spent = true;
                }
                proof {
                    self.history@ = self.history@.push(CallEvent::Responded(h.id));
                }
                Ok(h)
            },
            _ => Err(CallError::Protocol),
        }
    }
}

/// Between any two requests of one stub stands the response that completed
/// the earlier call: concurrent callers never interleave their sends, each
/// call's full round trip finishes before the next request leaves.
pub proof fn lemma_calls_serialized(s: &Stub)
    requires
        s.wf(),
    ensures
        forall|i: int, j: int|
            0 <= i < j < s.history_view().len() && s.history_view()[i] is Requested
                && s.history_view()[j] is Requested ==> exists|m: int|
                i < m < j && !((#[trigger] s.history_view()[m]) is Requested),
{
    let h = s.history_view();
    assert forall|i: int, j: int|
        0 <= i < j < h.len() && h[i] is Requested && h[j] is Requested implies exists|m: int|
        i < m < j && !((#[trigger] h[m]) is Requested) by {
        assert(i % 2 == 0 && j % 2 == 0);
        assert(i + 1 < j);
        assert(!(h[i + 1] is Requested));
    }
}

/// Protocol state of the side that owns the real function.
#[derive(Clone, Copy, Debug, PartialEq, Eq, Structural)]
pub enum CalleeState {
    /// Waiting for the next request.
    Awaiting,
    /// A request was accepted; the function is being applied.
    Invoking,
    /// A call-once value has answered its one round.
    Spent,
}

/// The callee side of a remote-callable value: accepts one request, hands
/// the argument handles out for reconstruction, and turns the forked result
/// into the response item.
pub struct CalleeSession {
    arity: usize,
    discipline: Discipline,
    state: CalleeState,
}

impl CalleeSession {
    pub closed spec fn arity(&self) -> usize {
        self.arity
    }

    pub closed spec fn discipline(&self) -> Discipline {
        self.discipline
    }

    pub closed spec fn state(&self) -> CalleeState {
        self.state
    }

    pub fn new(arity: usize, discipline: Discipline) -> (s: CalleeSession)
        ensures
            s.arity() == arity,
            s.discipline() == discipline,
            s.state() == CalleeState::Awaiting,
    {
        CalleeSession { arity, discipline, state: CalleeState::Awaiting }
    }

    /// Accepts one request item and yields the argument handles to
    /// reconstruct, one per parameter and in parameter order.
    pub fn on_request(&mut self, item: WireItem) -> (r: Result<Vec<ForkHandle>, CallError>)
        ensures
            final(self).arity() == old(self).arity(),
            final(self).discipline() == old(self).discipline(),
            old(self).state() != CalleeState::Awaiting ==> r == Err::<Vec<ForkHandle>, CallError>(
                CallError::Protocol,
            ) && final(self).state() == old(self).state(),
            old(self).state() == CalleeState::Awaiting && item@ is Request && old(self).arity()
                == 0 ==> (r matches Ok(args) && args@.len() == 0 && final(self).state()
                == CalleeState::Invoking),
            old(self).state() == CalleeState::Awaiting && item@ is Request && old(self).arity()
                != 0 ==> r == Err::<Vec<ForkHandle>, CallError>(
                CallError::BadArity,
            ) && final(self).state() == CalleeState::Awaiting,
            old(self).state() == CalleeState::Awaiting && item@ is Handles ==> (if (
            item@->Handles_0).len() == old(self).arity() && old(self).arity() != 0 {
                r matches Ok(args) && args@.map_values(|h: ForkHandle| h.id) == item@->Handles_0
                    && final(self).state() == CalleeState::Invoking
            } else {
                r == Err::<Vec<ForkHandle>, CallError>(CallError::BadArity) && final(self).state()
                    == CalleeState::Awaiting
            }),
            old(self).state() == CalleeState::Awaiting && !(item@ is Request) && !(item@
                is Handles) ==> r == Err::<Vec<ForkHandle>, CallError>(
                CallError::Protocol,
            ) && final(self).state() == CalleeState::Awaiting,
    {
        if !matches!(self.state, CalleeState::Awaiting) {
            return Err(CallError::Protocol);
        }
        match item {
            WireItem::Request => {
                if self.arity == 0 {
                    self.state = CalleeState::Invoking;
                    Ok(Vec::new())
                } else {
                    Err(CallError::BadArity)
                }
            },
            WireItem::Handles(hs) => {
                if hs.len() == self.arity && self.arity != 0 {
                    self.state = CalleeState::Invoking;
                    Ok(hs)
                } else {
                    Err(CallError::BadArity)
                }
            },
            _ => Err(CallError::Protocol),
        }
    }

    /// The function's result has been forked; produces the response item
    /// carrying the result's handle.  A call-once value is spent, any other
    /// awaits its next request.
    pub fn on_result(&mut self, result: ForkHandle) -> (r: Result<WireItem, CallError>)
        ensures
            final(self).arity() == old(self).arity(),
            final(self).discipline() == old(self).discipline(),
            old(self).state() != CalleeState::Invoking ==> r == Err::<WireItem, CallError>(
                CallError::Protocol,
            ) && final(self).state() == old(self).state(),
            old(self).state() == CalleeState::Invoking ==> (r matches Ok(item) && item@
                == WireItemV::Handle(result.id) && final(self).state() == (if old(self).discipline() is Once {
                CalleeState::Spent
            } else {
                CalleeState::Awaiting
            })),
    {
        if !matches!(self.state, CalleeState::Invoking) {
            return Err(CallError::Protocol);
        }
        if matches!(self.discipline, Discipline::Once) {
            self.state = CalleeState::Spent;
        } else {
            self.state = CalleeState::Awaiting;
        }
        Ok(WireItem::Handle(result))
    }
}

} // verus!
