//! The channel abstraction and the multiplexer.
//!
//! A [`ChannelEnd`] is one fork's bidirectional endpoint: items sent on it in
//! order, items delivered to it in order, nothing shared across forks.  An
//! [`Endpoint`] is one side of a multiplexed session: it assigns each fork a
//! fresh, monotonically increasing identifier — never reused within the
//! session — and demultiplexes inbound frames by fork id into per-fork
//! queues.  Within one fork id, order is preserved exactly; across fork ids
//! no order is guaranteed.
//!
//! The two sides of a session allocate from disjoint identifier spaces (the
//! initiator odd, the responder even, the root channel is id 0), so handles
//! are unique across the whole session, not merely per side.
//!
//! Cancellation policy: dropping an endpoint abandons its forks' queues and
//! sends no signal to the peer — an abandoned fork's data is simply never
//! read, and the peer's own state machines are untouched.

use vstd::prelude::*;
use crate::kind::{after_reject, ConstructError, DeconstructError, Kind};
use crate::wire::{items_view, ForkHandle, WireItem, WireItemV};

verus! {

/// A channel protocol violation, reported as a typed result rather than a
/// process abort.
#[derive(Clone, Copy, Debug, PartialEq, Eq, Structural)]
pub enum ChannelError {
    /// The addressed fork cannot exist on this endpoint.
    UnknownFork,
    /// The fork's channel is no longer open for sending.
    Closed,
}

/// One fork's endpoint: a bidirectional typed pipe.
pub struct ChannelEnd {
    sent: Vec<WireItem>,
    received: Vec<WireItem>,
    open: bool,
}

impl ChannelEnd {
    /// Items sent on this end, oldest first, not yet drained to the
    /// transport.
    pub closed spec fn sent_view(&self) -> Seq<WireItemV> {
        items_view(self.sent@)
    }

    /// Items delivered to this end and not yet consumed, oldest first.
    pub closed spec fn recv_view(&self) -> Seq<WireItemV> {
        items_view(self.received@)
    }

    /// Whether the end still accepts sends.
    pub closed spec fn is_open(&self) -> bool {
        self.open
    }

    pub fn new() -> (c: ChannelEnd)
        ensures
            c.sent_view() == Seq::<WireItemV>::empty(),
            c.recv_view() == Seq::<WireItemV>::empty(),
            c.is_open(),
    {
        let c = ChannelEnd { sent: Vec::new(), received: Vec::new(), open: true };
        proof {
            assert(c.sent_view() =~= Seq::<WireItemV>::empty());
            assert(c.recv_view() =~= Seq::<WireItemV>::empty());
        }
        c
    }

    /// Sends one item; order among sends on one fork is preserved.
    pub fn send(&mut self, item: WireItem) -> (r: Result<(), ChannelError>)
        ensures
            old(self).is_open() ==> r is Ok && final(self).sent_view() == old(self).sent_view().push(item@),
            !old(self).is_open() ==> r == Err::<(), ChannelError>(ChannelError::Closed) && final(self).sent_view() == old(self).sent_view(),
            final(self).recv_view() == old(self).recv_view(),
            final(self).is_open() == old(self).is_open(),
    {
        if self.open {
            self.sent.push(item);
            proof {
                assert(self.sent_view() =~= old(self).sent_view().push(item@));
            }
            Ok(())
        } else {
            Err(ChannelError::Closed)
        }
    }

    /// Takes the next delivered item, or nothing while the queue is empty.
    pub fn next(&mut self) -> (r: Option<WireItem>)
        ensures
            old(self).recv_view().len() > 0 ==> (r matches Some(i) && i@ == old(self).recv_view()[0]
                && final(self).recv_view() == old(self).recv_view().drop_first()),
            old(self).recv_view().len() == 0 ==> r is None && final(self).recv_view() == old(self).recv_view(),
            final(self).sent_view() == old(self).sent_view(),
            final(self).is_open() == old(self).is_open(),
    {
        if self.received.len() == 0 {
            None
        } else {
            let item = self.received.remove(0);
            proof {
                assert(self.received@ =~= old(self).received@.drop_first());
                assert(self.recv_view() =~= old(self).recv_view().drop_first());
            }
            Some(item)
        }
    }

    /// The transport hands one inbound item to this end.
    pub fn deliver(&mut self, item: WireItem)
        ensures
            final(self).recv_view() == old(self).recv_view().push(item@),
            final(self).sent_view() == old(self).sent_view(),
            final(self).is_open() == old(self).is_open(),
    {
        self.received.push(item);
        proof {
            assert(self.recv_view() =~= old(self).recv_view().push(item@));
        }
    }

    /// Closes the end for sending; delivered items remain readable.
    pub fn close(&mut self)
        ensures
            !final(self).is_open(),
            final(self).sent_view() == old(self).sent_view(),
            final(self).recv_view() == old(self).recv_view(),
    {
        self.open = false;
    }

    /// Drains the items sent so far, in order, for the transport.
    pub fn take_outgoing(&mut self) -> (out: Vec<WireItem>)
        ensures
            items_view(out@) == old(self).sent_view(),
            final(self).sent_view() == Seq::<WireItemV>::empty(),
            final(self).recv_view() == old(self).recv_view(),
            final(self).is_open() == old(self).is_open(),
    {
        let mut out: Vec<WireItem> = Vec::new();
        core::mem::swap(&mut self.sent, &mut out);
        proof {
            assert(self.sent_view() =~= Seq::<WireItemV>::empty());
        }
        out
    }

    /// How many delivered items wait unconsumed.
    pub fn pending(&self) -> (n: usize)
        ensures
            n == self.recv_view().len(),
    {
        self.received.len()
    }
}

impl crate::format::UniformStreamSink<WireItem> for ChannelEnd {
    fn send(&mut self, item: WireItem) -> Result<(), crate::format::SinkError> {
        match ChannelEnd::send(self, item) {
            Ok(u) => Ok(()),
            Err(e) => Err(crate::format::SinkError),
        }
    }

    fn next(&mut self) -> Option<WireItem> {
        ChannelEnd::next(self)
    }
}

/// One inbound or outbound unit of the multiplexed transport: an item tagged
/// with the fork it belongs to.
pub struct Frame {
    pub fork: u64,
    pub item: WireItem,
}

/// Which side of the session an endpoint is; the sides allocate fork ids of
/// different parity, so their handles can never collide.
#[derive(Clone, Copy, Debug, PartialEq, Eq, Structural)]
pub enum Role {
    Initiator,
    Responder,
}

/// The first fork id a side may allocate; id 0 is the root channel and is
/// never allocated.
pub open spec fn role_start(role: Role) -> u64 {
    match role {
        Role::Initiator => 1,
        Role::Responder => 2,
    }
}

/// Every element is smaller than each later one.
pub open spec fn strictly_increasing(s: Seq<u64>) -> bool {
    forall|i: int, j: int| 0 <= i < j < s.len() ==> s[i] < s[j]
}

/// One side of a multiplexed session.
pub struct Endpoint {
    role: Role,
    next_id: u64,
    forks: Vec<ChannelEnd>,
    issued: Ghost<Seq<u64>>,
}

impl Endpoint {
    /// The side this endpoint plays.
    pub closed spec fn role(&self) -> Role {
        self.role
    }

    /// The id the next fork will receive.
    pub closed spec fn next_fork(&self) -> u64 {
        self.next_id
    }

    /// How many fork slots exist; every id below this is addressable.
    pub closed spec fn fork_count(&self) -> nat {
        self.forks@.len()
    }

    /// Items sent on a fork, not yet drained.
    pub closed spec fn fork_sent(&self, id: int) -> Seq<WireItemV> {
        self.forks@[id].sent_view()
    }

    /// Items delivered to a fork, not yet consumed.
    pub closed spec fn fork_recv(&self, id: int) -> Seq<WireItemV> {
        self.forks@[id].recv_view()
    }

    /// Whether a fork still accepts sends.
    pub closed spec fn fork_open(&self, id: int) -> bool {
        self.forks@[id].is_open()
    }

    /// Every handle this endpoint has returned, in order of allocation.
    pub closed spec fn issued_ids(&self) -> Seq<u64> {
        self.issued@
    }

    /// The allocation invariant: ids of this side's parity, handed out in
    /// strictly increasing order, all below the allocation cursor.
    pub closed spec fn wf(&self) -> bool {
        &&& self.next_id >= role_start(self.role)
        &&& self.next_id % 2 == role_start(self.role) % 2
        &&& forall|k: int|
            0 <= k < self.issued@.len() ==> (#[trigger] self.issued@[k]) % 2 == role_start(
                self.role,
            ) % 2 && self.issued@[k] < self.next_id
        &&& strictly_increasing(self.issued@)
        &&& self.forks@.len() >= 1
    }

    pub fn new(role: Role) -> (e: Endpoint)
        ensures
            e.wf(),
            e.role() == role,
            e.next_fork() == role_start(role),
            e.fork_count() == 1,
            e.fork_sent(0) == Seq::<WireItemV>::empty(),
            e.fork_recv(0) == Seq::<WireItemV>::empty(),
            e.fork_open(0),
            e.issued_ids() == Seq::<u64>::empty(),
    {
        let start: u64 = match role {
            Role::Initiator => 1,
            Role::Responder => 2,
        };
        let mut forks: Vec<ChannelEnd> = Vec::new();
        forks.push(ChannelEnd::new());
        Endpoint { role, next_id: start, forks, issued: Ghost(Seq::empty()) }
    }

    /// Grows the fork storage until `id` is addressable; new slots are fresh
    /// open channels.
    fn ensure_slot(&mut self, id: usize)
        ensures
            final(self).fork_count() == if old(self).fork_count() > id {
                old(self).fork_count()
            } else {
                (id + 1) as nat
            },
            forall|k: int|
                0 <= k < old(self).fork_count() ==> #[trigger] final(self).fork_sent(k) == old(self).fork_sent(k),
            forall|k: int|
                0 <= k < old(self).fork_count() ==> #[trigger] final(self).fork_recv(k) == old(self).fork_recv(k),
            forall|k: int|
                0 <= k < old(self).fork_count() ==> #[trigger] final(self).fork_open(k) == old(self).fork_open(k),
            forall|k: int|
                old(self).fork_count() <= k < final(self).fork_count() ==> #[trigger] final(self).fork_sent(k) == Seq::<WireItemV>::empty(),
            forall|k: int|
                old(self).fork_count() <= k < final(self).fork_count() ==> #[trigger] final(self).fork_recv(k) == Seq::<WireItemV>::empty(),
            forall|k: int|
                old(self).fork_count() <= k < final(self).fork_count() ==> #[trigger] final(self).fork_open(k),
            final(self).role() == old(self).role(),
            final(self).next_fork() == old(self).next_fork(),
            final(self).issued_ids() == old(self).issued_ids(),
    {
        while self.forks.len() <= id
            invariant
                self.forks@.len() >= old(self).forks@.len(),
                old(self).forks@.len() > id ==> self.forks@.len() == old(self).forks@.len(),
                old(self).forks@.len() <= id ==> self.forks@.len() <= id + 1,
                forall|k: int|
                    0 <= k < old(self).forks@.len() ==> #[trigger] self.forks@[k] == old(self).forks@[k],
                forall|k: int|
                    old(self).forks@.len() <= k < self.forks@.len() ==> (
                    #[trigger] self.forks@[k]).sent_view() == Seq::<WireItemV>::empty()
                        && self.forks@[k].recv_view() == Seq::<WireItemV>::empty()
                        && self.forks@[k].is_open(),
                self.role == old(self).role,
                self.next_id == old(self).next_id,
                self.issued == old(self).issued,
            decreases id + 1 - self.forks.len(),
        {
            self.forks.push(ChannelEnd::new());
        }
    }

    /// Allocates the next fork handle.  Handles of one endpoint are strictly
    /// increasing and never reused; the two sides of a session allocate from
    /// disjoint spaces.
    pub fn fork_handle(&mut self) -> (h: ForkHandle)
        requires
            old(self).wf(),
            old(self).next_fork() + 2 <= usize::MAX as u64,
        ensures
            final(self).wf(),
            h.id == old(self).next_fork(),
            final(self).next_fork() == old(self).next_fork() + 2,
            final(self).issued_ids() == old(self).issued_ids().push(h.id),
            final(self).role() == old(self).role(),
            h.id < final(self).fork_count(),
            final(self).fork_count() >= old(self).fork_count(),
            forall|k: int|
                0 <= k < old(self).fork_count() ==> #[trigger] final(self).fork_sent(k) == old(self).fork_sent(k),
            forall|k: int|
                0 <= k < old(self).fork_count() ==> #[trigger] final(self).fork_recv(k) == old(self).fork_recv(k),
            forall|k: int|
                0 <= k < old(self).fork_count() ==> #[trigger] final(self).fork_open(k) == old(self).fork_open(k),
            forall|k: int|
                old(self).fork_count() <= k < final(self).fork_count() ==> #[trigger] final(self).fork_sent(k) == Seq::<WireItemV>::empty(),
            forall|k: int|
                old(self).fork_count() <= k < final(self).fork_count() ==> #[trigger] final(self).fork_recv(k) == Seq::<WireItemV>::empty(),
            forall|k: int|
                old(self).fork_count() <= k < final(self).fork_count() ==> #[trigger] final(self).fork_open(k),
    {
        let id = self.next_id;
        self.next_id = self.next_id + 2;
        proof {
            self.issued@ = self.issued@.push(id);
        }
        let ghost mid = *self;
        self.ensure_slot(id as usize);
        proof {
            assert(mid.fork_count() == old(self).fork_count());
            assert forall|k: int| old(self).fork_count() <= k < self.fork_count() implies
                #[trigger] self.fork_sent(k) == Seq::<WireItemV>::empty() && self.fork_recv(k)
                == Seq::<WireItemV>::empty() && self.fork_open(k) by {
                assert(self.fork_sent(k) == Seq::<WireItemV>::empty());
            }
        }
        ForkHandle { id }
    }

    /// Sends one item on a fork.
    pub fn send_on(&mut self, fork: u64, item: WireItem) -> (r: Result<(), ChannelError>)
        ensures
            fork as int >= old(self).fork_count() ==> r == Err::<(), ChannelError>(
                ChannelError::UnknownFork,
            ),
            (fork as int) < old(self).fork_count() && !old(self).fork_open(fork as int) ==> r
                == Err::<(), ChannelError>(ChannelError::Closed),
            (fork as int) < old(self).fork_count() && old(self).fork_open(fork as int) ==> r is Ok
                && final(self).fork_sent(fork as int) == old(self).fork_sent(fork as int).push(
                item@,
            ),
            r is Ok ==> (fork as int) < old(self).fork_count(),
            final(self).fork_count() == old(self).fork_count(),
            forall|k: int|
                0 <= k < old(self).fork_count() && k != fork as int ==> #[trigger] final(self).fork_sent(k) == old(self).fork_sent(k),
            forall|k: int|
                0 <= k < old(self).fork_count() ==> #[trigger] final(self).fork_recv(k) == old(self).fork_recv(k),
            forall|k: int|
                0 <= k < old(self).fork_count() ==> #[trigger] final(self).fork_open(k) == old(self).fork_open(k),
            r !is Ok ==> final(self).fork_sent(fork as int) == old(self).fork_sent(fork as int),
            final(self).role() == old(self).role(),
            final(self).next_fork() == old(self).next_fork(),
            final(self).issued_ids() == old(self).issued_ids(),
    {
        if fork >= self.forks.len() as u64 {
            Err(ChannelError::UnknownFork)
        } else {
            let idx = fork as usize;
            let ch = &mut self.forks[idx];
            ch.send(item)
        }
    }

    /// Takes the next item delivered to a fork.
    pub fn next_on(&mut self, fork: u64) -> (r: Result<Option<WireItem>, ChannelError>)
        ensures
            fork as int >= old(self).fork_count() ==> r == Err::<Option<WireItem>, ChannelError>(
                ChannelError::UnknownFork,
            ) && final(self).fork_count() == old(self).fork_count(),
            (fork as int) < old(self).fork_count() && old(self).fork_recv(fork as int).len() > 0
                ==> (r matches Ok(Some(i)) && i@ == old(self).fork_recv(fork as int)[0] && final(self).fork_recv(fork as int) == old(self).fork_recv(fork as int).drop_first()),
            (fork as int) < old(self).fork_count() && old(self).fork_recv(fork as int).len() == 0
                ==> r == Ok::<Option<WireItem>, ChannelError>(None) && final(self).fork_recv(
                fork as int,
            ) == old(self).fork_recv(fork as int),
            final(self).fork_count() == old(self).fork_count(),
            forall|k: int|
                0 <= k < old(self).fork_count() && k != fork as int ==> #[trigger] final(self).fork_recv(k) == old(self).fork_recv(k),
            forall|k: int|
                0 <= k < old(self).fork_count() ==> #[trigger] final(self).fork_sent(k) == old(self).fork_sent(k),
            forall|k: int|
                0 <= k < old(self).fork_count() ==> #[trigger] final(self).fork_open(k) == old(self).fork_open(k),
            final(self).role() == old(self).role(),
            final(self).next_fork() == old(self).next_fork(),
            final(self).issued_ids() == old(self).issued_ids(),
    {
        if fork >= self.forks.len() as u64 {
            Err(ChannelError::UnknownFork)
        } else {
            let idx = fork as usize;
            let ch = &mut self.forks[idx];
            Ok(ch.next())
        }
    }

    /// Demultiplexes one inbound frame into its fork's queue, creating the
    /// fork's slot when the peer allocated the id.
    pub fn deliver(&mut self, frame: Frame) -> (r: Result<(), ChannelError>)
        ensures
            frame.fork + 1 > usize::MAX as u64 ==> r == Err::<(), ChannelError>(
                ChannelError::UnknownFork,
            ) && final(self).fork_count() == old(self).fork_count() && forall|k: int|
                0 <= k < old(self).fork_count() ==> #[trigger] final(self).fork_recv(k) == old(self).fork_recv(k),
            frame.fork + 1 <= usize::MAX as u64 ==> r is Ok && final(self).fork_count() == (if old(self).fork_count() > frame.fork as int {
                old(self).fork_count()
            } else {
                (frame.fork + 1) as nat
            }) && final(self).fork_recv(frame.fork as int) == (if (frame.fork as int) < old(self).fork_count() {
                old(self).fork_recv(frame.fork as int)
            } else {
                Seq::<WireItemV>::empty()
            }).push(frame.item@),
            forall|k: int|
                0 <= k < old(self).fork_count() && k != frame.fork as int ==> #[trigger] final(self).fork_recv(k) == old(self).fork_recv(k),
            forall|k: int|
                0 <= k < old(self).fork_count() && k != frame.fork as int ==> #[trigger] final(self).fork_sent(k) == old(self).fork_sent(k),
            forall|k: int|
                0 <= k < old(self).fork_count() && k != frame.fork as int ==> #[trigger] final(self).fork_open(k) == old(self).fork_open(k),
            r is Ok ==> final(self).fork_sent(frame.fork as int) == (if (frame.fork as int) < old(self).fork_count() {
                old(self).fork_sent(frame.fork as int)
            } else {
                Seq::<WireItemV>::empty()
            }) && final(self).fork_open(frame.fork as int) == (if (frame.fork as int) < old(self).fork_count() {
                old(self).fork_open(frame.fork as int)
            } else {
                true
            }),
            final(self).role() == old(self).role(),
            final(self).next_fork() == old(self).next_fork(),
            final(self).issued_ids() == old(self).issued_ids(),
    {
        if frame.fork >= usize::MAX as u64 {
            return Err(ChannelError::UnknownFork);
        }
        let idx = frame.fork as usize;
        self.ensure_slot(idx);
        let ghost mid = *self;
        let ch = &mut self.forks[idx];
        ch.deliver(frame.item);
        proof {
            assert(idx as int == frame.fork as int);
            assert(self.forks@ == mid.forks@.update(idx as int, self.forks@[idx as int]));
            assert(self.fork_count() == mid.fork_count());
            assert(self.fork_recv(idx as int) == mid.fork_recv(idx as int).push(frame.item@));
            assert(mid.fork_recv(idx as int) == (if (frame.fork as int) < old(self).fork_count() {
                old(self).fork_recv(frame.fork as int)
            } else {
                Seq::<WireItemV>::empty()
            }));
            assert(self.fork_sent(idx as int) == mid.fork_sent(idx as int));
            assert(self.fork_open(idx as int) == mid.fork_open(idx as int));
            assert forall|k: int|
                0 <= k < old(self).fork_count() && k != frame.fork as int implies #[trigger] self
                .fork_recv(k) == old(self).fork_recv(k) by {
                assert(mid.fork_recv(k) == old(self).fork_recv(k));
                assert(self.forks@[k] == mid.forks@[k]);
            }
            assert forall|k: int|
                0 <= k < old(self).fork_count() && k != frame.fork as int implies #[trigger] self
                .fork_sent(k) == old(self).fork_sent(k) by {
                assert(mid.fork_sent(k) == old(self).fork_sent(k));
                assert(self.forks@[k] == mid.forks@[k]);
            }
            assert forall|k: int|
                0 <= k < old(self).fork_count() && k != frame.fork as int implies #[trigger] self
                .fork_open(k) == old(self).fork_open(k) by {
                assert(mid.fork_open(k) == old(self).fork_open(k));
                assert(self.forks@[k] == mid.forks@[k]);
            }
        }
        Ok(())
    }

    /// Drains a fork's sent items as transport frames tagged with its id.
    pub fn take_frames(&mut self, fork: u64) -> (r: Result<Vec<Frame>, ChannelError>)
        ensures
            fork as int >= old(self).fork_count() ==> r == Err::<Vec<Frame>, ChannelError>(
                ChannelError::UnknownFork,
            ),
            (fork as int) < old(self).fork_count() ==> (r matches Ok(fs) && fs@.len() == old(self).fork_sent(fork as int).len() && (forall|k: int|
                0 <= k < fs@.len() ==> (#[trigger] fs@[k]).fork == fork && fs@[k].item@ == old(self).fork_sent(fork as int)[k]) && final(self).fork_sent(fork as int)
                == Seq::<WireItemV>::empty()),
            final(self).fork_count() == old(self).fork_count(),
            forall|k: int|
                0 <= k < old(self).fork_count() && k != fork as int ==> #[trigger] final(self).fork_sent(k) == old(self).fork_sent(k),
            forall|k: int|
                0 <= k < old(self).fork_count() ==> #[trigger] final(self).fork_recv(k) == old(self).fork_recv(k),
            forall|k: int|
                0 <= k < old(self).fork_count() ==> #[trigger] final(self).fork_open(k) == old(self).fork_open(k),
            final(self).role() == old(self).role(),
            final(self).next_fork() == old(self).next_fork(),
            final(self).issued_ids() == old(self).issued_ids(),
    {
        if fork >= self.forks.len() as u64 {
            return Err(ChannelError::UnknownFork);
        }
        let idx = fork as usize;
        let ch = &mut self.forks[idx];
        let mut items = ch.take_outgoing();
        let ghost sent = old(self).fork_sent(fork as int);
        proof {
            assert(items_view(items@) =~= sent.skip(0));
        }
        let mut frames: Vec<Frame> = Vec::new();
        while items.len() > 0
            invariant
                frames@.len() + items@.len() == sent.len(),
                items_view(items@) == sent.skip(frames@.len() as int),
                forall|j: int|
                    0 <= j < frames@.len() ==> (#[trigger] frames@[j]).fork == fork
                        && frames@[j].item@ == sent[j],
            decreases items@.len(),
        {
            let ghost n = frames@.len() as int;
            let ghost items0 = items@;
            let item = items.remove(0);
            proof {
                assert(items_view(items0)[0] == items0[0]@);
                assert(item@ == sent.skip(n)[0]);
                assert(item@ == sent[n]);
                assert(items@ =~= items0.drop_first());
                assert forall|j: int| 0 <= j < items@.len() implies items_view(items@)[j]
                    == sent.skip(n + 1)[j] by {
                    assert(items_view(items0)[j + 1] == items0[j + 1]@);
                }
                assert(items_view(items@) =~= sent.skip(n + 1));
            }
            frames.push(Frame { fork, item });
        }
        Ok(frames)
    }

    /// Forks a nested value: allocates a fresh sub-channel and deconstructs
    /// the value onto it, so that an opaque handle can stand for the value
    /// in an outer message.  The handle is fresh even when the write fails:
    /// handles are never reused.
    pub fn fork_value<K: Kind>(&mut self, value: K) -> (r: Result<ForkHandle, DeconstructError>)
        requires
            old(self).wf(),
            old(self).next_fork() + 2 <= usize::MAX as u64,
        ensures
            final(self).wf(),
            final(self).role() == old(self).role(),
            final(self).next_fork() == old(self).next_fork() + 2,
            final(self).issued_ids() == old(self).issued_ids().push(old(self).next_fork()),
            final(self).fork_count() >= old(self).fork_count(),
            (old(self).next_fork() as int) < final(self).fork_count(),
            forall|k: int|
                0 <= k < old(self).fork_count() && k != old(self).next_fork() as int
                    ==> #[trigger] final(self).fork_sent(k) == old(self).fork_sent(k),
            forall|k: int|
                0 <= k < old(self).fork_count() && k != old(self).next_fork() as int
                    ==> #[trigger] final(self).fork_recv(k) == old(self).fork_recv(k),
            (old(self).next_fork() as int >= old(self).fork_count() || old(self).fork_open(
                old(self).next_fork() as int,
            )) ==> (r matches Ok(h) && h.id == old(self).next_fork() && final(self).fork_sent(
                h.id as int,
            ) == (if (h.id as int) < old(self).fork_count() {
                old(self).fork_sent(h.id as int)
            } else {
                Seq::<WireItemV>::empty()
            }) + value.wire()),
    {
        let h = self.fork_handle();
        let ghost mid = *self;
        let idx = h.id as usize;
        let ch = &mut self.forks[idx];
        let res = value.deconstruct(ch);
        proof {
            assert(self.forks@ == mid.forks@.update(idx as int, self.forks@[idx as int]));
            assert(self.fork_count() == mid.fork_count());
            assert(mid.fork_sent(idx as int) == (if (h.id as int) < old(self).fork_count() {
                old(self).fork_sent(h.id as int)
            } else {
                Seq::<WireItemV>::empty()
            }));
            if (h.id as int) >= old(self).fork_count() {
                assert(mid.fork_open(idx as int));
                assert(mid.fork_sent(idx as int) =~= Seq::<WireItemV>::empty());
            } else {
                assert(mid.fork_open(idx as int) == old(self).fork_open(h.id as int));
                assert(mid.fork_sent(idx as int) == old(self).fork_sent(h.id as int));
            }
            assert(self.fork_sent(idx as int) == self.forks@[idx as int].sent_view());
            assert forall|k: int|
                0 <= k < old(self).fork_count() && k != h.id as int implies #[trigger] self
                .fork_sent(k) == old(self).fork_sent(k) by {
                assert(mid.fork_sent(k) == old(self).fork_sent(k));
                assert(self.forks@[k] == mid.forks@[k]);
            }
            assert forall|k: int|
                0 <= k < old(self).fork_count() && k != h.id as int implies #[trigger] self
                .fork_recv(k) == old(self).fork_recv(k) by {
                assert(mid.fork_recv(k) == old(self).fork_recv(k));
                assert(self.forks@[k] == mid.forks@[k]);
            }
        }
        match res {
            Ok(u) => Ok(h),
            Err(e) => Err(e),
        }
    }

    /// Resolves a fork handle into a value: drives construction against the
    /// channel view scoped to that fork.  While the fork's data has not
    /// arrived the matching error comes back and the caller may retry once
    /// more frames were delivered; a handle whose fork is unknown here
    /// reads as an empty queue.
    pub fn get_fork<K: Kind>(&mut self, h: ForkHandle) -> (r: Result<K, ConstructError>)
        requires
            old(self).wf(),
        ensures
            final(self).wf(),
            final(self).role() == old(self).role(),
            final(self).next_fork() == old(self).next_fork(),
            final(self).issued_ids() == old(self).issued_ids(),
            final(self).fork_count() == old(self).fork_count(),
            forall|k: int|
                0 <= k < old(self).fork_count() && k != h.id as int ==> #[trigger] final(self).fork_recv(k) == old(self).fork_recv(k),
            forall|k: int|
                0 <= k < old(self).fork_count() ==> #[trigger] final(self).fork_sent(k) == old(self).fork_sent(k),
            forall|k: int|
                0 <= k < old(self).fork_count() ==> #[trigger] final(self).fork_open(k) == old(self).fork_open(k),
            (h.id as int) < old(self).fork_count() ==> {
                let queue = old(self).fork_recv(h.id as int);
                &&& K::accepts(queue) ==> (r matches Ok(v) && queue.take(v.wire().len() as int)
                    == v.wire() && final(self).fork_recv(h.id as int) == queue.skip(
                    v.wire().len() as int,
                ))
                &&& !K::accepts(queue) ==> (r matches Err(e) && e == K::reject(queue) && final(self).fork_recv(h.id as int) == after_reject(queue))
            },
            (h.id as int) >= old(self).fork_count() ==> {
                let queue = Seq::<WireItemV>::empty();
                &&& K::accepts(queue) ==> (r matches Ok(v))
                &&& !K::accepts(queue) ==> (r matches Err(e) && e == K::reject(queue))
            },
    {
        if h.id >= self.forks.len() as u64 {
            let mut vacant = ChannelEnd::new();
            proof {
                assert(vacant.recv_view() =~= Seq::<WireItemV>::empty());
            }
            K::construct(&mut vacant)
        } else {
            let ghost mid = *self;
            let idx = h.id as usize;
            let ch = &mut self.forks[idx];
            let r = K::construct(ch);
            proof {
                assert(self.forks@ == mid.forks@.update(idx as int, self.forks@[idx as int]));
                assert forall|k: int|
                    0 <= k < old(self).fork_count() && k != h.id as int implies #[trigger] self
                    .fork_recv(k) == old(self).fork_recv(k) by {
                    assert(self.forks@[k] == mid.forks@[k]);
                }
                assert forall|k: int|
                    0 <= k < old(self).fork_count() && k != h.id as int implies #[trigger] self
                    .fork_sent(k) == old(self).fork_sent(k) by {
                    assert(self.forks@[k] == mid.forks@[k]);
                }
                assert forall|k: int|
                    0 <= k < old(self).fork_count() && k != h.id as int implies #[trigger] self
                    .fork_open(k) == old(self).fork_open(k) by {
                    assert(self.forks@[k] == mid.forks@[k]);
                }
            }
            r
        }
    }

    /// Number of addressable forks, for drivers that drain every queue.
    pub fn fork_slots(&self) -> (n: usize)
        ensures
            n == self.fork_count(),
    {
        self.forks.len()
    }
}

/// Handles issued by one endpoint are pairwise distinct and strictly
/// increasing in allocation order.
pub proof fn lemma_fork_handles_unique(e: &Endpoint)
    requires
        e.wf(),
    ensures
        strictly_increasing(e.issued_ids()),
        forall|i: int, j: int|
            0 <= i < j < e.issued_ids().len() ==> e.issued_ids()[i] != e.issued_ids()[j],
{
}

/// Handles issued by the two sides of one session can never collide: the
/// sides allocate ids of different parity.
pub proof fn lemma_sides_disjoint(a: &Endpoint, b: &Endpoint)
    requires
        a.wf(),
        b.wf(),
        a.role() != b.role(),
    ensures
        forall|i: int, j: int|
            0 <= i < a.issued_ids().len() && 0 <= j < b.issued_ids().len() ==> a.issued_ids()[i]
                != b.issued_ids()[j],
{
    assert forall|i: int, j: int|
        0 <= i < a.issued_ids().len() && 0 <= j < b.issued_ids().len() implies a.issued_ids()[i]
        != b.issued_ids()[j] by {
        assert(a.issued_ids()[i] % 2 == role_start(a.role()) % 2);
        assert(b.issued_ids()[j] % 2 == role_start(b.role()) % 2);
        assert(role_start(a.role()) % 2 != role_start(b.role()) % 2);
    }
}

} // verus!
