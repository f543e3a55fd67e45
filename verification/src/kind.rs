//! The construct/deconstruct contract.
//!
//! A [`Kind`] is a type whose entire wire identity is the sequence of items
//! it sends over a channel.  Deconstruction writes the value's wire image;
//! construction consumes exactly one such image from the receive queue and
//! yields a value with that image.  Primitive types use the trivial
//! realization: one message out, one message in, no forking.
//!
//! A mid-stream protocol violation (an item of the wrong shape) is reported
//! as a typed error, never as a process abort; the violating item is spent.

use vstd::prelude::*;
use crate::channel::ChannelEnd;
use crate::format::{lemma_parse_serialize, parse_item, serialize};
use crate::wire::{items_view, ForkHandle, Primitive, PrimitiveV, WireItem, WireItemV};

verus! {

/// Why construction failed.
#[derive(Clone, Copy, Debug, PartialEq, Eq, Structural)]
pub enum ConstructError {
    /// The channel ran dry before enough items arrived.
    Insufficient { got: usize, expected: usize },
    /// An item of the wrong shape arrived.
    Unexpected,
    /// A request or acknowledgement could not be sent.
    Send,
}

/// Why deconstruction failed.
#[derive(Clone, Copy, Debug, PartialEq, Eq, Structural)]
pub enum DeconstructError {
    /// An item could not be sent on the outbound channel.
    Send,
}

/// What is left of a receive queue after a failed construction: an empty
/// queue stays empty, otherwise the violating head item is spent.
pub open spec fn after_reject(items: Seq<WireItemV>) -> Seq<WireItemV> {
    if items.len() == 0 {
        items
    } else {
        items.drop_first()
    }
}

/// A type with a defined construct/deconstruct contract over a channel.
pub trait Kind: Sized {
    /// The items this value sends when deconstructed, in order.
    spec fn wire(&self) -> Seq<WireItemV>;

    /// Whether a received item sequence begins with a value of this type.
    spec fn accepts(items: Seq<WireItemV>) -> bool;

    /// The error construction reports when `accepts` fails.
    spec fn reject(items: Seq<WireItemV>) -> ConstructError;

    /// A value's own wire image is accepted, whatever follows it.
    proof fn lemma_wire_accepts(&self, rest: Seq<WireItemV>)
        ensures
            Self::accepts(self.wire() + rest),
    ;

    /// All values of one kind have wire images of one length, so a consumed
    /// image's length is known from the type alone.
    proof fn lemma_wire_uniform(&self, other: &Self)
        ensures
            self.wire().len() == other.wire().len(),
    ;

    /// Writes the value onto the channel as its wire image.
    fn deconstruct(self, channel: &mut ChannelEnd) -> (r: Result<(), DeconstructError>)
        ensures
            old(channel).is_open() ==> r is Ok && final(channel).sent_view() == old(
                channel,
            ).sent_view() + self.wire(),
            !old(channel).is_open() ==> r == Err::<(), DeconstructError>(DeconstructError::Send)
                && final(channel).sent_view() == old(channel).sent_view(),
            final(channel).recv_view() == old(channel).recv_view(),
            final(channel).is_open() == old(channel).is_open(),
    ;

    /// Reads one value of this type from the channel.  Exactly the value's
    /// own wire image is consumed on success; on failure the matching error
    /// is returned and at most the violating head item is spent.
    fn construct(channel: &mut ChannelEnd) -> (r: Result<Self, ConstructError>)
        ensures
            Self::accepts(old(channel).recv_view()) ==> (r matches Ok(v) && old(
                channel,
            ).recv_view().take(v.wire().len() as int) == v.wire() && final(channel).recv_view()
                == old(channel).recv_view().skip(v.wire().len() as int)),
            !Self::accepts(old(channel).recv_view()) ==> (r matches Err(e) && e == Self::reject(
                old(channel).recv_view(),
            ) && final(channel).recv_view() == after_reject(old(channel).recv_view())),
            final(channel).sent_view() == old(channel).sent_view(),
            final(channel).is_open() == old(channel).is_open(),
    ;
}

impl Kind for u64 {
    open spec fn wire(&self) -> Seq<WireItemV> {
        seq![WireItemV::Value(PrimitiveV::Uint(*self))]
    }

    open spec fn accepts(items: Seq<WireItemV>) -> bool {
        items.len() >= 1 && items[0] matches WireItemV::Value(PrimitiveV::Uint(_))
    }

    open spec fn reject(items: Seq<WireItemV>) -> ConstructError {
        if items.len() == 0 {
            ConstructError::Insufficient { got: 0, expected: 1 }
        } else {
            ConstructError::Unexpected
        }
    }

    proof fn lemma_wire_accepts(&self, rest: Seq<WireItemV>) {
        assert((self.wire() + rest)[0] == self.wire()[0]);
    }

    proof fn lemma_wire_uniform(&self, other: &Self) {
    }

    fn deconstruct(self, channel: &mut ChannelEnd) -> (r: Result<(), DeconstructError>) {
        match channel.send(WireItem::Value(Primitive::Uint(self))) {
            Ok(u) => {
                proof {
                    assert(channel.sent_view() =~= old(channel).sent_view() + self.wire());
                }
                Ok(())
            },
            Err(e) => Err(DeconstructError::Send),
        }
    }

    fn construct(channel: &mut ChannelEnd) -> (r: Result<Self, ConstructError>) {
        match channel.next() {
            None => Err(ConstructError::Insufficient { got: 0, expected: 1 }),
            Some(item) => match item {
                WireItem::Value(Primitive::Uint(x)) => {
                    proof {
                        assert(old(channel).recv_view().take(1) =~= x.wire());
                        assert(channel.recv_view() =~= old(channel).recv_view().skip(1));
                    }
                    Ok(x)
                },
                _ => Err(ConstructError::Unexpected),
            },
        }
    }
}

impl Kind for i64 {
    open spec fn wire(&self) -> Seq<WireItemV> {
        seq![WireItemV::Value(PrimitiveV::Int(*self))]
    }

    open spec fn accepts(items: Seq<WireItemV>) -> bool {
        items.len() >= 1 && items[0] matches WireItemV::Value(PrimitiveV::Int(_))
    }

    open spec fn reject(items: Seq<WireItemV>) -> ConstructError {
        if items.len() == 0 {
            ConstructError::Insufficient { got: 0, expected: 1 }
        } else {
            ConstructError::Unexpected
        }
    }

    proof fn lemma_wire_accepts(&self, rest: Seq<WireItemV>) {
        assert((self.wire() + rest)[0] == self.wire()[0]);
    }

    proof fn lemma_wire_uniform(&self, other: &Self) {
    }

    fn deconstruct(self, channel: &mut ChannelEnd) -> (r: Result<(), DeconstructError>) {
        match channel.send(WireItem::Value(Primitive::Int(self))) {
            Ok(u) => {
                proof {
                    assert(channel.sent_view() =~= old(channel).sent_view() + self.wire());
                }
                Ok(())
            },
            Err(e) => Err(DeconstructError::Send),
        }
    }

    fn construct(channel: &mut ChannelEnd) -> (r: Result<Self, ConstructError>) {
        match channel.next() {
            None => Err(ConstructError::Insufficient { got: 0, expected: 1 }),
            Some(item) => match item {
                WireItem::Value(Primitive::Int(x)) => {
                    proof {
                        assert(old(channel).recv_view().take(1) =~= x.wire());
                        assert(channel.recv_view() =~= old(channel).recv_view().skip(1));
                    }
                    Ok(x)
                },
                _ => Err(ConstructError::Unexpected),
            },
        }
    }
}

impl Kind for bool {
    open spec fn wire(&self) -> Seq<WireItemV> {
        seq![WireItemV::Value(PrimitiveV::Bool(*self))]
    }

    open spec fn accepts(items: Seq<WireItemV>) -> bool {
        items.len() >= 1 && items[0] matches WireItemV::Value(PrimitiveV::Bool(_))
    }

    open spec fn reject(items: Seq<WireItemV>) -> ConstructError {
        if items.len() == 0 {
            ConstructError::Insufficient { got: 0, expected: 1 }
        } else {
            ConstructError::Unexpected
        }
    }

    proof fn lemma_wire_accepts(&self, rest: Seq<WireItemV>) {
        assert((self.wire() + rest)[0] == self.wire()[0]);
    }

    proof fn lemma_wire_uniform(&self, other: &Self) {
    }

    fn deconstruct(self, channel: &mut ChannelEnd) -> (r: Result<(), DeconstructError>) {
        match channel.send(WireItem::Value(Primitive::Bool(self))) {
            Ok(u) => {
                proof {
                    assert(channel.sent_view() =~= old(channel).sent_view() + self.wire());
                }
                Ok(())
            },
            Err(e) => Err(DeconstructError::Send),
        }
    }

    fn construct(channel: &mut ChannelEnd) -> (r: Result<Self, ConstructError>) {
        match channel.next() {
            None => Err(ConstructError::Insufficient { got: 0, expected: 1 }),
            Some(item) => match item {
                WireItem::Value(Primitive::Bool(x)) => {
                    proof {
                        assert(old(channel).recv_view().take(1) =~= x.wire());
                        assert(channel.recv_view() =~= old(channel).recv_view().skip(1));
                    }
                    Ok(x)
                },
                _ => Err(ConstructError::Unexpected),
            },
        }
    }
}

impl Kind for String {
    open spec fn wire(&self) -> Seq<WireItemV> {
        seq![WireItemV::Value(PrimitiveV::Text(self@))]
    }

    open spec fn accepts(items: Seq<WireItemV>) -> bool {
        items.len() >= 1 && items[0] matches WireItemV::Value(PrimitiveV::Text(_))
    }

    open spec fn reject(items: Seq<WireItemV>) -> ConstructError {
        if items.len() == 0 {
            ConstructError::Insufficient { got: 0, expected: 1 }
        } else {
            ConstructError::Unexpected
        }
    }

    proof fn lemma_wire_accepts(&self, rest: Seq<WireItemV>) {
        assert((self.wire() + rest)[0] == self.wire()[0]);
    }

    proof fn lemma_wire_uniform(&self, other: &Self) {
    }

    fn deconstruct(self, channel: &mut ChannelEnd) -> (r: Result<(), DeconstructError>) {
        let ghost w = self.wire();
        match channel.send(WireItem::Value(Primitive::Text(self))) {
            Ok(u) => {
                proof {
                    assert(channel.sent_view() =~= old(channel).sent_view() + w);
                }
                Ok(())
            },
            Err(e) => Err(DeconstructError::Send),
        }
    }

    fn construct(channel: &mut ChannelEnd) -> (r: Result<Self, ConstructError>) {
        match channel.next() {
            None => Err(ConstructError::Insufficient { got: 0, expected: 1 }),
            Some(item) => match item {
                WireItem::Value(Primitive::Text(s)) => {
                    proof {
                        assert(old(channel).recv_view().take(1) =~= s.wire());
                        assert(channel.recv_view() =~= old(channel).recv_view().skip(1));
                    }
                    Ok(s)
                },
                _ => Err(ConstructError::Unexpected),
            },
        }
    }
}

impl Kind for ForkHandle {
    open spec fn wire(&self) -> Seq<WireItemV> {
        seq![WireItemV::Handle(self.id)]
    }

    open spec fn accepts(items: Seq<WireItemV>) -> bool {
        items.len() >= 1 && items[0] matches WireItemV::Handle(_)
    }

    open spec fn reject(items: Seq<WireItemV>) -> ConstructError {
        if items.len() == 0 {
            ConstructError::Insufficient { got: 0, expected: 1 }
        } else {
            ConstructError::Unexpected
        }
    }

    proof fn lemma_wire_accepts(&self, rest: Seq<WireItemV>) {
        assert((self.wire() + rest)[0] == self.wire()[0]);
    }

    proof fn lemma_wire_uniform(&self, other: &Self) {
    }

    fn deconstruct(self, channel: &mut ChannelEnd) -> (r: Result<(), DeconstructError>) {
        match channel.send(WireItem::Handle(self)) {
            Ok(u) => {
                proof {
                    assert(channel.sent_view() =~= old(channel).sent_view() + self.wire());
                }
                Ok(())
            },
            Err(e) => Err(DeconstructError::Send),
        }
    }

    fn construct(channel: &mut ChannelEnd) -> (r: Result<Self, ConstructError>) {
        match channel.next() {
            None => Err(ConstructError::Insufficient { got: 0, expected: 1 }),
            Some(item) => match item {
                WireItem::Handle(h) => {
                    proof {
                        assert(old(channel).recv_view().take(1) =~= h.wire());
                        assert(channel.recv_view() =~= old(channel).recv_view().skip(1));
                    }
                    Ok(h)
                },
                _ => Err(ConstructError::Unexpected),
            },
        }
    }
}

/// Round trip through every layer on one fork: the value is deconstructed
/// into wire items, each item serialized to bytes, parsed back, delivered to
/// a receiving channel, and constructed again.  The result always exists and
/// carries the very wire image of the input.
pub fn round_trip_via_bytes<K: Kind>(value: K) -> (r: Result<K, ConstructError>)
    ensures
        r matches Ok(w) && w.wire() == value.wire(),
{
    let ghost gv = value;
    let ghost w0 = value.wire();
    proof {
        value.lemma_wire_accepts(Seq::<WireItemV>::empty());
        assert(w0 + Seq::<WireItemV>::empty() =~= w0);
    }
    let mut sender = ChannelEnd::new();
    let dec = value.deconstruct(&mut sender);
    proof {
        assert(sender.sent_view() =~= w0);
    }
    let items = sender.take_outgoing();
    let mut receiver = ChannelEnd::new();
    let mut k: usize = 0;
    while k < items.len()
        invariant
            k <= items.len(),
            items_view(items@) == w0,
            receiver.recv_view() == w0.take(k as int),
            receiver.sent_view() == Seq::<WireItemV>::empty(),
            receiver.is_open(),
        decreases items.len() - k,
    {
        proof {
            assert(items_view(items@)[k as int] == items@[k as int]@);
        }
        let rep = serialize(&items[k]);
        proof {
            lemma_parse_serialize(w0[k as int]);
        }
        let parsed = parse_item(&rep);
        match parsed {
            Some(item) => {
                receiver.deliver(item);
                proof {
                    assert(receiver.recv_view() =~= w0.take(k as int + 1));
                }
            },
            None => {
                proof {
                    assert(false);
                }
                return Err(ConstructError::Unexpected);
            },
        }
        k += 1;
    }
    proof {
        assert(w0.take(items@.len() as int) =~= w0);
    }
    let r = K::construct(&mut receiver);
    match r {
        Ok(w) => {
            proof {
                w.lemma_wire_uniform(&gv);
                assert(w0.take(w.wire().len() as int) =~= w0);
            }
            Ok(w)
        },
        Err(e) => {
            proof {
                assert(false);
            }
            Err(e)
        },
    }
}

} // verus!
