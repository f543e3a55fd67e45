//! The elementary messages of the object transport protocol.
//!
//! A value's entire wire identity is the sequence of items it sends and
//! receives over a channel; it owns no direct byte representation.  The items
//! here form the complete message alphabet: primitive values transferred 1:1,
//! fork handles referencing nested sub-channels, and the request shapes of
//! remote calls.

use vstd::prelude::*;

verus! {

/// Identifier of a nested multiplexed sub-channel.
///
/// Handles are allocated by the multiplexer alone, monotonically, and are
/// never reused within one multiplexed session; consumers only ever hold one
/// by value.
#[derive(Clone, Copy, Debug, PartialEq, Eq, Structural)]
pub struct ForkHandle {
    pub id: u64,
}

/// An elementary value, carried by a single channel message.
///
/// Primitive values use the trivial realization of the construct/deconstruct
/// contract: one message out, one message in, no forking.
#[derive(Clone, Debug, PartialEq)]
pub enum Primitive {
    Unit,
    Bool(bool),
    Uint(u64),
    Int(i64),
    Text(String),
}

/// Mathematical model of a [`Primitive`]: text is a sequence of characters.
pub enum PrimitiveV {
    Unit,
    Bool(bool),
    Uint(u64),
    Int(i64),
    Text(Seq<char>),
}

impl View for Primitive {
    type V = PrimitiveV;

    open spec fn view(&self) -> PrimitiveV {
        match self {
            Primitive::Unit => PrimitiveV::Unit,
            Primitive::Bool(b) => PrimitiveV::Bool(*b),
            Primitive::Uint(x) => PrimitiveV::Uint(*x),
            Primitive::Int(x) => PrimitiveV::Int(*x),
            Primitive::Text(s) => PrimitiveV::Text(s@),
        }
    }
}

/// One message of the wire alphabet.
#[derive(Clone, Debug, PartialEq)]
pub enum WireItem {
    /// A primitive value, transferred 1:1.
    Value(Primitive),
    /// A reference to a fork: a nested value travelling on its own
    /// sub-channel, or the response to a remote call.
    Handle(ForkHandle),
    /// An n-ary remote call request: one argument handle per parameter.
    Handles(Vec<ForkHandle>),
    /// A zero-argument remote call request.
    Request,
}

/// Mathematical model of a [`WireItem`].
pub enum WireItemV {
    Value(PrimitiveV),
    Handle(u64),
    Handles(Seq<u64>),
    Request,
}

impl View for WireItem {
    type V = WireItemV;

    open spec fn view(&self) -> WireItemV {
        match self {
            WireItem::Value(p) => WireItemV::Value(p@),
            WireItem::Handle(h) => WireItemV::Handle(h.id),
            WireItem::Handles(hs) => WireItemV::Handles(
                hs@.map_values(|h: ForkHandle| h.id),
            ),
            WireItem::Request => WireItemV::Request,
        }
    }
}

/// The fork handles an item refers to; an item is a forward reference while
/// any of these is not yet ready on the receiving side.
pub open spec fn item_handles(i: WireItemV) -> Seq<u64> {
    match i {
        WireItemV::Handle(h) => seq![h],
        WireItemV::Handles(hs) => hs,
        _ => Seq::<u64>::empty(),
    }
}

/// The models of a sequence of wire items.
pub open spec fn items_view(s: Seq<WireItem>) -> Seq<WireItemV> {
    s.map_values(|i: WireItem| i@)
}

} // verus!
