//! The format layer: between abstract wire items and a concrete byte
//! representation.
//!
//! `serialize` and `deserialize` are inverses for well-formed items, and a
//! deserialization outcome distinguishes, as a structured result, a malformed
//! representation from a forward reference whose fork has not yet arrived.

use vstd::prelude::*;
use vstd::bytes::{
    lemma_auto_spec_u64_to_from_le_bytes, spec_u64_from_le_bytes, spec_u64_to_le_bytes,
    u64_from_le_bytes, u64_to_le_bytes,
};
use vstd::slice::{slice_subrange, slice_to_vec};
use vstd::utf8::{decode_utf8, encode_utf8, valid_utf8};
use crate::context::Context;
use crate::wire::{item_handles, items_view, ForkHandle, Primitive, PrimitiveV, WireItem, WireItemV};

verus! {

/// Failure of the format layer: the representation does not spell a wire
/// item.  Distinct from a forward reference, which is not a failure.
#[derive(Clone, Copy, Debug, PartialEq, Eq, Structural)]
pub struct FormatError;

pub const TAG_UNIT: u8 = 0;

pub const TAG_BOOL: u8 = 1;

pub const TAG_UINT: u8 = 2;

pub const TAG_INT: u8 = 3;

pub const TAG_NEG: u8 = 4;

pub const TAG_TEXT: u8 = 5;

pub const TAG_HANDLE: u8 = 6;

pub const TAG_HANDLES: u8 = 7;

pub const TAG_REQUEST: u8 = 8;

/// Magnitude of a negative 64-bit integer, as an unsigned number.
pub open spec fn neg_magnitude(x: i64) -> u64
    recommends
        x < 0,
{
    (0 - x as int) as u64
}

/// Concatenated fixed-width encodings of a handle list.
pub open spec fn spec_encode_handles(hs: Seq<u64>) -> Seq<u8>
    decreases hs.len(),
{
    if hs.len() == 0 {
        Seq::<u8>::empty()
    } else {
        spec_u64_to_le_bytes(hs[0]) + spec_encode_handles(hs.drop_first())
    }
}

/// The handle list spelled by a concatenation of fixed-width encodings.
pub open spec fn spec_decode_handles(bytes: Seq<u8>) -> Seq<u64>
    recommends
        bytes.len() % 8 == 0,
    decreases bytes.len(),
{
    if bytes.len() < 8 {
        Seq::<u64>::empty()
    } else {
        seq![spec_u64_from_le_bytes(bytes.take(8))] + spec_decode_handles(bytes.skip(8))
    }
}

/// The byte representation of one wire item: a tag byte followed by the
/// item's payload; variable-length payloads carry their length first.
pub open spec fn spec_serialize(i: WireItemV) -> Seq<u8> {
    match i {
        WireItemV::Value(PrimitiveV::Unit) => seq![TAG_UNIT],
        WireItemV::Value(PrimitiveV::Bool(b)) => seq![
            TAG_BOOL,
            if b {
                1u8
            } else {
                0u8
            },
        ],
        WireItemV::Value(PrimitiveV::Uint(x)) => seq![TAG_UINT] + spec_u64_to_le_bytes(x),
        WireItemV::Value(PrimitiveV::Int(x)) => if x >= 0 {
            seq![TAG_INT] + spec_u64_to_le_bytes(x as u64)
        } else {
            seq![TAG_NEG] + spec_u64_to_le_bytes(neg_magnitude(x))
        },
        WireItemV::Value(PrimitiveV::Text(cs)) => seq![TAG_TEXT] + spec_u64_to_le_bytes(
            encode_utf8(cs).len() as u64,
        ) + encode_utf8(cs),
        WireItemV::Handle(h) => seq![TAG_HANDLE] + spec_u64_to_le_bytes(h),
        WireItemV::Handles(hs) => seq![TAG_HANDLES] + spec_u64_to_le_bytes(hs.len() as u64)
            + spec_encode_handles(hs),
        WireItemV::Request => seq![TAG_REQUEST],
    }
}

/// Whether an item's variable-length parts fit the wire's length fields.
/// Every item built in executable code is bounded, since its parts live in
/// memory.
pub open spec fn item_bounded(i: WireItemV) -> bool {
    match i {
        WireItemV::Value(PrimitiveV::Text(cs)) => encode_utf8(cs).len() <= u64::MAX,
        WireItemV::Handles(hs) => hs.len() <= u64::MAX,
        _ => true,
    }
}

/// The item a byte representation spells, or `None` when it is malformed.
/// The representation must be spent exactly: trailing bytes are malformed.
pub open spec fn spec_parse(bytes: Seq<u8>) -> Option<WireItemV> {
    if bytes.len() == 0 {
        None
    } else {
        let tag = bytes[0];
        let rest = bytes.skip(1);
        if tag == TAG_UNIT {
            if rest.len() == 0 {
                Some(WireItemV::Value(PrimitiveV::Unit))
            } else {
                None
            }
        } else if tag == TAG_BOOL {
            if rest.len() == 1 && (rest[0] == 0 || rest[0] == 1) {
                Some(WireItemV::Value(PrimitiveV::Bool(rest[0] == 1)))
            } else {
                None
            }
        } else if tag == TAG_UINT {
            if rest.len() == 8 {
                Some(WireItemV::Value(PrimitiveV::Uint(spec_u64_from_le_bytes(rest))))
            } else {
                None
            }
        } else if tag == TAG_INT {
            if rest.len() == 8 && spec_u64_from_le_bytes(rest) <= i64::MAX as u64 {
                Some(WireItemV::Value(PrimitiveV::Int(spec_u64_from_le_bytes(rest) as i64)))
            } else {
                None
            }
        } else if tag == TAG_NEG {
            if rest.len() == 8 && 1 <= spec_u64_from_le_bytes(rest) <= 0x8000_0000_0000_0000u64 {
                Some(
                    WireItemV::Value(
                        PrimitiveV::Int(((0 - spec_u64_from_le_bytes(rest) as int)) as i64),
                    ),
                )
            } else {
                None
            }
        } else if tag == TAG_TEXT {
            if rest.len() >= 8 {
                let n = spec_u64_from_le_bytes(rest.take(8));
                let payload = rest.skip(8);
                if payload.len() == n && valid_utf8(payload) {
                    Some(WireItemV::Value(PrimitiveV::Text(decode_utf8(payload))))
                } else {
                    None
                }
            } else {
                None
            }
        } else if tag == TAG_HANDLE {
            if rest.len() == 8 {
                Some(WireItemV::Handle(spec_u64_from_le_bytes(rest)))
            } else {
                None
            }
        } else if tag == TAG_HANDLES {
            if rest.len() >= 8 {
                let n = spec_u64_from_le_bytes(rest.take(8));
                let payload = rest.skip(8);
                if payload.len() == n * 8 {
                    Some(WireItemV::Handles(spec_decode_handles(payload)))
                } else {
                    None
                }
            } else {
                None
            }
        } else if tag == TAG_REQUEST {
            if rest.len() == 0 {
                Some(WireItemV::Request)
            } else {
                None
            }
        } else {
            None
        }
    }
}

/// A handle list's encoding is eight bytes per handle, and decodes back to
/// the same list.
pub proof fn lemma_handles_round_trip(hs: Seq<u64>)
    ensures
        spec_encode_handles(hs).len() == 8 * hs.len(),
        spec_decode_handles(spec_encode_handles(hs)) == hs,
    decreases hs.len(),
{
    lemma_auto_spec_u64_to_from_le_bytes();
    if hs.len() == 0 {
        assert(spec_decode_handles(spec_encode_handles(hs)) =~= hs);
    } else {
        let head = spec_u64_to_le_bytes(hs[0]);
        let tail = spec_encode_handles(hs.drop_first());
        lemma_handles_round_trip(hs.drop_first());
        assert((head + tail).take(8) =~= head);
        assert((head + tail).skip(8) =~= tail);
        assert(spec_decode_handles(spec_encode_handles(hs)) =~= hs);
    }
}

/// Each handle of a list can be read off its encoding at its own offset.
pub proof fn lemma_decode_handles_index(bytes: Seq<u8>)
    requires
        bytes.len() % 8 == 0,
    ensures
        spec_decode_handles(bytes).len() == bytes.len() / 8,
        forall|k: int|
            0 <= k < bytes.len() / 8 ==> spec_decode_handles(bytes)[k] == spec_u64_from_le_bytes(
                #[trigger] bytes.subrange(8 * k, 8 * k + 8),
            ),
    decreases bytes.len(),
{
    if bytes.len() < 8 {
    } else {
        lemma_decode_handles_index(bytes.skip(8));
        assert(bytes.take(8) =~= bytes.subrange(8int * 0, 8int * 0 + 8));
        assert forall|k: int| 1 <= k < bytes.len() / 8 implies spec_decode_handles(bytes)[k]
            == spec_u64_from_le_bytes(#[trigger] bytes.subrange(8 * k, 8 * k + 8)) by {
            assert(spec_decode_handles(bytes)[k] == spec_decode_handles(bytes.skip(8))[k - 1]);
            assert(bytes.skip(8).subrange(8 * (k - 1), 8 * (k - 1) + 8) =~= bytes.subrange(
                8 * k,
                8 * k + 8,
            ));
        }
    }
}

/// Round trip of the codec: a bounded item's serialization parses back to
/// the item itself.
pub proof fn lemma_parse_serialize(i: WireItemV)
    requires
        item_bounded(i),
    ensures
        spec_parse(spec_serialize(i)) == Some(i),
{
    lemma_auto_spec_u64_to_from_le_bytes();
    let bytes = spec_serialize(i);
    match i {
        WireItemV::Value(PrimitiveV::Unit) => {
            assert(bytes.skip(1) =~= Seq::<u8>::empty());
        },
        WireItemV::Value(PrimitiveV::Bool(b)) => {
            assert(bytes.skip(1) =~= seq![
                if b {
                    1u8
                } else {
                    0u8
                },
            ]);
        },
        WireItemV::Value(PrimitiveV::Uint(x)) => {
            assert(bytes.skip(1) =~= spec_u64_to_le_bytes(x));
        },
        WireItemV::Value(PrimitiveV::Int(x)) => {
            if x >= 0 {
                assert(bytes.skip(1) =~= spec_u64_to_le_bytes(x as u64));
                assert(spec_u64_from_le_bytes(bytes.skip(1)) == x as u64);
            } else {
                assert(bytes.skip(1) =~= spec_u64_to_le_bytes(neg_magnitude(x)));
                assert(1 <= neg_magnitude(x) <= 0x8000_0000_0000_0000u64);
                assert(((0 - neg_magnitude(x) as int)) as i64 == x);
            }
        },
        WireItemV::Value(PrimitiveV::Text(cs)) => {
            let enc = encode_utf8(cs);
            vstd::utf8::encode_utf8_valid_utf8(cs);
            vstd::utf8::encode_utf8_decode_utf8(cs);
            assert(bytes.skip(1) =~= spec_u64_to_le_bytes(enc.len() as u64) + enc);
            let rest = bytes.skip(1);
            assert(rest.take(8) =~= spec_u64_to_le_bytes(enc.len() as u64));
            assert(rest.skip(8) =~= enc);
        },
        WireItemV::Handle(h) => {
            assert(bytes.skip(1) =~= spec_u64_to_le_bytes(h));
        },
        WireItemV::Handles(hs) => {
            lemma_handles_round_trip(hs);
            let rest = bytes.skip(1);
            assert(rest.take(8) =~= spec_u64_to_le_bytes(hs.len() as u64));
            assert(rest.skip(8) =~= spec_encode_handles(hs));
        },
        WireItemV::Request => {
            assert(bytes.skip(1) =~= Seq::<u8>::empty());
        },
    }
}

/// A handle list's encoding grows one fixed-width block at a time.
proof fn lemma_encode_handles_push(hs: Seq<u64>, h: u64)
    ensures
        spec_encode_handles(hs.push(h)) == spec_encode_handles(hs) + spec_u64_to_le_bytes(h),
    decreases hs.len(),
{
    if hs.len() == 0 {
        assert(hs.push(h)[0] == h);
        assert(hs.push(h).drop_first() =~= Seq::<u64>::empty());
        assert(spec_encode_handles(hs.push(h)) == spec_u64_to_le_bytes(h) + spec_encode_handles(
            Seq::<u64>::empty(),
        ));
        assert(spec_encode_handles(hs.push(h)) =~= spec_encode_handles(hs) + spec_u64_to_le_bytes(
            h,
        ));
    } else {
        assert(hs.push(h)[0] == hs[0]);
        lemma_encode_handles_push(hs.drop_first(), h);
        assert(hs.push(h).drop_first() =~= hs.drop_first().push(h));
        assert(spec_encode_handles(hs.push(h)) =~= spec_encode_handles(hs) + spec_u64_to_le_bytes(
            h,
        ));
    }
}

/// Relies on `String::from_utf8`: yields the string whose byte encoding is
/// exactly the given bytes when they are valid UTF-8, and nothing otherwise.
#[verifier::external_body]
fn string_from_utf8(bytes: Vec<u8>) -> (r: Option<String>)
    ensures
        r is Some <==> valid_utf8(bytes@),
        r matches Some(s) ==> s@ == decode_utf8(bytes@),
{
    String::from_utf8(bytes).ok()
}

/// Serializes one wire item to its byte representation.
pub fn serialize(item: &WireItem) -> (r: Vec<u8>)
    ensures
        r@ == spec_serialize(item@),
        item_bounded(item@),
{
    match item {
        WireItem::Value(Primitive::Unit) => {
            let mut v: Vec<u8> = Vec::new();
            v.push(TAG_UNIT);
            proof {
                assert(v@ =~= spec_serialize(item@));
            }
            v
        },
        WireItem::Value(Primitive::Bool(b)) => {
            let mut v: Vec<u8> = Vec::new();
            v.push(TAG_BOOL);
            v.push(
                if *b {
                    1u8
                } else {
                    0u8
                },
            );
            proof {
                assert(v@ =~= spec_serialize(item@));
            }
            v
        },
        WireItem::Value(Primitive::Uint(x)) => {
            let mut v: Vec<u8> = Vec::new();
            v.push(TAG_UINT);
            let mut b = u64_to_le_bytes(*x);
            v.append(&mut b);
            proof {
                assert(v@ =~= spec_serialize(item@));
            }
            v
        },
        WireItem::Value(Primitive::Int(x)) => {
            let mut v: Vec<u8> = Vec::new();
            if *x >= 0 {
                v.push(TAG_INT);
                let mut b = u64_to_le_bytes(*x as u64);
                v.append(&mut b);
            } else {
                v.push(TAG_NEG);
                let m: u64 = if *x == i64::MIN {
                    0x8000_0000_0000_0000u64
                } else {
                    (0i64 - *x) as u64
                };
                proof {
                    assert(m == neg_magnitude(*x));
                }
                let mut b = u64_to_le_bytes(m);
                v.append(&mut b);
            }
            proof {
                assert(v@ =~= spec_serialize(item@));
            }
            v
        },
        WireItem::Value(Primitive::Text(s)) => {
            let bytes: &[u8] = s.as_str().as_bytes();
            let mut v: Vec<u8> = Vec::new();
            v.push(TAG_TEXT);
            let mut lb = u64_to_le_bytes(bytes.len() as u64);
            v.append(&mut lb);
            v.extend_from_slice(bytes);
            proof {
                assert(v@ =~= spec_serialize(item@));
            }
            v
        },
        WireItem::Handle(h) => {
            let mut v: Vec<u8> = Vec::new();
            v.push(TAG_HANDLE);
            let mut b = u64_to_le_bytes(h.id);
            v.append(&mut b);
            proof {
                assert(v@ =~= spec_serialize(item@));
            }
            v
        },
        WireItem::Handles(hs) => {
            let mut v: Vec<u8> = Vec::new();
            v.push(TAG_HANDLES);
            let mut lb = u64_to_le_bytes(hs.len() as u64);
            v.append(&mut lb);
            let ghost ids = hs@.map_values(|fh: ForkHandle| fh.id);
            let mut k: usize = 0;
            while k < hs.len()
                invariant
                    k <= hs.len(),
                    ids == hs@.map_values(|fh: ForkHandle| fh.id),
                    v@ == seq![TAG_HANDLES] + spec_u64_to_le_bytes(hs@.len() as u64)
                        + spec_encode_handles(ids.take(k as int)),
                decreases hs.len() - k,
            {
                let mut hb = u64_to_le_bytes(hs[k].id);
                v.append(&mut hb);
                proof {
                    lemma_encode_handles_push(ids.take(k as int), ids[k as int]);
                    assert(ids.take(k as int + 1) =~= ids.take(k as int).push(ids[k as int]));
                }
                k += 1;
            }
            proof {
                assert(ids.take(hs@.len() as int) =~= ids);
                assert(v@ =~= spec_serialize(item@));
            }
            v
        },
        WireItem::Request => {
            let mut v: Vec<u8> = Vec::new();
            v.push(TAG_REQUEST);
            proof {
                assert(v@ =~= spec_serialize(item@));
            }
            v
        },
    }
}

/// Parses one byte representation back to a wire item; `None` when it is
/// malformed.
pub fn parse_item(bytes: &Vec<u8>) -> (r: Option<WireItem>)
    ensures
        match r {
            Some(item) => spec_parse(bytes@) == Some(item@),
            None => spec_parse(bytes@) is None,
        },
{
    if bytes.len() == 0 {
        return None;
    }
    let tag = bytes[0];
    let ghost rest = bytes@.skip(1);
    if tag == TAG_UNIT {
        if bytes.len() == 1 {
            Some(WireItem::Value(Primitive::Unit))
        } else {
            None
        }
    } else if tag == TAG_BOOL {
        if bytes.len() == 2 {
            let b = bytes[1];
            if b == 0 {
                Some(WireItem::Value(Primitive::Bool(false)))
            } else if b == 1 {
                Some(WireItem::Value(Primitive::Bool(true)))
            } else {
                None
            }
        } else {
            None
        }
    } else if tag == TAG_UINT {
        if bytes.len() == 9 {
            let x = u64_from_le_bytes(slice_subrange(bytes.as_slice(), 1, 9));
            proof {
                assert(bytes@.subrange(1, 9) =~= rest);
            }
            Some(WireItem::Value(Primitive::Uint(x)))
        } else {
            None
        }
    } else if tag == TAG_INT {
        if bytes.len() == 9 {
            let x = u64_from_le_bytes(slice_subrange(bytes.as_slice(), 1, 9));
            proof {
                assert(bytes@.subrange(1, 9) =~= rest);
            }
            if x <= i64::MAX as u64 {
                Some(WireItem::Value(Primitive::Int(x as i64)))
            } else {
                None
            }
        } else {
            None
        }
    } else if tag == TAG_NEG {
        if bytes.len() == 9 {
            let m = u64_from_le_bytes(slice_subrange(bytes.as_slice(), 1, 9));
            proof {
                assert(bytes@.subrange(1, 9) =~= rest);
            }
            if 1 <= m && m <= 0x8000_0000_0000_0000u64 {
                let val: i64 = if m == 0x8000_0000_0000_0000u64 {
                    i64::MIN
                } else {
                    0i64 - (m as i64)
                };
                Some(WireItem::Value(Primitive::Int(val)))
            } else {
                None
            }
        } else {
            None
        }
    } else if tag == TAG_TEXT {
        if bytes.len() >= 9 {
            let n = u64_from_le_bytes(slice_subrange(bytes.as_slice(), 1, 9));
            proof {
                assert(bytes@.subrange(1, 9) =~= rest.take(8));
            }
            if (bytes.len() - 9) as u64 == n {
                let payload = slice_to_vec(slice_subrange(bytes.as_slice(), 9, bytes.len()));
                proof {
                    assert(bytes@.subrange(9, bytes@.len() as int) =~= rest.skip(8));
                }
                match string_from_utf8(payload) {
                    Some(s) => Some(WireItem::Value(Primitive::Text(s))),
                    None => None,
                }
            } else {
                None
            }
        } else {
            None
        }
    } else if tag == TAG_HANDLE {
        if bytes.len() == 9 {
            let x = u64_from_le_bytes(slice_subrange(bytes.as_slice(), 1, 9));
            proof {
                assert(bytes@.subrange(1, 9) =~= rest);
            }
            Some(WireItem::Handle(ForkHandle { id: x }))
        } else {
            None
        }
    } else if tag == TAG_HANDLES {
        if bytes.len() >= 9 {
            let n = u64_from_le_bytes(slice_subrange(bytes.as_slice(), 1, 9));
            proof {
                assert(bytes@.subrange(1, 9) =~= rest.take(8));
            }
            let m = bytes.len() - 9;
            let ghost payload = bytes@.skip(9);
            proof {
                assert(payload =~= rest.skip(8));
            }
            if m % 8 == 0 && (m / 8) as u64 == n {
                proof {
                    assert(m == 8 * (m / 8) + m % 8) by (nonlinear_arith);
                    assert(payload.len() == n * 8);
                    lemma_decode_handles_index(payload);
                }
                let count = m / 8;
                let blen = bytes.len();
                let mut hs: Vec<ForkHandle> = Vec::new();
                let mut k: usize = 0;
                while k < count
                    invariant
                        k <= count,
                        payload == bytes@.skip(9),
                        payload.len() == 8 * count,
                        bytes@.len() == payload.len() + 9,
                        blen == bytes@.len(),
                        spec_decode_handles(payload).len() == count,
                        forall|j: int|
                            0 <= j < count ==> spec_decode_handles(payload)[j]
                                == spec_u64_from_le_bytes(
                                #[trigger] payload.subrange(8 * j, 8 * j + 8),
                            ),
                        hs@.len() == k,
                        forall|j: int|
                            0 <= j < k ==> #[trigger] hs@[j].id == spec_decode_handles(payload)[j],
                    decreases count - k,
                {
                    proof {
                        assert(9 + 8 * (k as int) + 8 <= blen);
                    }
                    let off = 9 + 8 * k;
                    let x = u64_from_le_bytes(slice_subrange(bytes.as_slice(), off, off + 8));
                    proof {
                        assert(bytes@.subrange(off as int, off as int + 8) =~= payload.subrange(
                            8 * k as int,
                            8 * k as int + 8,
                        ));
                        assert(x == spec_decode_handles(payload)[k as int]);
                    }
                    hs.push(ForkHandle { id: x });
                    k += 1;
                }
                proof {
                    assert(hs@.map_values(|fh: ForkHandle| fh.id) =~= spec_decode_handles(payload));
                }
                Some(WireItem::Handles(hs))
            } else {
                proof {
                    assert(m == 8 * (m / 8) + m % 8) by (nonlinear_arith);
                    if payload.len() == n * 8 {
                        assert(m % 8 == 0 && (m / 8) as u64 == n) by (nonlinear_arith)
                            requires m == n * 8 && m <= usize::MAX && n <= u64::MAX;
                    }
                }
                None
            }
        } else {
            None
        }
    } else if tag == TAG_REQUEST {
        if bytes.len() == 1 {
            Some(WireItem::Request)
        } else {
            None
        }
    } else {
        None
    }
}

/// What one attempt at deserializing a representation yields: the item, a
/// forward reference to wait on (with the representation handed back for the
/// retry), or a genuine format failure.
pub enum DeserializeOutcome<R> {
    Ready(WireItem),
    Pending(u64, R),
    Failed(FormatError),
}

/// The first handle referenced by the item that is not ready, if any.
fn first_unready(ctx: &Context, item: &WireItem) -> (r: Option<u64>)
    ensures
        r is None <==> ctx.admits(item@),
        r matches Some(h) ==> !ctx.spec_ready(h) && item_handles(item@).contains(h),
{
    match item {
        WireItem::Handle(h) => {
            if ctx.is_ready(h.id) {
                proof {
                    assert(item_handles(item@) =~= seq![h.id]);
                    assert forall|k: int| 0 <= k < item_handles(item@).len() implies ctx
                        .spec_ready(#[trigger] item_handles(item@)[k]) by {
                        assert(item_handles(item@)[k] == h.id);
                    }
                }
                None
            } else {
                proof {
                    assert(item_handles(item@) =~= seq![h.id]);
                    assert(item_handles(item@)[0] == h.id);
                }
                Some(h.id)
            }
        },
        WireItem::Handles(hs) => {
            let ghost ids = item_handles(item@);
            proof {
                assert(ids =~= hs@.map_values(|fh: ForkHandle| fh.id));
            }
            let mut k: usize = 0;
            while k < hs.len()
                invariant
                    k <= hs@.len(),
                    ids == item_handles(item@),
                    ids.len() == hs@.len(),
                    forall|j: int| 0 <= j < ids.len() ==> ids[j] == hs@[j].id,
                    forall|j: int| 0 <= j < k ==> ctx.spec_ready(#[trigger] ids[j]),
                decreases hs@.len() - k,
            {
                if !ctx.is_ready(hs[k].id) {
                    proof {
                        assert(!ctx.spec_ready(ids[k as int]));
                    }
                    return Some(hs[k].id);
                }
                k += 1;
            }
            proof {
                assert forall|j: int| 0 <= j < item_handles(item@).len() implies ctx.spec_ready(
                    #[trigger] item_handles(item@)[j],
                ) by {
                    assert(ctx.spec_ready(ids[j]));
                }
            }
            None
        },
        _ => {
            proof {
                assert(item_handles(item@) =~= Seq::<u64>::empty());
            }
            None
        },
    }
}

/// One deserialization attempt against a context: a malformed
/// representation fails; a well-formed one whose forward references are
/// unresolved is handed back with the handle to wait on; otherwise the item
/// is ready.
pub fn deserialize(bytes: Vec<u8>, ctx: &Context) -> (r: DeserializeOutcome<Vec<u8>>)
    ensures
        match r {
            DeserializeOutcome::Ready(item) => spec_parse(bytes@) == Some(item@) && ctx.admits(
                item@,
            ),
            DeserializeOutcome::Pending(h, b) => (spec_parse(bytes@) matches Some(i)
                && !ctx.admits(i) && item_handles(i).contains(h) && !ctx.spec_ready(h) && b@
                == bytes@),
            DeserializeOutcome::Failed(e) => spec_parse(bytes@) is None,
        },
{
    match parse_item(&bytes) {
        None => DeserializeOutcome::Failed(FormatError),
        Some(item) => match first_unready(ctx, &item) {
            None => DeserializeOutcome::Ready(item),
            Some(h) => DeserializeOutcome::Pending(h, bytes),
        },
    }
}

/// The models of a suspended entry list: each waits on a handle, keeping
/// its representation for the retry.
pub open spec fn susp_view(s: Seq<(u64, Vec<u8>)>) -> Seq<(u64, Seq<u8>)> {
    s.map_values(|e: (u64, Vec<u8>)| (e.0, e.1@))
}

/// What was kept stays kept while the suspension list and the output only
/// grow at their ends.
proof fn lemma_kept_still(
    whole: Seq<(u64, Seq<u8>)>,
    done: int,
    susp0: Seq<(u64, Seq<u8>)>,
    out0: Seq<WireItemV>,
    susp1: Seq<(u64, Seq<u8>)>,
    out1: Seq<WireItemV>,
)
    requires
        susp0.len() <= susp1.len(),
        forall|j: int| 0 <= j < susp0.len() ==> susp1[j] == susp0[j],
        out0.len() <= out1.len(),
        forall|j: int| 0 <= j < out0.len() ==> out1[j] == out0[j],
        forall|k: int| 0 <= k < done ==> entry_kept((#[trigger] whole[k]).1, susp0, out0),
    ensures
        forall|k: int| 0 <= k < done ==> entry_kept((#[trigger] whole[k]).1, susp1, out1),
{
    assert forall|k: int| 0 <= k < done implies entry_kept(
        (#[trigger] whole[k]).1,
        susp1,
        out1,
    ) by {
        if exists|j: int| 0 <= j < susp0.len() && susp0[j].1 == whole[k].1 {
            let j = choose|j: int| 0 <= j < susp0.len() && susp0[j].1 == whole[k].1;
            assert(susp1[j].1 == whole[k].1);
        } else {
            let j = choose|j: int|
                0 <= j < out0.len() && Some(out0[j]) == spec_parse(whole[k].1);
            assert(Some(out1[j]) == spec_parse(whole[k].1));
        }
    }
}

/// A suspended representation is never lost: it is either still suspended
/// (under whichever handle it now waits on) or its item has been released
/// into the given output.
pub open spec fn entry_kept(
    rep: Seq<u8>,
    susp: Seq<(u64, Seq<u8>)>,
    out: Seq<WireItemV>,
) -> bool {
    (exists|j: int| 0 <= j < susp.len() && susp[j].1 == rep) || (exists|j: int|
        0 <= j < out.len() && Some(out[j]) == spec_parse(rep))
}

/// The decode side of the pipeline: inbound representations are
/// deserialized; a forward reference suspends that single item — not the
/// whole stream — until its handle is ready, and an item is emitted only
/// when its dependency predicate holds.  Readiness is monotone, so an
/// emitted item's references stay resolvable forever.
pub struct DecodePipeline {
    context: Context,
    suspended: Vec<(u64, Vec<u8>)>,
    emitted: Ghost<Seq<WireItemV>>,
}

impl DecodePipeline {
    /// Whether a fork handle is ready in this pipeline's context.
    pub closed spec fn is_ready(&self, h: u64) -> bool {
        self.context.spec_ready(h)
    }

    /// Whether an item's dependency predicate holds.
    pub closed spec fn admits(&self, i: WireItemV) -> bool {
        self.context.admits(i)
    }

    /// Every item ever admitted into the decoded output, in emission order.
    pub closed spec fn emitted_view(&self) -> Seq<WireItemV> {
        self.emitted@
    }

    /// The suspended forward references.
    pub closed spec fn suspended_view(&self) -> Seq<(u64, Seq<u8>)> {
        susp_view(self.suspended@)
    }

    /// The pipeline invariant: every emitted item's references were ready
    /// at emission (and stay so), and every suspended entry waits on a
    /// genuinely unready handle of a well-formed representation.
    pub closed spec fn wf(&self) -> bool {
        &&& forall|k: int, j: int|
            0 <= k < self.emitted@.len() && 0 <= j < item_handles(self.emitted@[k]).len()
                ==> self.context.spec_ready(#[trigger] item_handles(self.emitted@[k])[j])
        &&& forall|k: int|
            0 <= k < self.suspended@.len() ==> {
                let e = #[trigger] self.suspended@[k];
                &&& !self.context.spec_ready(e.0)
                &&& spec_parse(e.1@) matches Some(i) && item_handles(i).contains(e.0)
            }
    }

    pub fn new() -> (p: DecodePipeline)
        ensures
            p.wf(),
            p.emitted_view() == Seq::<WireItemV>::empty(),
            p.suspended_view() == Seq::<(u64, Seq<u8>)>::empty(),
            forall|h: u64| !p.is_ready(h),
    {
        let p = DecodePipeline {
            context: Context::new(),
            suspended: Vec::new(),
            emitted: Ghost(Seq::empty()),
        };
        proof {
            assert(p.suspended_view() =~= Seq::<(u64, Seq<u8>)>::empty());
        }
        p
    }

    /// Accepts one inbound representation.  A malformed one aborts the
    /// stream with the format error; a forward reference is suspended; an
    /// admissible item is emitted at once.
    pub fn accept(&mut self, rep: Vec<u8>) -> (r: Result<Vec<WireItem>, FormatError>)
        requires
            old(self).wf(),
        ensures
            final(self).wf(),
            forall|x: u64| final(self).is_ready(x) == old(self).is_ready(x),
            match spec_parse(rep@) {
                Option::None => r matches Err(e) && final(self).emitted_view() == old(
                    self,
                ).emitted_view() && final(self).suspended_view() == old(self).suspended_view(),
                Option::Some(i) => (r matches Ok(out) && (if old(self).admits(i) {
                    items_view(out@) == seq![i] && final(self).emitted_view() == old(
                        self,
                    ).emitted_view().push(i) && final(self).suspended_view() == old(
                        self,
                    ).suspended_view()
                } else {
                    out@.len() == 0 && final(self).emitted_view() == old(self).emitted_view()
                        && exists|h: u64|
                        final(self).suspended_view() == old(self).suspended_view().push(
                            (h, rep@),
                        ) && !old(self).is_ready(h) && item_handles(i).contains(h)
                })),
            },
    {
        let ghost rep0 = rep@;
        match deserialize(rep, &self.context) {
            DeserializeOutcome::Failed(e) => Err(e),
            DeserializeOutcome::Ready(item) => {
                proof {
                    self.emitted@ = self.emitted@.push(item@);
                }
                let mut out: Vec<WireItem> = Vec::new();
                out.push(item);
                proof {
                    assert(items_view(out@) =~= seq![item@]);
                }
                Ok(out)
            },
            DeserializeOutcome::Pending(h, b) => {
                self.suspended.push((h, b));
                proof {
                    assert(self.suspended_view() =~= old(self).suspended_view().push((h, rep0)));
                }
                Ok(Vec::new())
            },
        }
    }

    /// A fork's construction has begun: its handle becomes ready — exactly
    /// once, never undone — and every item suspended on it is retried.
    /// Whatever the retry admits is returned, in retry order; what still
    /// waits on another unready handle is suspended again.
    pub fn notify_ready(&mut self, h: u64) -> (out: Vec<WireItem>)
        requires
            old(self).wf(),
        ensures
            final(self).wf(),
            forall|x: u64| final(self).is_ready(x) <==> old(self).is_ready(x) || x == h,
            final(self).emitted_view() == old(self).emitted_view() + items_view(out@),
            final(self).suspended_view().len() + out@.len() == old(self).suspended_view().len(),
            forall|k: int|
                0 <= k < old(self).suspended_view().len() ==> entry_kept(
                    (#[trigger] old(self).suspended_view()[k]).1,
                    final(self).suspended_view(),
                    items_view(out@),
                ),
    {
        self.context.mark_ready(h);
        let mut pending: Vec<(u64, Vec<u8>)> = Vec::new();
        core::mem::swap(&mut self.suspended, &mut pending);
        let mut out: Vec<WireItem> = Vec::new();
        let ghost base = self.emitted@;
        proof {
            assert(items_view(out@) =~= Seq::<WireItemV>::empty());
            assert(self.emitted@ =~= base + items_view(out@));
        }
        let ghost whole = susp_view(pending@);
        while pending.len() > 0
            invariant
                self.wf(),
                forall|x: u64| self.is_ready(x) <==> old(self).is_ready(x) || x == h,
                self.emitted@ == base + items_view(out@),
                base == old(self).emitted@,
                self.suspended@.len() + out@.len() + pending@.len() == old(self).suspended@.len(),
                whole == old(self).suspended_view(),
                pending@.len() <= whole.len(),
                susp_view(pending@) == whole.skip(whole.len() - pending@.len()),
                forall|k: int|
                    0 <= k < whole.len() - pending@.len() ==> entry_kept(
                        (#[trigger] whole[k]).1,
                        susp_view(self.suspended@),
                        items_view(out@),
                    ),
                forall|k: int|
                    0 <= k < pending@.len() ==> {
                        let e = #[trigger] pending@[k];
                        &&& !old(self).is_ready(e.0)
                        &&& spec_parse(e.1@) matches Some(i) && item_handles(i).contains(e.0)
                    },
            decreases pending@.len(),
        {
            let ghost pend0 = pending@;
            let ghost done: int = whole.len() - pend0.len();
            let ghost kept0 = susp_view(self.suspended@);
            let ghost out0 = items_view(out@);
            let entry = pending.remove(0);
            proof {
                assert(susp_view(pend0) == whole.skip(done));
                assert(susp_view(pend0)[0] == (pend0[0].0, pend0[0].1@));
                assert(whole.skip(done)[0] == whole[done]);
                assert(whole[done] == (pend0[0].0, pend0[0].1@));
                assert(entry == pend0[0]);
                assert(whole[done] == (entry.0, entry.1@));
                assert(whole.len() - pending@.len() == done + 1);
                assert forall|j: int| 0 <= j < pending@.len() implies susp_view(pending@)[j]
                    == whole.skip(done + 1)[j] by {
                    assert(susp_view(pending@)[j] == (pending@[j].0, pending@[j].1@));
                    assert(pending@[j] == pend0[j + 1]);
                    assert(susp_view(pend0)[j + 1] == (pend0[j + 1].0, pend0[j + 1].1@));
                    assert(whole.skip(done)[j + 1] == whole[done + 1 + j]);
                    assert(whole.skip(done + 1)[j] == whole[done + 1 + j]);
                }
                assert(susp_view(pending@) =~= whole.skip(whole.len() - pending@.len()));
            }
            if entry.0 != h {
                let ghost moved = entry.1@;
                self.suspended.push(entry);
                proof {
                    assert(susp_view(self.suspended@) =~= kept0.push((whole[done].0, moved)));
                    lemma_kept_still(whole, done, kept0, out0, susp_view(self.suspended@), out0);
                    assert(susp_view(self.suspended@)[kept0.len() as int].1 == whole[done].1);
                    assert(entry_kept(whole[done].1, susp_view(self.suspended@), items_view(out@)));
                }
            } else {
                let rep = entry.1;
                match deserialize(rep, &self.context) {
                    DeserializeOutcome::Failed(e) => {
                        proof {
                            assert(spec_parse(pend0[0].1@) is Some);
                            assert(false);
                        }
                    },
                    DeserializeOutcome::Ready(item) => {
                        proof {
                            self.emitted@ = self.emitted@.push(item@);
                        }
                        out.push(item);
                        proof {
                            assert(self.emitted@ =~= base + items_view(out@));
                            assert(items_view(out@) =~= out0.push(item@));
                            lemma_kept_still(whole, done, kept0, out0, kept0, items_view(out@));
                            assert(Some(items_view(out@)[out0.len() as int]) == spec_parse(
                                whole[done].1,
                            ));
                            assert(entry_kept(whole[done].1, susp_view(self.suspended@), items_view(out@)));
                        }
                    },
                    DeserializeOutcome::Pending(h2, rep2) => {
                        let ghost moved = rep2@;
                        self.suspended.push((h2, rep2));
                        proof {
                            assert(susp_view(self.suspended@) =~= kept0.push((h2, moved)));
                            lemma_kept_still(whole, done, kept0, out0, susp_view(self.suspended@), out0);
                            assert(moved == whole[done].1);
                            assert(susp_view(self.suspended@)[kept0.len() as int].1 == whole[done].1);
                            assert(entry_kept(whole[done].1, susp_view(self.suspended@), items_view(out@)));
                        }
                    },
                }
            }
        }
        out
    }
}

/// The encode side of the pipeline: outgoing abstract items are serialized
/// onto an internal queue, drained in order by the transport's own driver.
pub struct EncodePipeline {
    queued: Vec<Vec<u8>>,
}

/// Failure of the transport sink an encode pipeline drains into.
#[derive(Clone, Copy, Debug, PartialEq, Eq, Structural)]
pub struct SinkError;

/// Failure on the encode path, keeping its two causes — the serializer and
/// the sink — distinguishable.
#[derive(Clone, Copy, Debug, PartialEq, Eq, Structural)]
pub enum EncodeError {
    Format(FormatError),
    Sink(SinkError),
}

impl EncodeError {
    pub fn from_sink_error(err: SinkError) -> (r: Self)
        ensures
            r == EncodeError::Sink(err),
    {
        EncodeError::Sink(err)
    }

    pub fn from_format_error(err: FormatError) -> (r: Self)
        ensures
            r == EncodeError::Format(err),
    {
        EncodeError::Format(err)
    }

    /// A readable rendering of the error.
    pub fn message(&self) -> (r: String)
        ensures
            self is Format ==> r@ == "format error"@,
            self is Sink ==> r@ == "sink error"@,
    {
        match self {
            EncodeError::Format(e) => "format error".to_owned(),
            EncodeError::Sink(e) => "sink error".to_owned(),
        }
    }
}

impl EncodePipeline {
    /// The serialized representations queued for the sink, oldest first.
    pub closed spec fn queued_view(&self) -> Seq<Seq<u8>> {
        self.queued@.map_values(|b: Vec<u8>| b@)
    }

    pub fn new() -> (p: EncodePipeline)
        ensures
            p.queued_view() == Seq::<Seq<u8>>::empty(),
    {
        let p = EncodePipeline { queued: Vec::new() };
        proof {
            assert(p.queued_view() =~= Seq::<Seq<u8>>::empty());
        }
        p
    }

    /// Serializes one outgoing item onto the queue.
    pub fn push_item(&mut self, item: &WireItem)
        ensures
            final(self).queued_view() == old(self).queued_view().push(spec_serialize(item@)),
    {
        let rep = serialize(item);
        self.queued.push(rep);
        proof {
            assert(self.queued_view() =~= old(self).queued_view().push(spec_serialize(item@)));
        }
    }

    /// Hands the oldest queued representation to the sink's driver.
    pub fn drain_next(&mut self) -> (r: Option<Vec<u8>>)
        ensures
            old(self).queued_view().len() > 0 ==> (r matches Some(b) && b@ == old(
                self,
            ).queued_view()[0] && final(self).queued_view() == old(self).queued_view().drop_first(
            )),
            old(self).queued_view().len() == 0 ==> r is None && final(self).queued_view() == old(
                self,
            ).queued_view(),
    {
        if self.queued.len() == 0 {
            None
        } else {
            let b = self.queued.remove(0);
            proof {
                assert(self.queued_view() =~= old(self).queued_view().drop_first());
            }
            Some(b)
        }
    }
}

/// A serialization format used in the transport of values.
///
/// A representation is an opaque byte-or-text unit; `serialize` and
/// `deserialize` are inverses for well-formed items, and a deserialization
/// failure distinguishes, as a structured result, a malformed
/// representation from a forward reference whose fork is still pending.
pub trait Format {
    /// The underlying representation: bytes for a binary format, text for
    /// a human-readable one.
    type Representation;

    /// The item a representation spells, if it is well formed.
    spec fn item_of(rep: &Self::Representation) -> Option<WireItemV>;

    /// Serializes one item into a representation that spells it back.
    fn serialize(item: &WireItem) -> (r: Self::Representation)
        ensures
            Self::item_of(&r) == Some(item@),
    ;

    /// One deserialization attempt against a context; a pending forward
    /// reference hands the representation back unchanged for the retry.
    fn deserialize(rep: Self::Representation, context: &Context) -> (r: DeserializeOutcome<
        Self::Representation,
    >)
        ensures
            match r {
                DeserializeOutcome::Ready(item) => Self::item_of(&rep) == Some(item@)
                    && context.admits(item@),
                DeserializeOutcome::Pending(h, b) => (Self::item_of(&rep) matches Some(i)
                    && !context.admits(i) && item_handles(i).contains(h) && !context.spec_ready(h)
                    && Self::item_of(&b) == Self::item_of(&rep)),
                DeserializeOutcome::Failed(e) => Self::item_of(&rep) is None,
            },
    ;
}

/// The crate's binary wire format: the tag-and-payload byte codec.
pub struct WireFormat;

impl Format for WireFormat {
    type Representation = Vec<u8>;

    open spec fn item_of(rep: &Vec<u8>) -> Option<WireItemV> {
        spec_parse(rep@)
    }

    fn serialize(item: &WireItem) -> (r: Vec<u8>) {
        let r = serialize(item);
        proof {
            lemma_parse_serialize(item@);
        }
        r
    }

    fn deserialize(rep: Vec<u8>, context: &Context) -> (r: DeserializeOutcome<Vec<u8>>) {
        deserialize(rep, context)
    }
}

/// A bidirectional endpoint carrying one item type in both directions: the
/// shape a format pipeline sits on top of.
pub trait UniformStreamSink<T> {
    /// Pushes one item toward the peer.
    fn send(&mut self, item: T) -> Result<(), SinkError>;

    /// The next inbound item, or nothing while the stream is idle.
    fn next(&mut self) -> Option<T>;
}

/// The decoded output never runs ahead of its dependencies: every item the
/// pipeline has ever emitted references only handles that are ready — an
/// item naming fork `H` is emitted only after `H`'s construction is
/// observable, however late `H`'s own data arrived.
pub proof fn lemma_no_early_emission(p: &DecodePipeline)
    requires
        p.wf(),
    ensures
        forall|k: int, j: int|
            0 <= k < p.emitted_view().len() && 0 <= j < item_handles(p.emitted_view()[k]).len()
                ==> p.is_ready(#[trigger] item_handles(p.emitted_view()[k])[j]),
{
}

} // verus!
