use vessels::channel::ChannelEnd;
use vessels::context::Context;
use vessels::format::{
    deserialize, serialize, DecodePipeline, DeserializeOutcome, EncodeError, EncodePipeline,
    FormatError, SinkError,
};
use vessels::kind::Kind;
use vessels::wire::{ForkHandle, Primitive, WireItem};

#[test]
fn context_readiness_is_monotone_and_idempotent() {
    let mut ctx = Context::new();
    assert!(!ctx.is_ready(3));
    ctx.mark_ready(3);
    assert!(ctx.is_ready(3));
    ctx.mark_ready(3);
    assert!(ctx.is_ready(3));
    assert!(!ctx.is_ready(4));
}

#[test]
fn predicate_follows_referenced_handles() {
    let mut ctx = Context::new();
    let plain = WireItem::Value(Primitive::Uint(1));
    let one = WireItem::Handle(ForkHandle { id: 7 });
    let two = WireItem::Handles(vec![ForkHandle { id: 7 }, ForkHandle { id: 8 }]);
    assert!(ctx.predicate(&plain));
    assert!(!ctx.predicate(&one));
    ctx.mark_ready(7);
    assert!(ctx.predicate(&one));
    assert!(!ctx.predicate(&two));
    ctx.mark_ready(8);
    assert!(ctx.predicate(&two));
}

#[test]
fn deserialize_distinguishes_the_three_outcomes() {
    let ctx = Context::new();
    match deserialize(serialize(&WireItem::Value(Primitive::Uint(9))), &ctx) {
        DeserializeOutcome::Ready(item) => {
            assert_eq!(item, WireItem::Value(Primitive::Uint(9)))
        },
        other => panic!("expected a ready item, got {:?}", outcome_name(&other)),
    }
    let rep = serialize(&WireItem::Handle(ForkHandle { id: 5 }));
    match deserialize(rep.clone(), &ctx) {
        DeserializeOutcome::Pending(h, back) => {
            assert_eq!(h, 5);
            assert_eq!(back, rep, "the representation comes back for the retry");
        },
        other => panic!("expected a pending reference, got {:?}", outcome_name(&other)),
    }
    match deserialize(vec![99u8], &ctx) {
        DeserializeOutcome::Failed(FormatError) => {},
        other => panic!("expected a failure, got {:?}", outcome_name(&other)),
    }
}

fn outcome_name(o: &DeserializeOutcome<Vec<u8>>) -> &'static str {
    match o {
        DeserializeOutcome::Ready(_) => "ready",
        DeserializeOutcome::Pending(_, _) => "pending",
        DeserializeOutcome::Failed(_) => "failed",
    }
}

#[test]
fn forward_reference_is_emitted_only_after_its_fork_is_ready() {
    let mut p = DecodePipeline::new();
    // the item referencing fork 9 arrives before fork 9's own data
    let early = p.accept(serialize(&WireItem::Handle(ForkHandle { id: 9 }))).unwrap();
    assert!(early.is_empty(), "nothing may be emitted before the fork is ready");
    // an unrelated plain item flows through immediately
    let through = p.accept(serialize(&WireItem::Value(Primitive::Uint(1)))).unwrap();
    assert_eq!(through, vec![WireItem::Value(Primitive::Uint(1))]);
    // fork 9's construction begins: the suspended item is released
    let released = p.notify_ready(9);
    assert_eq!(released, vec![WireItem::Handle(ForkHandle { id: 9 })]);
}

#[test]
fn item_with_several_references_waits_for_all_of_them() {
    let mut p = DecodePipeline::new();
    let item = WireItem::Handles(vec![ForkHandle { id: 2 }, ForkHandle { id: 4 }]);
    assert!(p.accept(serialize(&item)).unwrap().is_empty());
    assert!(p.notify_ready(2).is_empty(), "one of two references is not enough");
    assert_eq!(p.notify_ready(4), vec![item]);
}

#[test]
fn ready_reference_flows_through_without_suspension() {
    let mut p = DecodePipeline::new();
    assert!(p.notify_ready(6).is_empty());
    let out = p.accept(serialize(&WireItem::Handle(ForkHandle { id: 6 }))).unwrap();
    assert_eq!(out, vec![WireItem::Handle(ForkHandle { id: 6 })]);
}

#[test]
fn malformed_representation_aborts_with_the_format_error() {
    let mut p = DecodePipeline::new();
    assert_eq!(p.accept(vec![1u8, 7]), Err(FormatError));
}

#[test]
fn decode_of_encode_of_deconstruct_reconstructs_the_value() {
    // deconstruct the value into items on a channel
    let mut sender = ChannelEnd::new();
    9876u64.deconstruct(&mut sender).unwrap();
    // encode: every item becomes its byte representation
    let mut encoder = EncodePipeline::new();
    for item in sender.take_outgoing() {
        encoder.push_item(&item);
    }
    // decode: the byte stream flows through the admission stage
    let mut decoder = DecodePipeline::new();
    let mut receiver = ChannelEnd::new();
    while let Some(bytes) = encoder.drain_next() {
        for item in decoder.accept(bytes).unwrap() {
            receiver.deliver(item);
        }
    }
    // construct the value back
    assert_eq!(<u64 as Kind>::construct(&mut receiver), Ok(9876u64));
}

#[test]
fn encode_pipeline_drains_in_order() {
    let mut p = EncodePipeline::new();
    p.push_item(&WireItem::Value(Primitive::Bool(true)));
    p.push_item(&WireItem::Request);
    assert_eq!(p.drain_next(), Some(vec![1u8, 1]));
    assert_eq!(p.drain_next(), Some(vec![8u8]));
    assert_eq!(p.drain_next(), None);
}

#[test]
fn encode_error_keeps_its_two_causes_apart() {
    let f = EncodeError::from_format_error(FormatError);
    let s = EncodeError::from_sink_error(SinkError);
    assert_eq!(f, EncodeError::Format(FormatError));
    assert_eq!(s, EncodeError::Sink(SinkError));
    assert_eq!(f.message(), "format error");
    assert_eq!(s.message(), "sink error");
}
