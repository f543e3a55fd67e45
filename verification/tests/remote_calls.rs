use vessels::calls::{CallError, CalleeSession, Discipline, Stub};
use vessels::channel::{Endpoint, Frame, Role};
use vessels::format::{parse_item, serialize};
use vessels::wire::{ForkHandle, WireItem};

/// Carries every pending frame from one endpoint to the other, each item
/// passing through its byte representation.
fn pump(from: &mut Endpoint, to: &mut Endpoint) {
    for fork in 0..from.fork_slots() as u64 {
        for frame in from.take_frames(fork).unwrap() {
            let bytes = serialize(&frame.item);
            let item = parse_item(&bytes).expect("the codec is self-inverse");
            to.deliver(Frame { fork: frame.fork, item }).unwrap();
        }
    }
}

#[test]
fn two_argument_call_round_trips() {
    // caller's side
    let mut caller = Endpoint::new(Role::Initiator);
    let mut stub = Stub::new(2, Discipline::Repeat);
    // callee's side, owning the real function
    let mut callee_end = Endpoint::new(Role::Responder);
    let mut callee = CalleeSession::new(2, Discipline::Repeat);

    // the caller forks each argument and sends the two-element handle list
    let h1 = caller.fork_value(3u64).unwrap();
    let h2 = caller.fork_value(String::from("x")).unwrap();
    let request = stub.begin_call(&vec![h1, h2]).unwrap();
    assert_eq!(request, WireItem::Handles(vec![h1, h2]));
    caller.send_on(0, request).unwrap();
    pump(&mut caller, &mut callee_end);

    // the far side reconstructs (3, "x") from the handle list
    let inbound = callee_end.next_on(0).unwrap().unwrap();
    let args = callee.on_request(inbound).unwrap();
    assert_eq!(args, vec![h1, h2]);
    let a: u64 = callee_end.get_fork(args[0]).unwrap();
    let b: String = callee_end.get_fork(args[1]).unwrap();
    assert_eq!(a, 3);
    assert_eq!(b, "x");

    // it computes a result, forks it, and answers with the result's handle
    let mut result = b;
    result.push_str(&a.to_string());
    let rh = callee_end.fork_value(result).unwrap();
    let response = callee.on_result(rh).unwrap();
    callee_end.send_on(0, response).unwrap();
    pump(&mut callee_end, &mut caller);

    // the caller resolves the response handle to that exact result
    let answer = caller.next_on(0).unwrap().unwrap();
    let got = stub.on_response(answer).unwrap();
    assert_eq!(got, rh);
    let value: String = caller.get_fork(got).unwrap();
    assert_eq!(value, "x3");
}

#[test]
fn zero_argument_call_uses_the_bare_request() {
    let mut stub = Stub::new(0, Discipline::Repeat);
    let request = stub.begin_call(&vec![]).unwrap();
    assert_eq!(request, WireItem::Request);
    let mut callee = CalleeSession::new(0, Discipline::Repeat);
    let args = callee.on_request(WireItem::Request).unwrap();
    assert!(args.is_empty());
}

#[test]
fn concurrent_calls_are_serialized() {
    let mut stub = Stub::new(1, Discipline::Repeat);
    let h = ForkHandle { id: 1 };
    // the first caller holds the channel for its whole round trip
    let first = stub.begin_call(&vec![h]);
    assert!(first.is_ok());
    // a second caller cannot interleave its request
    assert_eq!(stub.begin_call(&vec![h]), Err(CallError::Busy));
    // once the first round completes, the channel is free again
    stub.on_response(WireItem::Handle(ForkHandle { id: 3 })).unwrap();
    assert!(stub.begin_call(&vec![h]).is_ok());
}

#[test]
fn call_once_is_spent_after_one_round() {
    let mut stub = Stub::new(0, Discipline::Once);
    stub.begin_call(&vec![]).unwrap();
    stub.on_response(WireItem::Handle(ForkHandle { id: 2 })).unwrap();
    assert_eq!(stub.begin_call(&vec![]), Err(CallError::Spent));
}

#[test]
fn arity_mismatch_is_refused() {
    let mut stub = Stub::new(2, Discipline::Repeat);
    assert_eq!(stub.begin_call(&vec![ForkHandle { id: 1 }]), Err(CallError::BadArity));
    let mut callee = CalleeSession::new(2, Discipline::Repeat);
    assert_eq!(
        callee.on_request(WireItem::Handles(vec![ForkHandle { id: 1 }])),
        Err(CallError::BadArity)
    );
    assert_eq!(callee.on_request(WireItem::Request), Err(CallError::BadArity));
}

#[test]
fn protocol_misuse_is_a_typed_error() {
    let mut stub = Stub::new(0, Discipline::Repeat);
    // a response without an outstanding request
    assert_eq!(
        stub.on_response(WireItem::Handle(ForkHandle { id: 1 })),
        Err(CallError::Protocol)
    );
    // a response of the wrong shape
    stub.begin_call(&vec![]).unwrap();
    assert_eq!(stub.on_response(WireItem::Request), Err(CallError::Protocol));
    // a result before any request reached the callee
    let mut callee = CalleeSession::new(0, Discipline::Repeat);
    assert_eq!(callee.on_result(ForkHandle { id: 1 }), Err(CallError::Protocol));
}

#[test]
fn spent_callee_answers_no_further_request() {
    let mut callee = CalleeSession::new(0, Discipline::Once);
    callee.on_request(WireItem::Request).unwrap();
    callee.on_result(ForkHandle { id: 4 }).unwrap();
    assert_eq!(callee.on_request(WireItem::Request), Err(CallError::Protocol));
}
