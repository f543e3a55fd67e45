use vessels::channel::{Endpoint, Role};
use vessels::registry::{
    fingerprint_eq, Core, CoreError, Fingerprint, Logger, UnimplementedError,
};
use vessels::wire::ForkHandle;

fn fp(seed: u8) -> Fingerprint {
    let mut bytes = [0u8; 32];
    bytes[0] = seed;
    bytes[31] = seed.wrapping_mul(3);
    Fingerprint { bytes }
}

#[test]
fn fingerprints_compare_by_all_bytes() {
    assert!(fingerprint_eq(&fp(1), &fp(1)));
    assert!(!fingerprint_eq(&fp(1), &fp(2)));
    let mut near = fp(1);
    near.bytes[31] ^= 1;
    assert!(!fingerprint_eq(&fp(1), &near));
}

#[test]
fn registered_factory_is_acquired() {
    let mut core: Core<u64> = Core::new();
    core.register(fp(1), 11);
    core.register(fp(2), 22);
    let handle = core.into_handle();
    assert_eq!(handle.acquire(&fp(1)), Ok(&11));
    assert_eq!(handle.acquire(&fp(2)), Ok(&22));
}

#[test]
fn unregistered_fingerprint_is_unavailable() {
    let core: Core<u64> = Core::new();
    let handle = core.into_handle();
    assert!(matches!(handle.acquire(&fp(9)), Err(CoreError::Unavailable)));
}

#[test]
fn the_last_registration_wins() {
    let mut core: Core<u64> = Core::new();
    core.register(fp(1), 11);
    core.register(fp(1), 99);
    assert_eq!(core.into_handle().acquire(&fp(1)), Ok(&99));
}

#[test]
fn registrations_do_not_disturb_each_other() {
    let mut core: Core<&'static str> = Core::new();
    core.register(fp(1), "first");
    core.register(fp(2), "second");
    core.register(fp(1), "replaced");
    let handle = core.into_handle();
    assert_eq!(handle.acquire(&fp(2)), Ok(&"second"));
    assert_eq!(handle.acquire(&fp(1)), Ok(&"replaced"));
}

#[test]
fn error_messages_render() {
    assert_eq!(
        CoreError::Unavailable.message(),
        "this feature is unavailable or unregistered"
    );
    let unimplemented = UnimplementedError { feature: String::from("camera") };
    assert_eq!(unimplemented.message(), "camera is unimplemented on this target");
    assert_eq!(
        CoreError::Unimplemented(unimplemented).message(),
        "camera is unimplemented on this target"
    );
    assert_eq!(
        CoreError::Construct(vessels::kind::ConstructError::Send).message(),
        "handle transfer failed"
    );
    let _ = Logger::new();
}

#[test]
fn acquired_capability_resolves_through_the_multiplexer() {
    // the serving side forks the capability's value and registers its handle
    let mut server = Endpoint::new(Role::Responder);
    let offered = server.fork_value(String::from("telemetry")).unwrap();
    let mut core: Core<ForkHandle> = Core::new();
    core.register(fp(7), offered);
    let handle = core.into_handle();
    // the acquiring side resolves the fingerprint, then the fork
    let got = *handle.acquire(&fp(7)).unwrap();
    let mut client = Endpoint::new(Role::Initiator);
    for frame in server.take_frames(got.id).unwrap() {
        client.deliver(frame).unwrap();
    }
    let value: String = client.get_fork(got).unwrap();
    assert_eq!(value, "telemetry");
}
