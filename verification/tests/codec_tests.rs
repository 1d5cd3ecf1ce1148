use wascc_host::bus::{actor_subject, provider_subject};
use wascc_host::codec::{
    deserialize_invocation, deserialize_response, serialize_invocation, serialize_response,
    Invocation, InvocationResponse, InvocationTarget,
};
use wascc_host::errors::ErrorKind;

fn pk() -> String {
    let mut s = String::from("M");
    for _ in 0..55 {
        s.push('A');
    }
    s
}

#[test]
fn invocation_round_trips_through_the_wire() {
    let inv = Invocation::new(
        pk(),
        InvocationTarget::Capability {
            capid: "wascc:http_server".to_string(),
            binding: "default".to_string(),
        },
        "HandleRequest",
        vec![0, 1, 2, 254, 255],
    );
    let bytes = serialize_invocation(&inv);
    let back = deserialize_invocation(&bytes).unwrap();
    assert_eq!(back.origin, inv.origin);
    assert_eq!(back.operation, inv.operation);
    assert_eq!(back.msg, inv.msg);
    match back.target {
        InvocationTarget::Capability { capid, binding } => {
            assert_eq!(capid, "wascc:http_server");
            assert_eq!(binding, "default");
        }
        InvocationTarget::Actor(_) => panic!("wrong target variant"),
    }
}

#[test]
fn actor_target_and_unicode_round_trip() {
    let inv = Invocation::new(
        "system".to_string(),
        InvocationTarget::Actor(pk()),
        "opération-ünïcode",
        Vec::new(),
    );
    let bytes = serialize_invocation(&inv);
    let back = deserialize_invocation(&bytes).unwrap();
    assert_eq!(back.operation, "opération-ünïcode");
    match back.target {
        InvocationTarget::Actor(k) => assert_eq!(k, pk()),
        InvocationTarget::Capability { .. } => panic!("wrong target variant"),
    }
}

#[test]
fn responses_round_trip_through_the_wire() {
    let ok = InvocationResponse::success(vec![42, 0, 7]);
    let back = deserialize_response(&serialize_response(&ok)).unwrap();
    assert_eq!(back.msg, vec![42, 0, 7]);
    assert!(back.error.is_none());

    let failed = InvocationResponse::error("the provider choked".to_string());
    let back = deserialize_response(&serialize_response(&failed)).unwrap();
    assert!(back.msg.is_empty());
    assert_eq!(back.error.as_deref(), Some("the provider choked"));
}

#[test]
fn garbage_is_a_serialization_error() {
    let err = deserialize_invocation(&vec![9, 9, 9]).unwrap_err();
    assert_eq!(err.kind(), ErrorKind::Serialization);
    let err = deserialize_response(&Vec::new()).unwrap_err();
    assert_eq!(err.kind(), ErrorKind::Serialization);
    // A truncated but well-tagged envelope is refused too.
    let inv = Invocation::new(
        "system".to_string(),
        InvocationTarget::Actor(pk()),
        "ping",
        vec![1, 2, 3],
    );
    let mut bytes = serialize_invocation(&inv);
    bytes.pop();
    assert!(deserialize_invocation(&bytes).is_err());
}

#[test]
fn a_response_is_not_an_invocation() {
    let resp = InvocationResponse::success(vec![1]);
    let bytes = serialize_response(&resp);
    let err = deserialize_invocation(&bytes).unwrap_err();
    assert_eq!(err.kind(), ErrorKind::Serialization);
}

#[test]
fn subjects_follow_the_grammar() {
    assert_eq!(actor_subject("MABC"), "wasmbus.actor.MABC");
    assert_eq!(
        provider_subject("wascc:http_server", "default"),
        "wasmbus.provider.wascc:http_server.default"
    );
}
