use dabus::bus::error::CallTrace;
use dabus::dyn_var::DynVar;
use dabus::event::{EventDef, EventRegister};
use dabus::interface::{BusInterfaceEvent, Unrecovered};
use dabus::stop::{BusStop, BusStopContainer};

struct PingTag;
struct PongTag;

fn ping() -> EventDef<PingTag, u8, u8> {
    EventDef::new("PING", "u8", "u8")
}

fn pong() -> EventDef<PongTag, u8, u8> {
    EventDef::new("PONG", "u8", "u8")
}

#[derive(Debug)]
struct Player;

impl BusStop<&'static str> for Player {
    fn registered_handlers(
        h: EventRegister<Self, &'static str>,
    ) -> EventRegister<Self, &'static str> {
        h.handler(&ping(), "on ping").handler(&pong(), "on pong")
    }
}

#[derive(Debug)]
struct Confused;

impl BusStop<&'static str> for Confused {
    fn registered_handlers(
        h: EventRegister<Self, &'static str>,
    ) -> EventRegister<Self, &'static str> {
        h.handler(&ping(), "first").handler(&ping(), "second")
    }
}

#[test]
fn a_definition_keeps_its_names() {
    let def = ping();
    assert_eq!(def.name(), "PING");
    assert_eq!(def.args_type(), "u8");
    assert_eq!(def.return_type(), "u8");
}

#[test]
fn two_declarations_with_the_same_types_have_two_identities() {
    assert_ne!(ping().identity(), pong().identity());
    assert_eq!(ping().identity(), ping().identity());
    assert_eq!(ping().identity(), std::any::TypeId::of::<PingTag>());
}

#[test]
fn the_register_keeps_entries_in_order() {
    let h: EventRegister<Player, &'static str> = EventRegister::new();
    assert!(h.handlers.is_empty());
    let h = h.handler(&ping(), "on ping");
    let h = h.handler(&pong(), "on pong");
    assert_eq!(h.handlers.len(), 2);
    assert_eq!(h.handlers[0].event, ping().identity());
    assert_eq!(h.handlers[0].handler, "on ping");
    assert_eq!(h.handlers[0].label, "name: PING, args: u8, return: u8");
    assert_eq!(h.handlers[1].event, pong().identity());
    assert_eq!(h.handlers[1].handler, "on pong");
    assert_eq!(h.handlers[1].label, "name: PONG, args: u8, return: u8");
}

#[test]
fn registering_twice_gives_the_same_table() {
    let a = Player::registered_handlers(EventRegister::new());
    let b = Player::registered_handlers(EventRegister::new());
    assert_eq!(a.handlers.len(), b.handlers.len());
    for (x, y) in a.handlers.iter().zip(b.handlers.iter()) {
        assert_eq!(x.event, y.event);
        assert_eq!(x.handler, y.handler);
        assert_eq!(x.label, y.label);
    }
}

#[test]
fn a_container_answers_for_the_events_of_its_table() {
    let stop: BusStopContainer<&'static str> = BusStopContainer::new(Player);
    assert_eq!(stop.matches(&ping().identity()), 1);
    assert!(stop.relevant(&ping().identity()));
    assert!(stop.relevant(&pong().identity()));
    assert_eq!(stop.matches(&std::any::TypeId::of::<u8>()), 0);
    assert!(!stop.relevant(&std::any::TypeId::of::<u8>()));
    assert_eq!(stop.handler_for(&ping().identity()), Some(&"on ping"));
    assert_eq!(stop.handler_for(&pong().identity()), Some(&"on pong"));
    assert_eq!(stop.handler_for(&std::any::TypeId::of::<u8>()), None);
    assert_eq!(stop.debug(), "Player");
    assert!(stop.inner.is::<Player>());
}

#[test]
fn a_table_may_be_found_to_claim_an_event_twice() {
    let stop: BusStopContainer<&'static str> = BusStopContainer::new(Confused);
    assert_eq!(stop.matches(&ping().identity()), 2);
    assert_eq!(stop.handler_for(&ping().identity()), Some(&"first"));
}

#[test]
fn a_request_to_fire_carries_identity_arguments_and_node() {
    match BusInterfaceEvent::fire(&ping(), 3u8) {
        BusInterfaceEvent::Fire { def, args, trace_data } => {
            assert_eq!(def, ping().identity());
            assert_eq!(args.debug_snapshot(), "3");
            assert_eq!(args.try_to::<u8>().ok(), Some(3));
            assert_eq!(trace_data.handler_name, "PING");
            assert_eq!(trace_data.handler_args.as_deref(), Some("3"));
            assert!(trace_data.resolution.is_none());
            assert!(trace_data.inner.is_empty());
        }
        BusInterfaceEvent::FwdBusError { .. } => panic!("a request to fire was asked for"),
    }
}

#[test]
fn an_answer_is_recovered_as_the_promised_type() {
    assert_eq!(BusInterfaceEvent::recover::<u8>(Ok(DynVar::new(4u8))).ok(), Some(4));
    assert!(matches!(
        BusInterfaceEvent::recover::<u8>(Err(CallTrace { root: None })),
        Err(Unrecovered::Failed(_))
    ));
    match BusInterfaceEvent::recover::<u8>(Ok(DynVar::new(4u16))) {
        Err(Unrecovered::Mistyped(value, None)) => assert_eq!(value.try_to::<u16>().ok(), Some(4)),
        _ => panic!("a u16 is no u8"),
    }
}

#[test]
fn unwrap_or_fwd_turns_a_failure_into_a_request_to_forward() {
    assert_eq!(BusInterfaceEvent::unwrap_or_fwd(Ok(5u8)).ok(), Some(5));
    let failed: Result<u8, CallTrace> = Err(CallTrace { root: None });
    assert!(matches!(
        BusInterfaceEvent::unwrap_or_fwd(failed),
        Err(BusInterfaceEvent::FwdBusError { .. })
    ));
    assert!(matches!(
        BusInterfaceEvent::fwd_bus_err(CallTrace { root: None }),
        BusInterfaceEvent::FwdBusError { .. }
    ));
}
