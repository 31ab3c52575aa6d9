use amqp_core::message::{BasicProperties, BasicReturnMessage, Confirmation};
use amqp_core::pinky_swear::PinkySwear;
use amqp_core::returned_messages::Inner;

fn returned(routing_key: &str) -> BasicReturnMessage {
    BasicReturnMessage::new(
        "orders".to_string(),
        routing_key.to_string(),
        312,
        "NO_ROUTE".to_string(),
    )
}

fn complete(inner: &mut Inner, routing_key: &str) {
    inner.start_new_delivery(returned(routing_key));
    inner.new_delivery_complete();
}

#[test]
fn a_new_message_has_no_content() {
    let message = returned("a");
    assert_eq!(message.delivery.exchange, "orders");
    assert_eq!(message.delivery.routing_key, "a");
    assert_eq!(message.delivery.properties, BasicProperties::default());
    assert_eq!(BasicProperties::new(), BasicProperties::default());
    assert_eq!(message.delivery.data, Vec::<u8>::new());
    assert_eq!(message.reply_code, 312);
    assert_eq!(message.reply_text, "NO_ROUTE");
}

#[test]
fn a_promise_is_unresolved_until_sworn() {
    let (promise, broadcaster) = PinkySwear::new();
    assert_eq!(promise.try_wait(), None);
    broadcaster.swear(Confirmation::Ack);
    assert_eq!(promise.try_wait(), Some(Confirmation::Ack));
}

#[test]
fn a_promise_whose_broadcaster_is_gone_stays_unresolved() {
    let (promise, broadcaster) = PinkySwear::new();
    drop(broadcaster);
    assert_eq!(promise.try_wait(), None);
}

#[test]
fn a_return_resolves_the_waiting_confirm() {
    let mut inner = Inner::new();
    let (promise, broadcaster) = PinkySwear::new();
    inner.register_pinky(broadcaster);
    assert_eq!(promise.try_wait(), None);

    inner.start_new_delivery(returned("a"));
    let properties = BasicProperties {
        content_type: Some("text/plain".to_string()),
        delivery_mode: Some(2),
        ..BasicProperties::default()
    };
    inner.set_delivery_properties(properties.clone());
    inner.receive_delivery_content(b"hello, ".to_vec());
    inner.receive_delivery_content(b"world".to_vec());
    assert_eq!(promise.try_wait(), None);
    inner.new_delivery_complete();

    let mut expected = returned("a");
    expected.delivery.properties = properties;
    expected.delivery.data = b"hello, world".to_vec();
    assert_eq!(promise.try_wait(), Some(Confirmation::Nack(expected)));
    assert_eq!(inner.drain(), vec![]);
}

#[test]
fn a_confirm_is_resolved_by_the_waiting_return() {
    let mut inner = Inner::new();
    complete(&mut inner, "a");
    let (promise, broadcaster) = PinkySwear::new();
    inner.register_pinky(broadcaster);
    assert_eq!(promise.try_wait(), Some(Confirmation::Nack(returned("a"))));

    let (second, broadcaster) = PinkySwear::new();
    inner.register_pinky(broadcaster);
    assert_eq!(second.try_wait(), None);
}

#[test]
fn returns_and_confirms_pair_up_oldest_first() {
    let mut inner = Inner::new();
    complete(&mut inner, "a");
    complete(&mut inner, "b");
    let (first, broadcaster) = PinkySwear::new();
    inner.register_pinky(broadcaster);
    let (second, broadcaster) = PinkySwear::new();
    inner.register_pinky(broadcaster);
    let (third, broadcaster) = PinkySwear::new();
    inner.register_pinky(broadcaster);
    let (fourth, broadcaster) = PinkySwear::new();
    inner.register_pinky(broadcaster);
    assert_eq!(first.try_wait(), Some(Confirmation::Nack(returned("a"))));
    assert_eq!(second.try_wait(), Some(Confirmation::Nack(returned("b"))));
    assert_eq!(third.try_wait(), None);
    assert_eq!(fourth.try_wait(), None);
    complete(&mut inner, "c");
    assert_eq!(third.try_wait(), Some(Confirmation::Nack(returned("c"))));
    assert_eq!(fourth.try_wait(), None);
    complete(&mut inner, "d");
    assert_eq!(fourth.try_wait(), Some(Confirmation::Nack(returned("d"))));
    assert_eq!(first.try_wait(), None);
}

#[test]
fn the_decisions_name_the_claim() {
    let mut inner = Inner::new();
    let (promise, broadcaster) = PinkySwear::new();
    assert!(inner.claim_return(broadcaster).is_none());
    assert!(inner.complete_delivery().is_none());
    inner.start_new_delivery(returned("a"));
    let claim = inner.complete_delivery().unwrap();
    assert_eq!(claim.message, returned("a"));
    assert_eq!(promise.try_wait(), None);
    claim.settle();
    assert_eq!(promise.try_wait(), Some(Confirmation::Nack(returned("a"))));

    complete(&mut inner, "b");
    let (promise, broadcaster) = PinkySwear::new();
    let claim = inner.claim_return(broadcaster).unwrap();
    assert_eq!(claim.message, returned("b"));
    assert_eq!(promise.try_wait(), None);
    claim.settle();
    assert_eq!(promise.try_wait(), Some(Confirmation::Nack(returned("b"))));
}

#[test]
fn without_a_message_in_assembly_nothing_happens() {
    let mut inner = Inner::new();
    let (promise, broadcaster) = PinkySwear::new();
    inner.register_pinky(broadcaster);
    inner.set_delivery_properties(BasicProperties::default());
    inner.receive_delivery_content(b"lost".to_vec());
    inner.new_delivery_complete();
    assert_eq!(promise.try_wait(), None);
    complete(&mut inner, "a");
    assert_eq!(promise.try_wait(), Some(Confirmation::Nack(returned("a"))));
    inner.new_delivery_complete();
    let (later, broadcaster) = PinkySwear::new();
    inner.register_pinky(broadcaster);
    assert_eq!(later.try_wait(), None);
}

#[test]
fn starting_anew_gives_up_the_unfinished_message() {
    let mut inner = Inner::new();
    inner.start_new_delivery(returned("a"));
    inner.receive_delivery_content(b"half".to_vec());
    inner.start_new_delivery(returned("b"));
    inner.receive_delivery_content(b"whole".to_vec());
    inner.new_delivery_complete();
    let (promise, broadcaster) = PinkySwear::new();
    inner.register_pinky(broadcaster);
    let mut expected = returned("b");
    expected.delivery.data = b"whole".to_vec();
    assert_eq!(promise.try_wait(), Some(Confirmation::Nack(expected)));
    let (none, broadcaster) = PinkySwear::new();
    inner.register_pinky(broadcaster);
    assert_eq!(none.try_wait(), None);
}

#[test]
fn a_dropped_confirm_that_was_acknowledged_is_forgotten() {
    let mut inner = Inner::new();
    let (promise, broadcaster) = PinkySwear::new();
    broadcaster.swear(Confirmation::Ack);
    inner.register_dropped_confirm(promise);
    assert_eq!(inner.drain(), vec![]);
    assert_eq!(inner.drain(), vec![]);
}

#[test]
fn a_dropped_confirm_that_was_returned_is_drained_next() {
    let mut inner = Inner::new();
    let (promise, broadcaster) = PinkySwear::new();
    broadcaster.swear(Confirmation::Nack(returned("a")));
    inner.register_dropped_confirm(promise);
    assert_eq!(inner.drain(), vec![returned("a")]);
    assert_eq!(inner.drain(), vec![]);
}

#[test]
fn an_unresolved_dropped_confirm_is_kept_until_it_resolves() {
    let mut inner = Inner::new();
    let (promise, broadcaster) = PinkySwear::new();
    inner.register_dropped_confirm(promise);
    assert_eq!(inner.drain(), vec![]);
    assert_eq!(inner.drain(), vec![]);
    broadcaster.swear(Confirmation::Nack(returned("a")));
    assert_eq!(inner.drain(), vec![returned("a")]);
    assert_eq!(inner.drain(), vec![]);
}

#[test]
fn drain_appends_what_the_sweep_finds() {
    let mut inner = Inner::new();
    let (first, first_broadcaster) = PinkySwear::new();
    let (second, second_broadcaster) = PinkySwear::new();
    let (third, third_broadcaster) = PinkySwear::new();
    let (fourth, fourth_broadcaster) = PinkySwear::new();
    inner.register_dropped_confirm(first);
    inner.register_dropped_confirm(second);
    inner.register_dropped_confirm(third);
    inner.register_dropped_confirm(fourth);
    let (ready, ready_broadcaster) = PinkySwear::new();
    ready_broadcaster.swear(Confirmation::Nack(returned("ready")));
    inner.register_dropped_confirm(ready);

    third_broadcaster.swear(Confirmation::Nack(returned("c")));
    first_broadcaster.swear(Confirmation::Nack(returned("a")));
    second_broadcaster.swear(Confirmation::Ack);
    assert_eq!(inner.drain(), vec![returned("ready"), returned("a"), returned("c")]);
    assert_eq!(inner.drain(), vec![]);
    fourth_broadcaster.swear(Confirmation::Nack(returned("d")));
    assert_eq!(inner.drain(), vec![returned("d")]);
}

#[test]
fn record_dropped_confirm_goes_by_what_the_poll_found() {
    let mut inner = Inner::new();
    let (promise, _broadcaster) = PinkySwear::new();
    inner.record_dropped_confirm(promise, Some(Confirmation::Nack(returned("a"))));
    let (promise, _broadcaster) = PinkySwear::new();
    inner.record_dropped_confirm(promise, Some(Confirmation::Ack));
    let (promise, broadcaster) = PinkySwear::new();
    inner.record_dropped_confirm(promise, None);
    let (promise, _broadcaster) = PinkySwear::new();
    inner.record_dropped_confirm(promise, Some(Confirmation::Nack(returned("b"))));
    assert_eq!(inner.drain(), vec![returned("a"), returned("b")]);
    broadcaster.swear(Confirmation::Nack(returned("c")));
    assert_eq!(inner.drain(), vec![returned("c")]);
}

#[test]
fn unclaimed_returns_wait_and_are_not_drained() {
    let mut inner = Inner::default();
    complete(&mut inner, "a");
    complete(&mut inner, "b");
    complete(&mut inner, "c");
    assert_eq!(inner.drain(), vec![]);
}

#[test]
fn claimed_returns_reach_the_drain_through_dropped_confirms() {
    let mut inner = Inner::new();
    let names = ["a", "b", "c", "d"];
    for name in names {
        complete(&mut inner, name);
    }
    for _ in names {
        let (promise, broadcaster) = PinkySwear::new();
        inner.register_pinky(broadcaster);
        inner.register_dropped_confirm(promise);
    }
    assert_eq!(
        inner.drain(),
        vec![returned("a"), returned("b"), returned("c"), returned("d")]
    );
    assert_eq!(inner.drain(), vec![]);
}
