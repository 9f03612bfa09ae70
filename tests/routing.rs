use mqtt_bridge::config::{parse_decimal_u8, SingleBasicRoute, SingleBasicRouteError};
use mqtt_bridge::pipeline::{Bridge, Emitters, InboundEvent, Listener};
use mqtt_bridge::qos::QoS;
use mqtt_bridge::router::{BasicRoute, BasicRouter, Destination, PayloadForward};
use mqtt_bridge::topic::{split_on, Topic, TopicCompare};

fn segs(parts: &[&str]) -> Topic {
    Topic { path: parts.iter().map(|s| s.to_string()).collect() }
}

fn suffix_of(r: TopicCompare) -> Option<Vec<String>> {
    match r {
        TopicCompare::Mismatch => None,
        TopicCompare::Match { additional_path } => Some(additional_path),
    }
}

fn dest(topic: &str, client_id: u16, qos: QoS) -> Destination {
    Destination { topic: Topic::from(topic), client_id, qos }
}

fn route(pattern: &str, dests: Vec<Destination>) -> BasicRoute {
    BasicRoute { source_topic: Topic::from(pattern), dests }
}

fn resolved(f: &PayloadForward) -> Vec<(String, u16, QoS)> {
    f.destinations.iter().map(|d| (d.topic.to_string(), d.client_id, d.qos)).collect()
}

#[test]
fn literal_patterns_match_only_equal_topics() {
    let p = segs(&["a", "b"]);
    assert_eq!(suffix_of(p.accepts(&segs(&["a", "b"]))), Some(vec![]));
    assert_eq!(suffix_of(p.accepts(&segs(&["a", "c"]))), None);
    assert_eq!(suffix_of(p.accepts(&segs(&["a"]))), None);
    assert_eq!(suffix_of(segs(&[]).accepts(&segs(&[]))), Some(vec![]));
}

#[test]
fn single_level_wildcard() {
    let p = segs(&["a", "+", "c"]);
    assert_eq!(suffix_of(p.accepts(&segs(&["a", "b", "c"]))), Some(vec![]));
    assert_eq!(suffix_of(p.accepts(&segs(&["a", "b", "d"]))), None);
    assert_eq!(suffix_of(p.accepts(&segs(&["a", "", "c"]))), Some(vec![]));
    assert_eq!(suffix_of(p.accepts(&segs(&["a", "b"]))), None);
}

#[test]
fn multi_level_wildcard_absorbs_suffix() {
    let p = segs(&["a", "#"]);
    assert_eq!(
        suffix_of(p.accepts(&segs(&["a", "b", "c"]))),
        Some(vec!["b".to_string(), "c".to_string()])
    );
    assert_eq!(suffix_of(p.accepts(&segs(&["a"]))), Some(vec![]));
    assert_eq!(suffix_of(p.accepts(&segs(&["x", "b"]))), None);
}

#[test]
fn no_wildcard_length_mismatch() {
    let p = segs(&["a", "b"]);
    assert_eq!(suffix_of(p.accepts(&segs(&["a", "b", "c"]))), None);
}

#[test]
fn topic_text_round_trip() {
    let t = Topic::from("/a//b");
    assert_eq!(t.path, vec!["", "a", "", "b"]);
    assert_eq!(t.to_string(), "/a//b");
    assert_eq!(Topic::from("").path, vec![""]);
    assert_eq!(split_on("x y  z", ' '), vec!["x", "y", "", "z"]);
}

#[test]
fn fan_out_concatenates_in_table_order() {
    let router = BasicRouter {
        routes: vec![
            route("a/+", vec![dest("one", 1, QoS::AtMostOnce), dest("two", 2, QoS::AtLeastOnce)]),
            route("nope", vec![dest("never", 3, QoS::AtMostOnce)]),
            route("a/#", vec![dest("three", 0, QoS::ExactlyOnce)]),
        ],
    };
    let f = router.route_packet("a/b", &b"p".to_vec()).unwrap();
    assert_eq!(
        resolved(&f),
        vec![
            ("one".to_string(), 1, QoS::AtMostOnce),
            ("two".to_string(), 2, QoS::AtLeastOnce),
            ("three/b".to_string(), 0, QoS::ExactlyOnce),
        ]
    );
    assert_eq!(f.payload, b"p".to_vec());
}

#[test]
fn destination_topic_resolution() {
    let router = BasicRouter { routes: vec![route("a/#", vec![dest("b/out", 1, QoS::AtLeastOnce)])] };
    let f = router.route_packet("a/x/y", &vec![]).unwrap();
    assert_eq!(resolved(&f), vec![("b/out/x/y".to_string(), 1, QoS::AtLeastOnce)]);

    let literal = BasicRouter { routes: vec![route("a/x", vec![dest("b/out", 1, QoS::AtLeastOnce)])] };
    let f = literal.route_packet("a/x", &vec![]).unwrap();
    assert_eq!(resolved(&f), vec![("b/out".to_string(), 1, QoS::AtLeastOnce)]);
}

#[test]
fn no_matching_route_yields_nothing() {
    let router = BasicRouter { routes: vec![route("a/b", vec![dest("c", 1, QoS::AtMostOnce)])] };
    assert!(router.route_packet("a/c", &b"x".to_vec()).is_none());
    assert!(BasicRouter { routes: vec![] }.route_packet("a", &vec![]).is_none());
    let empty_dests = BasicRouter { routes: vec![route("a", vec![])] };
    assert!(empty_dests.route_packet("a", &vec![]).is_none());
}

#[test]
fn interleaved_routing_equals_sequential() {
    let router = BasicRouter {
        routes: vec![
            route("s/+/t", vec![dest("o", 1, QoS::AtLeastOnce)]),
            route("s/#", vec![dest("p", 2, QoS::AtMostOnce)]),
        ],
    };
    let inputs: Vec<String> = (0..8).map(|i| format!("s/{}/t", i)).collect();
    let sequential: Vec<Vec<(String, u16, QoS)>> =
        inputs.iter().map(|t| resolved(&router.route_packet(t, &vec![7]).unwrap())).collect();
    let shared = &router;
    let mut interleaved: Vec<Vec<(String, u16, QoS)>> = vec![vec![]; inputs.len()];
    for i in (0..inputs.len()).rev() {
        interleaved[i] = resolved(&shared.route_packet(&inputs[i], &vec![7]).unwrap());
    }
    assert_eq!(sequential, interleaved);
    assert_eq!(sequential[3], vec![("o".to_string(), 1, QoS::AtLeastOnce), ("p/3/t".to_string(), 2, QoS::AtMostOnce)]);
}

#[test]
fn end_to_end_two_publications() {
    let listener = Listener {
        router: BasicRouter {
            routes: vec![route(
                "/test1/input/#",
                vec![
                    dest("/test2/output/test1", 1, QoS::AtLeastOnce),
                    dest("/test3/output/test1", 2, QoS::AtLeastOnce),
                ],
            )],
        },
    };
    let event = InboundEvent::Publish { topic_name: "/test1/input/foo".to_string(), payload: b"hi".to_vec() };
    let forward = listener.on_notification(&event).unwrap();
    assert_eq!(forward.payload, b"hi".to_vec());
    let calls = Emitters::publications(&forward);
    assert_eq!(calls.len(), 2);
    assert_eq!(calls[0].client_index, 1);
    assert_eq!(calls[0].topic, "/test2/output/test1/foo");
    assert_eq!(calls[0].qos, QoS::AtLeastOnce);
    assert!(!calls[0].retain);
    assert_eq!(calls[1].client_index, 2);
    assert_eq!(calls[1].topic, "/test3/output/test1/foo");
    assert_eq!(calls[1].qos, QoS::AtLeastOnce);
    assert!(!calls[1].retain);
    assert!(listener.on_notification(&InboundEvent::Other).is_none());
}

fn clients() -> Vec<(String, u16)> {
    vec![("left".to_string(), 0), ("right".to_string(), 1)]
}

#[test]
fn route_spec_is_read() {
    let r = SingleBasicRoute::from_string(&clients(), "left a/# right b/c 1").unwrap();
    assert_eq!(r.source_client_id, 0);
    assert_eq!(r.source_topic.path, vec!["a", "#"]);
    assert_eq!(r.dest_client_id, 1);
    assert_eq!(r.dest_topic.path, vec!["b", "c"]);
    assert_eq!(r.dest_qos, QoS::AtLeastOnce);
    let r = SingleBasicRoute::from_string(&clients(), "right x left y 2 extra").unwrap();
    assert_eq!(r.dest_qos, QoS::ExactlyOnce);
    assert_eq!(r.source_client_id, 1);
    let r = SingleBasicRoute::from_string(&clients(), "right x left y +0").unwrap();
    assert_eq!(r.dest_qos, QoS::AtMostOnce);
}

#[test]
fn route_spec_errors() {
    match SingleBasicRoute::from_string(&clients(), "left a right b") {
        Err(SingleBasicRouteError::NotEnoughArguments { required, given }) => {
            assert_eq!((required, given), (5, 4))
        }
        other => panic!("unexpected {:?}", other),
    }
    match SingleBasicRoute::from_string(&clients(), "middle a right b 0") {
        Err(SingleBasicRouteError::UnknownClient(n)) => assert_eq!(n, "middle"),
        other => panic!("unexpected {:?}", other),
    }
    match SingleBasicRoute::from_string(&clients(), "left a middle b 0") {
        Err(SingleBasicRouteError::UnknownClient(n)) => assert_eq!(n, "middle"),
        other => panic!("unexpected {:?}", other),
    }
    match SingleBasicRoute::from_string(&clients(), "left a right b one") {
        Err(SingleBasicRouteError::UnparsableQos(t)) => assert_eq!(t, "one"),
        other => panic!("unexpected {:?}", other),
    }
    match SingleBasicRoute::from_string(&clients(), "left a right b 256") {
        Err(SingleBasicRouteError::UnparsableQos(t)) => assert_eq!(t, "256"),
        other => panic!("unexpected {:?}", other),
    }
    match SingleBasicRoute::from_string(&clients(), "left a right b 3") {
        Err(SingleBasicRouteError::InvalidQos(_)) => (),
        other => panic!("unexpected {:?}", other),
    }
}

#[test]
fn decimal_bytes() {
    assert_eq!(parse_decimal_u8("0"), Some(0));
    assert_eq!(parse_decimal_u8("+7"), Some(7));
    assert_eq!(parse_decimal_u8("007"), Some(7));
    assert_eq!(parse_decimal_u8("255"), Some(255));
    assert_eq!(parse_decimal_u8("256"), None);
    assert_eq!(parse_decimal_u8("99999999999"), None);
    assert_eq!(parse_decimal_u8(""), None);
    assert_eq!(parse_decimal_u8("+"), None);
    assert_eq!(parse_decimal_u8("-1"), None);
    assert_eq!(parse_decimal_u8("1a"), None);
}

#[test]
fn configuration_checks() {
    let ok = vec![vec![route("a/#", vec![dest("b", 1, QoS::AtLeastOnce)])], vec![]];
    assert!(Bridge::check_configuration(2, &ok));
    assert!(!Bridge::check_configuration(3, &ok));
    let bad_client = vec![vec![route("a", vec![dest("b", 2, QoS::AtLeastOnce)])], vec![]];
    assert!(!Bridge::check_configuration(2, &bad_client));
    let bad_wildcard = vec![vec![route("a/#/c", vec![])], vec![]];
    assert!(!Bridge::check_configuration(2, &bad_wildcard));
    let routes = vec![route("/test1/input/#", vec![]), route("x/+", vec![])];
    assert_eq!(Bridge::subscription_topics(&routes), vec!["/test1/input/#", "x/+"]);
}
