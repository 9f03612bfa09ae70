use vstd::prelude::*;
use crate::qos::QoS;
use crate::router::{forward_matches, resolve_table, BasicRoute, BasicRouter, PayloadForward};
use crate::topic::{is_multi_wildcard, is_one_char, is_split_of, join_spec};

verus! {

/// A notification from an inbound connection, as far as routing cares.
#[derive(Debug)]
pub enum InboundEvent {
    /// An application message arrived under `topic_name`.
    Publish { topic_name: String, payload: Vec<u8> },
    /// Any connection-lifecycle event or acknowledgement.
    Other,
}

/// The routing side of one inbound connection.
#[derive(Clone, Debug)]
pub struct Listener {
    pub router: BasicRouter,
}

impl Listener {
    /// What to enqueue for one notification: the forward of a received
    /// message that some route matches, and nothing otherwise.
    pub fn on_notification(&self, event: &InboundEvent) -> (r: Option<PayloadForward>)
        ensures
            event is Other ==> r is None,
            event matches InboundEvent::Publish { topic_name, payload } ==> exists|
                t: Seq<Seq<char>>,
            |
                is_split_of(t, topic_name@, '/') && forward_matches(
                    r,
                    resolve_table(self.router@, t),
                    payload@,
                ),
    {
        match event {
            InboundEvent::Publish { topic_name, payload } => self.router.route_packet(
                topic_name.as_str(),
                payload,
            ),
            InboundEvent::Other => None,
        }
    }
}

/// One outbound publish call: where, under which topic text, at which level.
#[derive(Debug)]
pub struct Publication {
    pub client_index: usize,
    pub topic: String,
    pub qos: QoS,
    pub retain: bool,
}

/// The single consumer of forwards.
pub struct Emitters {}

impl Emitters {
    /// The publish calls for one forward, one per destination, in order,
    /// never retained.
    pub fn publications(forward: &PayloadForward) -> (r: Vec<Publication>)
        ensures
            r.len() == forward.destinations.len(),
            forall|i: int|
                0 <= i < r.len() ==> {
                    let d = #[trigger] forward.destinations@[i];
                    &&& r[i].client_index == d.client_id as usize
                    &&& r[i].topic@ == join_spec(d.topic@, '/')
                    &&& r[i].qos == d.qos
                    &&& !r[i].retain
                },
    {
        let mut r: Vec<Publication> = Vec::new();
        let mut i: usize = 0;
        while i < forward.destinations.len()
            invariant
                i <= forward.destinations.len(),
                r.len() == i,
                forall|j: int|
                    0 <= j < i ==> {
                        let d = #[trigger] forward.destinations@[j];
                        &&& r[j].client_index == d.client_id as usize
                        &&& r[j].topic@ == join_spec(d.topic@, '/')
                        &&& r[j].qos == d.qos
                        &&& !r[j].retain
                    },
            decreases forward.destinations.len() - i,
        {
            let d = &forward.destinations[i];
            r.push(
                Publication {
                    client_index: d.client_id as usize,
                    topic: d.topic.to_string(),
                    qos: d.qos,
                    retain: false,
                },
            );
            i = i + 1;
        }
        r
    }
}

/// A multi-level wildcard appears, if at all, only as the last segment.
pub open spec fn multi_wildcard_only_last(p: Seq<Seq<char>>) -> bool {
    forall|k: int| 0 <= k < p.len() - 1 ==> !is_multi_wildcard(#[trigger] p[k])
}

/// The route's pattern is well placed and every destination names one of
/// `n` connections.
pub open spec fn route_is_valid(route: BasicRoute, n: nat) -> bool {
    &&& multi_wildcard_only_last(route.source_topic@)
    &&& forall|j: int|
        0 <= j < route.dests.len() ==> (#[trigger] route.dests@[j]).client_id < n
}

/// One route table per connection, every route valid.
pub open spec fn configuration_is_valid(routes: Seq<Vec<BasicRoute>>, n: nat) -> bool {
    &&& routes.len() == n
    &&& forall|i: int, j: int|
        0 <= i < routes.len() && 0 <= j < routes[i].len() ==> route_is_valid(
            #[trigger] routes[i]@[j],
            n,
        )
}

fn route_valid(route: &BasicRoute, n: usize) -> (r: bool)
    ensures
        r == route_is_valid(*route, n as nat),
{
    let p = &route.source_topic.path;
    let last: usize = if p.len() == 0 { 0 } else { p.len() - 1 };
    let mut k: usize = 0;
    while k < last
        invariant
            forall|m: int| 0 <= m < k ==> !is_multi_wildcard(#[trigger] route.source_topic@[m]),
            p == route.source_topic.path,
            k <= last,
            last as int == if p.len() == 0 { 0 } else { p.len() - 1 },
        decreases last - k,
    {
        assert(route.source_topic@[k as int] == p[k as int]@);
        if is_one_char(&p[k], '#') {
            return false;
        }
        k = k + 1;
    }
    let mut j: usize = 0;
    while j < route.dests.len()
        invariant
            multi_wildcard_only_last(route.source_topic@),
            forall|m: int| 0 <= m < j ==> (#[trigger] route.dests@[m]).client_id < n,
        decreases route.dests.len() - j,
    {
        if route.dests[j].client_id as usize >= n {
            return false;
        }
        j = j + 1;
    }
    true
}

/// Bridge wiring decisions taken once at startup.
pub struct Bridge {}

impl Bridge {
    /// Whether the configuration has one route table per connection, every
    /// destination names a configured connection, and no pattern holds a
    /// multi-level wildcard before its last segment.
    pub fn check_configuration(n_connections: usize, routes: &Vec<Vec<BasicRoute>>) -> (r: bool)
        ensures
            r == configuration_is_valid(routes@, n_connections as nat),
    {
        if routes.len() != n_connections {
            return false;
        }
        let mut i: usize = 0;
        while i < routes.len()
            invariant
                i <= routes.len(),
                forall|a: int, b: int|
                    0 <= a < i && 0 <= b < routes@[a].len() ==> route_is_valid(
                        #[trigger] routes@[a]@[b],
                        n_connections as nat,
                    ),
            decreases routes.len() - i,
        {
            let table = &routes[i];
            let mut j: usize = 0;
            while j < table.len()
                invariant
                    i < routes.len(),
                    table == routes@[i as int],
                    j <= table.len(),
                    forall|a: int, b: int|
                        0 <= a < i && 0 <= b < routes@[a].len() ==> route_is_valid(
                            #[trigger] routes@[a]@[b],
                            n_connections as nat,
                        ),
                    forall|b: int|
                        0 <= b < j ==> route_is_valid(
                            #[trigger] routes@[i as int]@[b],
                            n_connections as nat,
                        ),
                decreases table.len() - j,
            {
                if !route_valid(&table[j], n_connections) {
                    return false;
                }
                j = j + 1;
            }
            i = i + 1;
        }
        true
    }

    /// The topic texts to subscribe to for one connection's routes, in order.
    pub fn subscription_topics(routes: &Vec<BasicRoute>) -> (r: Vec<String>)
        ensures
            r.len() == routes.len(),
            forall|i: int|
                0 <= i < r.len() ==> (#[trigger] r[i])@ == join_spec(
                    routes@[i].source_topic@,
                    '/',
                ),
    {
        let mut r: Vec<String> = Vec::new();
        let mut i: usize = 0;
        while i < routes.len()
            invariant
                i <= routes.len(),
                r.len() == i,
                forall|j: int|
                    0 <= j < i ==> (#[trigger] r[j])@ == join_spec(routes@[j].source_topic@, '/'),
            decreases routes.len() - i,
        {
            r.push(routes[i].source_topic.to_string());
            i = i + 1;
        }
        r
    }
}

} // verus!
