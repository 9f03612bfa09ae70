use vstd::prelude::*;
use crate::qos::QoS;
use crate::topic::{accepts_spec, is_split_of, Topic, TopicCompare};

verus! {

/// Index of a broker connection among those configured at startup.
pub type ClientId = u16;

/// A destination seen as (topic segments, connection, level).
pub type DestinationView = (Seq<Seq<char>>, ClientId, QoS);

/// A route seen as (source pattern segments, destinations).
pub type RouteView = (Seq<Seq<char>>, Seq<DestinationView>);

/// Where to deliver: under this topic, on this connection, at this level.
#[derive(Clone, Debug)]
pub struct Destination {
    pub topic: Topic,
    pub client_id: ClientId,
    pub qos: QoS,
}

impl View for Destination {
    type V = DestinationView;

    open spec fn view(&self) -> DestinationView {
        (self.topic@, self.client_id, self.qos)
    }
}

/// The destinations seen as values.
pub open spec fn destinations_view(v: Seq<Destination>) -> Seq<DestinationView> {
    v.map_values(|d: Destination| d@)
}

/// A source pattern and the destinations that its matches go to.
#[derive(Clone, Debug)]
pub struct BasicRoute {
    pub source_topic: Topic,
    pub dests: Vec<Destination>,
}

impl View for BasicRoute {
    type V = RouteView;

    open spec fn view(&self) -> RouteView {
        (self.source_topic@, destinations_view(self.dests@))
    }
}

/// A payload and every destination it is to be published on.
#[derive(Debug)]
pub struct PayloadForward {
    pub destinations: Vec<Destination>,
    pub payload: Vec<u8>,
}

/// An ordered, immutable table of routes.
#[derive(Clone, Debug)]
pub struct BasicRouter {
    pub routes: Vec<BasicRoute>,
}

impl View for BasicRouter {
    type V = Seq<RouteView>;

    open spec fn view(&self) -> Seq<RouteView> {
        self.routes@.map_values(|r: BasicRoute| r@)
    }
}

/// The destinations of one route for an inbound topic, each with the
/// wildcard-absorbed suffix appended to its topic.
pub open spec fn resolve_route(route: RouteView, inbound: Seq<Seq<char>>) -> Seq<DestinationView> {
    match accepts_spec(route.0, inbound) {
        Some(suffix) => route.1.map_values(
            |d: DestinationView| (d.0 + suffix, d.1, d.2),
        ),
        None => Seq::empty(),
    }
}

/// The resolved destinations of every matching route, in table order.
pub open spec fn resolve_table(routes: Seq<RouteView>, inbound: Seq<Seq<char>>) -> Seq<
    DestinationView,
>
    decreases routes.len(),
{
    if routes.len() == 0 {
        Seq::empty()
    } else {
        resolve_table(routes.drop_last(), inbound) + resolve_route(routes.last(), inbound)
    }
}

/// What routing a payload to `dests` yields: nothing when there is no
/// destination, else a forward of the payload to all of them.
pub open spec fn forward_matches(
    r: Option<PayloadForward>,
    dests: Seq<DestinationView>,
    payload: Seq<u8>,
) -> bool {
    match r {
        None => dests.len() == 0,
        Some(f) => dests.len() > 0 && destinations_view(f.destinations@) == dests
            && f.payload@ == payload,
    }
}

fn concat_topic(base: &Topic, suffix: &Vec<String>) -> (r: Topic)
    ensures
        r@ == base@ + suffix.deep_view(),
{
    let mut path: Vec<String> = Vec::new();
    let mut i: usize = 0;
    while i < base.path.len()
        invariant
            i <= base.path.len(),
            path.deep_view() == base@.subrange(0, i as int),
        decreases base.path.len() - i,
    {
        let ghost prev = path.deep_view();
        path.push(base.path[i].clone());
        proof {
            assert(path.deep_view() =~= prev.push(base@[i as int]));
            assert(path.deep_view() =~= base@.subrange(0, i as int + 1));
        }
        i = i + 1;
    }
    let mut j: usize = 0;
    while j < suffix.len()
        invariant
            i == base@.len(),
            j <= suffix.len(),
            path.deep_view() == base@ + suffix.deep_view().subrange(0, j as int),
        decreases suffix.len() - j,
    {
        let ghost prev = path.deep_view();
        path.push(suffix[j].clone());
        proof {
            assert(path.deep_view() =~= prev.push(suffix.deep_view()[j as int]));
            assert(path.deep_view() =~= base@ + suffix.deep_view().subrange(0, j as int + 1));
        }
        j = j + 1;
    }
    proof {
        assert(suffix.deep_view().subrange(0, j as int) =~= suffix.deep_view());
    }
    Topic { path }
}

impl BasicRouter {
    /// Appends to `out` the destinations of `route` resolved against `suffix`.
    fn push_resolved(route: &BasicRoute, suffix: &Vec<String>, out: &mut Vec<Destination>)
        ensures
            destinations_view(final(out)@) == destinations_view(old(out)@)
                + destinations_view(route.dests@).map_values(
                |d: DestinationView| (d.0 + suffix.deep_view(), d.1, d.2),
            ),
    {
        let ghost start = destinations_view(out@);
        let ghost mapped = destinations_view(route.dests@).map_values(
            |d: DestinationView| (d.0 + suffix.deep_view(), d.1, d.2),
        );
        let mut k: usize = 0;
        while k < route.dests.len()
            invariant
                k <= route.dests.len(),
                start == destinations_view(old(out)@),
                mapped == destinations_view(route.dests@).map_values(
                    |d: DestinationView| (d.0 + suffix.deep_view(), d.1, d.2),
                ),
                destinations_view(out@) == start + mapped.subrange(0, k as int),
            decreases route.dests.len() - k,
        {
            let dest = &route.dests[k];
            let topic = concat_topic(&dest.topic, suffix);
            let ghost prev = out@;
            out.push(Destination { topic, client_id: dest.client_id, qos: dest.qos });
            proof {
                assert(out@ =~= prev.push(out@.last()));
                assert(destinations_view(out@) =~= destinations_view(prev).push(out@.last()@));
                assert(mapped.subrange(0, k as int + 1) =~= mapped.subrange(0, k as int).push(
                    mapped[k as int],
                ));
            }
            k = k + 1;
        }
        proof {
            assert(mapped.subrange(0, k as int) =~= mapped);
        }
    }

    /// Routes a payload that arrived under `in_topic` through every route
    /// of the table, in order.
    pub fn route_topic(&self, in_topic: &Topic, payload: &Vec<u8>) -> (r: Option<PayloadForward>)
        ensures
            forward_matches(r, resolve_table(self@, in_topic@), payload@),
    {
        let mut destinations: Vec<Destination> = Vec::new();
        let mut i: usize = 0;
        while i < self.routes.len()
            invariant
                i <= self.routes.len(),
                destinations_view(destinations@) == resolve_table(
                    self@.subrange(0, i as int),
                    in_topic@,
                ),
            decreases self.routes.len() - i,
        {
            let route = &self.routes[i];
            proof {
                let t = self@.subrange(0, i as int + 1);
                assert(t.drop_last() =~= self@.subrange(0, i as int));
                assert(t.last() == route@);
            }
            match route.source_topic.accepts(in_topic) {
                TopicCompare::Mismatch => {
                    proof {
                        let acc = destinations_view(destinations@);
                        assert(acc + Seq::<DestinationView>::empty() =~= acc);
                    }
                },
                TopicCompare::Match { additional_path } => {
                    Self::push_resolved(route, &additional_path, &mut destinations);
                },
            }
            i = i + 1;
        }
        proof {
            assert(self@.subrange(0, i as int) =~= self@);
        }
        if destinations.len() > 0 {
            let forward = PayloadForward { destinations, payload: payload.clone() };
            proof {
                assert(forward.payload@ =~= payload@);
            }
            Some(forward)
        } else {
            None
        }
    }

    /// Routes a payload that arrived under the topic text `topic_name`.
    pub fn route_packet(&self, topic_name: &str, payload: &Vec<u8>) -> (r: Option<PayloadForward>)
        ensures
            exists|t: Seq<Seq<char>>|
                is_split_of(t, topic_name@, '/') && forward_matches(
                    r,
                    resolve_table(self@, t),
                    payload@,
                ),
    {
        let in_topic = Topic::from(topic_name);
        let r = self.route_topic(&in_topic, payload);
        assert(is_split_of(in_topic@, topic_name@, '/'));
        r
    }
}

} // verus!
