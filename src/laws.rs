use vstd::prelude::*;
use crate::router::{resolve_route, resolve_table, DestinationView, RouteView};
use crate::topic::{
    accepts_spec, is_multi_wildcard, is_single_wildcard, is_split_of, join_spec, separator_free,
    split_is_unique,
};

verus! {

/// No segment is a wildcard.
pub open spec fn is_literal(t: Seq<Seq<char>>) -> bool {
    forall|k: int|
        0 <= k < t.len() ==> !is_single_wildcard(#[trigger] t[k]) && !is_multi_wildcard(t[k])
}

/// No segment is the multi-level wildcard.
pub open spec fn has_no_multi_wildcard(t: Seq<Seq<char>>) -> bool {
    forall|k: int| 0 <= k < t.len() ==> !is_multi_wildcard(#[trigger] t[k])
}

/// A pattern without wildcards matches a candidate without wildcards exactly
/// when the two are equal segment for segment, and then absorbs nothing.
pub proof fn literal_match_is_equality(p: Seq<Seq<char>>, c: Seq<Seq<char>>)
    requires
        is_literal(p),
        is_literal(c),
    ensures
        accepts_spec(p, c) is Some <==> p == c,
        accepts_spec(p, c) is Some ==> accepts_spec(p, c) == Some(Seq::<Seq<char>>::empty()),
    decreases p.len(),
{
    if p.len() > 0 && c.len() > 0 {
        assert(is_literal(p.drop_first()));
        assert(is_literal(c.drop_first()));
        literal_match_is_equality(p.drop_first(), c.drop_first());
        if p.drop_first() == c.drop_first() && p[0] == c[0] {
            assert forall|k: int| 0 <= k < p.len() implies p[k] == c[k] by {
                if k > 0 {
                    assert(p[k] == p.drop_first()[k - 1]);
                    assert(c[k] == c.drop_first()[k - 1]);
                }
            }
            assert(p =~= c);
        }
        if p == c {
            assert(p.drop_first() =~= c.drop_first());
        }
    } else if p.len() == 0 && c.len() > 0 {
        assert(p != c);
    } else if p.len() > 0 && c.len() == 0 {
        assert(!is_multi_wildcard(p[0]));
        assert(p != c);
    } else {
        assert(p =~= c);
    }
}

/// A pattern without a multi-level wildcard absorbs nothing when it matches.
pub proof fn match_without_multi_wildcard_absorbs_nothing(p: Seq<Seq<char>>, c: Seq<Seq<char>>)
    requires
        has_no_multi_wildcard(p),
    ensures
        accepts_spec(p, c) is Some ==> accepts_spec(p, c) == Some(Seq::<Seq<char>>::empty()),
    decreases p.len(),
{
    if p.len() > 0 && c.len() > 0 {
        assert(has_no_multi_wildcard(p.drop_first()));
        match_without_multi_wildcard_absorbs_nothing(p.drop_first(), c.drop_first());
    } else if p.len() > 0 {
        assert(!is_multi_wildcard(p[0]));
    }
}

/// When the pattern of a route has no multi-level wildcard and matches, each
/// destination topic is used exactly as configured.
pub proof fn literal_route_keeps_destination_topics(route: RouteView, inbound: Seq<Seq<char>>)
    requires
        has_no_multi_wildcard(route.0),
        accepts_spec(route.0, inbound) is Some,
    ensures
        resolve_route(route, inbound) == route.1,
{
    match_without_multi_wildcard_absorbs_nothing(route.0, inbound);
    assert forall|k: int| 0 <= k < route.1.len() implies resolve_route(route, inbound)[k]
        == route.1[k] by {
        assert(route.1[k].0 + Seq::<Seq<char>>::empty() =~= route.1[k].0);
    }
    assert(resolve_route(route, inbound) =~= route.1);
}

/// Routing through a table made of two tables yields the destinations of the
/// first followed by those of the second: every matching route contributes,
/// in table order.
pub proof fn routing_fans_out_in_table_order(
    first: Seq<RouteView>,
    second: Seq<RouteView>,
    inbound: Seq<Seq<char>>,
)
    ensures
        resolve_table(first + second, inbound) == resolve_table(first, inbound) + resolve_table(
            second,
            inbound,
        ),
    decreases second.len(),
{
    if second.len() == 0 {
        assert(first + second =~= first);
        assert(resolve_table(first, inbound) + Seq::<DestinationView>::empty() =~= resolve_table(
            first,
            inbound,
        ));
    } else {
        let all = first + second;
        assert(all.drop_last() =~= first + second.drop_last());
        assert(all.last() == second.last());
        routing_fans_out_in_table_order(first, second.drop_last(), inbound);
        assert(resolve_table(all, inbound) =~= resolve_table(first, inbound) + resolve_table(
            second,
            inbound,
        ));
    }
}

/// A table none of whose patterns matches the inbound topic yields no
/// destination.
pub proof fn no_matching_route_yields_nothing(routes: Seq<RouteView>, inbound: Seq<Seq<char>>)
    requires
        forall|k: int| 0 <= k < routes.len() ==> accepts_spec(#[trigger] routes[k].0, inbound) is None,
    ensures
        resolve_table(routes, inbound).len() == 0,
    decreases routes.len(),
{
    if routes.len() > 0 {
        let rest = routes.drop_last();
        assert forall|k: int| 0 <= k < rest.len() implies accepts_spec(
            #[trigger] rest[k].0,
            inbound,
        ) is None by {
            assert(rest[k] == routes[k]);
        }
        no_matching_route_yields_nothing(rest, inbound);
        assert(accepts_spec(routes[routes.len() - 1].0, inbound) is None);
    }
}

/// Reading back the text of a topic gives the same segments, for every
/// topic with at least one segment and no `/` inside a segment.
pub proof fn topic_text_round_trip(t: Seq<Seq<char>>, read_back: Seq<Seq<char>>)
    requires
        t.len() >= 1,
        separator_free(t, '/'),
        is_split_of(read_back, join_spec(t, '/'), '/'),
    ensures
        read_back == t,
{
    split_is_unique(read_back, t, join_spec(t, '/'), '/');
}

} // verus!
