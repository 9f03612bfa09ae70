use vstd::prelude::*;
use crate::qos::{qos_from_u8, qos_of_byte, QoS};
use crate::router::ClientId;
use crate::topic::{is_split_of, split_on, Topic};

verus! {

/// Number of tokens in a route specification.
pub const ROUTE_TOKENS: u8 = 5;

/// Every character is an ASCII decimal digit.
pub open spec fn is_digits(d: Seq<char>) -> bool {
    forall|k: int| 0 <= k < d.len() ==> '0' <= #[trigger] d[k] <= '9'
}

/// The number that a sequence of decimal digits writes.
pub open spec fn digits_value(d: Seq<char>) -> int
    decreases d.len(),
{
    if d.len() == 0 {
        0
    } else {
        digits_value(d.drop_last()) * 10 + (d.last() as int - '0' as int)
    }
}

/// The digits of a decimal text, past an optional leading `+`.
pub open spec fn unsigned_digits(s: Seq<char>) -> Seq<char> {
    if s.len() > 0 && s[0] == '+' {
        s.drop_first()
    } else {
        s
    }
}

/// The byte that a decimal text writes: an optional `+` and at least one
/// digit, with a value of at most 255.
pub open spec fn decimal_u8(s: Seq<char>) -> Option<u8> {
    let d = unsigned_digits(s);
    if d.len() > 0 && is_digits(d) && digits_value(d) <= 255 {
        Some(digits_value(d) as u8)
    } else {
        None
    }
}

proof fn lemma_digits_value_grows(d: Seq<char>, j: int)
    requires
        is_digits(d),
        0 <= j <= d.len(),
    ensures
        digits_value(d) >= digits_value(d.subrange(0, j)),
        digits_value(d.subrange(0, j)) >= 0,
    decreases d.len(),
{
    if d.len() > 0 {
        assert(is_digits(d.drop_last()));
        if j == d.len() {
            assert(d.subrange(0, j) =~= d);
            lemma_digits_value_grows(d.drop_last(), j - 1);
        } else {
            assert(d.drop_last().subrange(0, j) =~= d.subrange(0, j));
            lemma_digits_value_grows(d.drop_last(), j);
        }
        assert(d.last() == d[d.len() - 1]);
    } else {
        assert(d.subrange(0, j) =~= d);
    }
}

/// Reads a byte written in decimal.
pub fn parse_decimal_u8(s: &str) -> (r: Option<u8>)
    ensures
        r == decimal_u8(s@),
{
    let n = s.unicode_len();
    let mut start: usize = 0;
    if n > 0 && s.get_char(0) == '+' {
        start = 1;
    }
    let ghost d = unsigned_digits(s@);
    proof {
        assert(d =~= s@.subrange(start as int, n as int));
    }
    if start == n {
        return None;
    }
    let mut acc: u32 = 0;
    let mut i: usize = start;
    while i < n
        invariant
            n == s@.len(),
            start <= i <= n,
            d == s@.subrange(start as int, n as int),
            d == unsigned_digits(s@),
            is_digits(d.subrange(0, i - start)),
            acc as int == digits_value(d.subrange(0, i - start)),
            acc <= 255,
        decreases n - i,
    {
        let c = s.get_char(i);
        let ghost pre = d.subrange(0, i - start);
        let ghost next = d.subrange(0, i - start + 1);
        proof {
            assert(next.drop_last() =~= pre);
            assert(next.last() == c);
        }
        if c < '0' || c > '9' {
            proof {
                assert(d[i - start] == c);
            }
            return None;
        }
        let digit: u32 = (c as u32) - ('0' as u32);
        let v: u32 = acc * 10 + digit;
        proof {
            assert(is_digits(next));
        }
        if v > 255 {
            proof {
                if is_digits(d) {
                    lemma_digits_value_grows(d, i - start + 1);
                }
            }
            return None;
        }
        acc = v;
        i = i + 1;
    }
    proof {
        assert(d.subrange(0, i - start) =~= d);
    }
    Some(acc as u8)
}

/// The connection that `name` stands for: the first entry under that name.
pub open spec fn lookup_client(clients: Seq<(Seq<char>, ClientId)>, name: Seq<char>) -> Option<
    ClientId,
>
    decreases clients.len(),
{
    if clients.len() == 0 {
        None
    } else if clients[0].0 == name {
        Some(clients[0].1)
    } else {
        lookup_client(clients.drop_first(), name)
    }
}

/// The name table seen as values.
pub open spec fn clients_view(clients: Seq<(String, ClientId)>) -> Seq<(Seq<char>, ClientId)> {
    clients.map_values(|e: (String, ClientId)| (e.0@, e.1))
}

/// Finds the connection that `name` stands for.
pub fn find_client(clients: &Vec<(String, ClientId)>, name: &str) -> (r: Option<ClientId>)
    ensures
        r == lookup_client(clients_view(clients@), name@),
{
    let key = String::from_str(name);
    let ghost all = clients_view(clients@);
    let mut i: usize = 0;
    proof {
        assert(all.subrange(0, all.len() as int) =~= all);
    }
    while i < clients.len()
        invariant
            i <= clients.len(),
            all == clients_view(clients@),
            key@ == name@,
            lookup_client(all, name@) == lookup_client(
                all.subrange(i as int, all.len() as int),
                name@,
            ),
        decreases clients.len() - i,
    {
        let ghost rest = all.subrange(i as int, all.len() as int);
        proof {
            assert(rest[0] == (clients@[i as int].0@, clients@[i as int].1));
            assert(rest.drop_first() =~= all.subrange(i as int + 1, all.len() as int));
        }
        if clients[i].0 == key {
            return Some(clients[i].1);
        }
        i = i + 1;
    }
    None
}

/// One route read from its text form: a source connection and pattern, and
/// a destination connection, topic and level.
#[derive(Debug)]
pub struct SingleBasicRoute {
    pub source_client_id: ClientId,
    pub source_topic: Topic,
    pub dest_client_id: ClientId,
    pub dest_topic: Topic,
    pub dest_qos: QoS,
}

/// Why a route specification was refused.
#[derive(Debug)]
pub enum SingleBasicRouteError {
    NotEnoughArguments { required: u8, given: u8 },
    UnknownClient(String),
    InvalidQos(mqtt311::Error),
    UnparsableQos(String),
}

/// What reading the tokens `words` of a route specification yields.
pub open spec fn route_spec_outcome(
    clients: Seq<(Seq<char>, ClientId)>,
    words: Seq<Seq<char>>,
    r: Result<SingleBasicRoute, SingleBasicRouteError>,
) -> bool {
    if words.len() < ROUTE_TOKENS {
        match r {
            Err(SingleBasicRouteError::NotEnoughArguments { required, given }) => required
                == ROUTE_TOKENS && given == words.len(),
            _ => false,
        }
    } else if lookup_client(clients, words[0]) is None {
        match r {
            Err(SingleBasicRouteError::UnknownClient(name)) => name@ == words[0],
            _ => false,
        }
    } else if lookup_client(clients, words[2]) is None {
        match r {
            Err(SingleBasicRouteError::UnknownClient(name)) => name@ == words[2],
            _ => false,
        }
    } else if decimal_u8(words[4]) is None {
        match r {
            Err(SingleBasicRouteError::UnparsableQos(text)) => text@ == words[4],
            _ => false,
        }
    } else if qos_of_byte(decimal_u8(words[4]).unwrap()) is None {
        r is Err && r->Err_0 is InvalidQos
    } else {
        match r {
            Ok(route) => {
                &&& route.source_client_id == lookup_client(clients, words[0]).unwrap()
                &&& is_split_of(route.source_topic@, words[1], '/')
                &&& route.dest_client_id == lookup_client(clients, words[2]).unwrap()
                &&& is_split_of(route.dest_topic@, words[3], '/')
                &&& route.dest_qos == qos_of_byte(decimal_u8(words[4]).unwrap()).unwrap()
            },
            Err(_) => false,
        }
    }
}

impl SingleBasicRoute {
    /// Reads `<source> <pattern> <destination> <topic> <qos>`, tokens
    /// separated by single spaces; tokens past the fifth are ignored.
    pub fn from_string(clients_list: &Vec<(String, ClientId)>, s: &str) -> (r: Result<
        SingleBasicRoute,
        SingleBasicRouteError,
    >)
        ensures
            exists|words: Seq<Seq<char>>|
                is_split_of(words, s@, ' ') && route_spec_outcome(
                    clients_view(clients_list@),
                    words,
                    r,
                ),
    {
        let words = split_on(s, ' ');
        let ghost w = words.deep_view();
        assert(is_split_of(w, s@, ' '));
        if words.len() < ROUTE_TOKENS as usize {
            return Err(
                SingleBasicRouteError::NotEnoughArguments {
                    required: ROUTE_TOKENS,
                    given: words.len() as u8,
                },
            );
        }
        assert(words[0]@ == w[0] && words[1]@ == w[1] && words[2]@ == w[2]);
        assert(words[3]@ == w[3] && words[4]@ == w[4]);
        let source_client_id = match find_client(clients_list, words[0].as_str()) {
            Some(id) => id,
            None => return Err(SingleBasicRouteError::UnknownClient(words[0].clone())),
        };
        let source_topic = Topic::from(words[1].as_str());
        let dest_client_id = match find_client(clients_list, words[2].as_str()) {
            Some(id) => id,
            None => return Err(SingleBasicRouteError::UnknownClient(words[2].clone())),
        };
        let dest_topic = Topic::from(words[3].as_str());
        let dest_qos = match parse_decimal_u8(words[4].as_str()) {
            Some(n) => match qos_from_u8(n) {
                Ok(qos) => qos,
                Err(e) => return Err(SingleBasicRouteError::InvalidQos(e)),
            },
            None => return Err(SingleBasicRouteError::UnparsableQos(words[4].clone())),
        };
        Ok(SingleBasicRoute { source_client_id, source_topic, dest_client_id, dest_topic, dest_qos })
    }
}

} // verus!
