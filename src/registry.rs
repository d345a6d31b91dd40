use vstd::prelude::*;

use crate::text::chars_of;

verus! {

/// A backend as the map holds it: address and port.
pub type Endpoint = (Seq<char>, u16);

/// A backend endpoint.
#[derive(Debug, Clone)]
pub struct AddressPort {
    pub address: String,
    pub port: u16,
}

impl View for AddressPort {
    type V = Endpoint;

    open spec fn view(&self) -> Endpoint {
        (self.address@, self.port)
    }
}

impl AddressPort {
    /// A copy of this endpoint.
    pub fn duplicate(&self) -> (r: AddressPort)
        ensures
            r@ == self@,
    {
        AddressPort { address: self.address.clone(), port: self.port }
    }
}

/// Why a lookup failed.
#[derive(Debug)]
pub enum GetHostError {
    /// The map could not be read because an earlier writer failed while
    /// holding it.
    PoisonErr(String),
    /// No pattern matches, or an endpoint is malformed.
    StrErr(String),
}

/// A node of a service as the discovery daemon lists it.
#[derive(Debug, Clone)]
pub struct ServiceNode {
    pub address: String,
    pub node: String,
    pub service_address: String,
    pub service_id: String,
    pub service_name: String,
    pub service_port: u16,
    pub service_tags: Vec<String>,
}

/// A source of services and their nodes: a discovery daemon, or a double in
/// tests.
pub trait ServiceProvider {
    /// The names of the services that are registered.
    fn services(&self) -> Result<Vec<String>, String>;

    /// The nodes of one service.
    fn get_nodes(&self, service: String) -> Result<Vec<ServiceNode>, String>;
}

/// The views of a sequence of endpoints.
pub open spec fn endpoints_view(v: Seq<AddressPort>) -> Seq<Endpoint> {
    v.map_values(|a: AddressPort| a@)
}

/// One host pattern and its backends.
pub struct ServiceEntry {
    pub host: String,
    pub endpoints: Vec<AddressPort>,
}

/// The map that a sequence of entries stands for.
pub open spec fn entries_map(es: Seq<ServiceEntry>) -> Map<Seq<char>, Seq<Endpoint>>
    decreases es.len(),
{
    if es.len() == 0 {
        Map::empty()
    } else {
        entries_map(es.drop_last()).insert(
            es.last().host@,
            endpoints_view(es.last().endpoints@),
        )
    }
}

pub open spec fn keys_unique(es: Seq<ServiceEntry>) -> bool {
    forall|i: int, j: int|
        0 <= i < j < es.len() ==> #[trigger] es[i].host@ != #[trigger] es[j].host@
}

proof fn lemma_entries_map_get(es: Seq<ServiceEntry>)
    requires
        keys_unique(es),
    ensures
        forall|i: int|
            0 <= i < es.len() ==> entries_map(es).contains_key(#[trigger] es[i].host@)
                && entries_map(es)[es[i].host@] == endpoints_view(es[i].endpoints@),
        forall|k: Seq<char>|
            #[trigger] entries_map(es).contains_key(k) ==> exists|i: int|
                0 <= i < es.len() && es[i].host@ == k,
    decreases es.len(),
{
    if es.len() > 0 {
        let init = es.drop_last();
        assert(keys_unique(init));
        lemma_entries_map_get(init);
        assert forall|i: int|
            0 <= i < es.len() implies entries_map(es).contains_key(#[trigger] es[i].host@)
            && entries_map(es)[es[i].host@] == endpoints_view(es[i].endpoints@) by {
            if i < es.len() - 1 {
                assert(init[i] == es[i]);
                assert(es[i].host@ != es[es.len() - 1].host@);
            }
        }
        assert forall|k: Seq<char>| #[trigger]
            entries_map(es).contains_key(k) implies exists|i: int|
            0 <= i < es.len() && es[i].host@ == k by {
            if k != es.last().host@ {
                assert(entries_map(init).contains_key(k));
                let i = choose|i: int| 0 <= i < init.len() && init[i].host@ == k;
                assert(es[i] == init[i]);
            } else {
                assert(es[es.len() - 1].host@ == k);
            }
        }
    }
}

proof fn lemma_entries_map_update(es: Seq<ServiceEntry>, i: int, e: ServiceEntry)
    requires
        keys_unique(es),
        0 <= i < es.len(),
        e.host@ == es[i].host@,
    ensures
        keys_unique(es.update(i, e)),
        entries_map(es.update(i, e)) == entries_map(es).insert(
            e.host@,
            endpoints_view(e.endpoints@),
        ),
    decreases es.len(),
{
    let es2 = es.update(i, e);
    assert(keys_unique(es2)) by {
        assert forall|a: int, b: int| 0 <= a < b < es2.len() implies #[trigger] es2[a].host@
            != #[trigger] es2[b].host@ by {
            assert(es[a].host@ != es[b].host@);
        }
    }
    if i == es.len() - 1 {
        assert(es2.drop_last() =~= es.drop_last());
        assert(entries_map(es2) =~= entries_map(es).insert(e.host@, endpoints_view(e.endpoints@)));
    } else {
        let init = es.drop_last();
        assert(keys_unique(init));
        assert(es2.drop_last() =~= init.update(i, e));
        lemma_entries_map_update(init, i, e);
        assert(es.last().host@ != e.host@) by {
            assert(es[i].host@ != es[es.len() - 1].host@);
        }
        assert(es2.last() == es.last());
        assert(entries_map(es2) =~= entries_map(es).insert(e.host@, endpoints_view(e.endpoints@)));
    }
}

/// The literal prefix of a tag that carries a route.
pub open spec fn url_prefix() -> Seq<char> {
    seq!['u', 'r', 'l', 'p', 'r', 'e', 'f', 'i', 'x', '-']
}

pub open spec fn is_route_tag(t: Seq<char>) -> bool {
    t.len() >= 10 && t.subrange(0, 10) == url_prefix()
}

/// `s` with every `/` removed.
pub open spec fn drop_slashes(s: Seq<char>) -> Seq<char>
    decreases s.len(),
{
    if s.len() == 0 {
        s
    } else if s.last() == '/' {
        drop_slashes(s.drop_last())
    } else {
        drop_slashes(s.drop_last()).push(s.last())
    }
}

/// The host pattern of a tag: the tag less its route prefix, and less every `/`.
pub open spec fn host_key(t: Seq<char>) -> Seq<char> {
    if is_route_tag(t) {
        drop_slashes(t.subrange(10, t.len() as int))
    } else {
        drop_slashes(t)
    }
}

/// The host pattern named by a tag such as `urlprefix-foo.com/`.
pub fn extract_prefix(tag: &str) -> (r: String)
    ensures
        r@ == host_key(tag@),
{
    let cs = chars_of(tag);
    let n = cs.len();
    let prefix: Vec<char> = vec!['u', 'r', 'l', 'p', 'r', 'e', 'f', 'i', 'x', '-'];
    let mut is_route = n >= 10;
    let mut k: usize = 0;
    while k < 10 && is_route
        invariant
            k <= 10,
            prefix@ == url_prefix(),
            n == cs@.len(),
            is_route ==> n >= 10,
            is_route ==> forall|j: int| 0 <= j < k ==> cs@[j] == prefix@[j],
            !is_route ==> !is_route_tag(cs@),
        decreases 10 - k,
    {
        if cs[k] != prefix[k] {
            is_route = false;
            assert(cs@.subrange(0, 10)[k as int] != url_prefix()[k as int]);
        }
        k = k + 1;
    }
    if is_route {
        assert(cs@.subrange(0, 10) =~= url_prefix());
    }
    let start: usize = if is_route {
        10
    } else {
        0
    };
    let ghost rest = cs@.subrange(start as int, n as int);
    assert(host_key(tag@) == drop_slashes(rest)) by {
        if !is_route {
            assert(rest =~= cs@);
        }
    }
    let mut r = String::new();
    let mut i: usize = start;
    while i < n
        invariant
            start <= i <= n,
            n == cs@.len(),
            rest == cs@.subrange(start as int, n as int),
            r@ == drop_slashes(cs@.subrange(start as int, i as int)),
        decreases n - i,
    {
        let ghost before = cs@.subrange(start as int, i as int);
        assert(cs@.subrange(start as int, i + 1).drop_last() =~= before);
        if cs[i] != '/' {
            r.push(cs[i]);
        }
        i = i + 1;
    }
    assert(cs@.subrange(start as int, n as int) =~= rest);
    r
}

/// A route: a host pattern and one backend for it.
pub type Route = (Seq<char>, Endpoint);

/// The routes that the tags of one node give, in order.
pub open spec fn tag_routes(tags: Seq<String>, ep: Endpoint) -> Seq<Route>
    decreases tags.len(),
{
    if tags.len() == 0 {
        Seq::empty()
    } else {
        let t = tags.last()@;
        let before = tag_routes(tags.drop_last(), ep);
        if is_route_tag(t) {
            before.push((host_key(t), ep))
        } else {
            before
        }
    }
}

/// The routes of one node.
pub open spec fn node_routes(n: ServiceNode) -> Seq<Route> {
    tag_routes(n.service_tags@, (n.service_address@, n.service_port))
}

/// The routes of a sequence of nodes, in order.
pub open spec fn nodes_routes(ns: Seq<ServiceNode>) -> Seq<Route>
    decreases ns.len(),
{
    if ns.len() == 0 {
        Seq::empty()
    } else {
        nodes_routes(ns.drop_last()) + node_routes(ns.last())
    }
}

/// `m` with one more backend appended to the bucket of its pattern.
pub open spec fn add_route(m: Map<Seq<char>, Seq<Endpoint>>, r: Route) -> Map<
    Seq<char>,
    Seq<Endpoint>,
> {
    if m.contains_key(r.0) {
        m.insert(r.0, m[r.0].push(r.1))
    } else {
        m.insert(r.0, seq![r.1])
    }
}

/// `m` with each route of `rs` added in turn.
pub open spec fn add_routes(m: Map<Seq<char>, Seq<Endpoint>>, rs: Seq<Route>) -> Map<
    Seq<char>,
    Seq<Endpoint>,
>
    decreases rs.len(),
{
    if rs.len() == 0 {
        m
    } else {
        add_route(add_routes(m, rs.drop_last()), rs.last())
    }
}

/// The map of host patterns to backends.
pub struct ServiceMap {
    entries: Vec<ServiceEntry>,
}

impl View for ServiceMap {
    type V = Map<Seq<char>, Seq<Endpoint>>;

    closed spec fn view(&self) -> Map<Seq<char>, Seq<Endpoint>> {
        entries_map(self.entries@)
    }
}

impl ServiceMap {
    /// Keys are unique and no bucket is empty.
    pub closed spec fn wf(&self) -> bool {
        &&& keys_unique(self.entries@)
        &&& forall|i: int|
            0 <= i < self.entries@.len() ==> #[trigger] self.entries@[i].endpoints@.len() > 0
    }

    /// An empty map.
    pub fn new() -> (r: ServiceMap)
        ensures
            r.wf(),
            r@ == Map::<Seq<char>, Seq<Endpoint>>::empty(),
    {
        ServiceMap { entries: Vec::new() }
    }

    /// The number of host patterns.
    pub fn len(&self) -> (r: usize)
        requires
            self.wf(),
        ensures
            r == self@.len(),
    {
        proof {
            self.lemma_len();
        }
        self.entries.len()
    }

    proof fn lemma_len(&self)
        requires
            self.wf(),
        ensures
            self@.dom().finite(),
            self@.len() == self.entries@.len(),
        decreases self.entries@.len(),
    {
        lemma_entries_len(self.entries@);
    }

    /// Where the bucket of `host` stands among the entries.
    fn position(&self, host: &String) -> (r: Option<usize>)
        requires
            self.wf(),
        ensures
            match r {
                Some(i) => i < self.entries@.len() && self.entries@[i as int].host@ == host@,
                None => !self@.contains_key(host@),
            },
    {
        proof {
            lemma_entries_map_get(self.entries@);
        }
        let mut i: usize = 0;
        while i < self.entries.len()
            invariant
                i <= self.entries@.len(),
                forall|j: int| 0 <= j < i ==> self.entries@[j].host@ != host@,
            decreases self.entries@.len() - i,
        {
            if self.entries[i].host == *host {
                return Some(i);
            }
            i = i + 1;
        }
        None
    }

    /// The backends of the pattern `host`, if it is in the map.
    pub fn get(&self, host: &String) -> (r: Option<&Vec<AddressPort>>)
        requires
            self.wf(),
        ensures
            match r {
                Some(v) => self@.contains_key(host@) && endpoints_view(v@) == self@[host@]
                    && v@.len() > 0,
                None => !self@.contains_key(host@),
            },
    {
        proof {
            lemma_entries_map_get(self.entries@);
        }
        match self.position(host) {
            Some(i) => Some(&self.entries[i].endpoints),
            None => None,
        }
    }

    /// Appends `address_port` to the bucket of `service`, making the bucket
    /// where there is none.
    pub fn add_address_port(&mut self, service: String, address_port: AddressPort)
        requires
            old(self).wf(),
        ensures
            final(self).wf(),
            final(self)@ == add_route(old(self)@, (service@, address_port@)),
    {
        proof {
            lemma_entries_map_get(self.entries@);
        }
        match self.position(&service) {
            Some(i) => {
                let ghost es = self.entries@;
                let mut e = self.entries.remove(i);
                let ghost old_e = e;
                e.endpoints.push(address_port);
                let ghost new_e = e;
                self.entries.insert(i, e);
                assert(self.entries@ =~= es.update(i as int, new_e));
                proof {
                    lemma_entries_map_update(es, i as int, new_e);
                    assert(endpoints_view(new_e.endpoints@) =~= endpoints_view(
                        old_e.endpoints@,
                    ).push(address_port@));
                }
                assert forall|j: int|
                    0 <= j < self.entries@.len() implies #[trigger] self.entries@[j].endpoints@.len()
                    > 0 by {
                    if j != i {
                        assert(self.entries@[j] == es[j]);
                    }
                }
            },
            None => {
                let ghost es = self.entries@;
                let e = ServiceEntry { host: service, endpoints: vec![address_port] };
                let ghost new_e = e;
                self.entries.push(e);
                assert(self.entries@.drop_last() =~= es);
                assert(endpoints_view(new_e.endpoints@) =~= seq![address_port@]);
                assert(keys_unique(self.entries@)) by {
                    assert forall|a: int, b: int|
                        0 <= a < b < self.entries@.len() implies #[trigger] self.entries@[a].host@
                        != #[trigger] self.entries@[b].host@ by {
                        if b == es.len() {
                            assert(self.entries@[a] == es[a]);
                            assert(entries_map(es).contains_key(es[a].host@));
                        } else {
                            assert(self.entries@[a] == es[a]);
                            assert(self.entries@[b] == es[b]);
                        }
                    }
                }
                assert forall|j: int|
                    0 <= j < self.entries@.len() implies #[trigger] self.entries@[j].endpoints@.len()
                    > 0 by {
                    if j < es.len() {
                        assert(self.entries@[j] == es[j]);
                    }
                }
            },
        }
    }

    /// Adds the routes of every `urlprefix-` tag of `node`, in the order of
    /// the tags.
    pub fn add_node_routes(&mut self, node: &ServiceNode)
        requires
            old(self).wf(),
        ensures
            final(self).wf(),
            final(self)@ == add_routes(old(self)@, node_routes(*node)),
    {
        let tags = &node.service_tags;
        let ghost ep: Endpoint = (node.service_address@, node.service_port);
        let ghost m0 = self@;
        let mut j: usize = 0;
        while j < tags.len()
            invariant
                j <= tags@.len(),
                tags@ == node.service_tags@,
                ep == (node.service_address@, node.service_port),
                self.wf(),
                self@ == add_routes(m0, tag_routes(tags@.subrange(0, j as int), ep)),
            decreases tags@.len() - j,
        {
            let ghost before = tag_routes(tags@.subrange(0, j as int), ep);
            assert(tags@.subrange(0, j + 1).drop_last() =~= tags@.subrange(0, j as int));
            let tag = &tags[j];
            let key = extract_prefix(tag.as_str());
            let tcs = chars_of(tag.as_str());
            if tcs.len() >= 10 && tcs[0] == 'u' && tcs[1] == 'r' && tcs[2] == 'l' && tcs[3] == 'p'
                && tcs[4] == 'r' && tcs[5] == 'e' && tcs[6] == 'f' && tcs[7] == 'i' && tcs[8]
                == 'x' && tcs[9] == '-' {
                assert(tcs@.subrange(0, 10) =~= url_prefix());
                let ap = AddressPort { address: node.service_address.clone(), port: node.service_port };
                self.add_address_port(key, ap);
                assert(before.push((host_key(tag@), ep)).drop_last() =~= before);
            } else {
                assert(!is_route_tag(tag@)) by {
                    if is_route_tag(tag@) {
                        assert(tcs@.subrange(0, 10) == url_prefix());
                        assert(tcs@[0] == tcs@.subrange(0, 10)[0]);
                        assert(tcs@[1] == tcs@.subrange(0, 10)[1]);
                        assert(tcs@[2] == tcs@.subrange(0, 10)[2]);
                        assert(tcs@[3] == tcs@.subrange(0, 10)[3]);
                        assert(tcs@[4] == tcs@.subrange(0, 10)[4]);
                        assert(tcs@[5] == tcs@.subrange(0, 10)[5]);
                        assert(tcs@[6] == tcs@.subrange(0, 10)[6]);
                        assert(tcs@[7] == tcs@.subrange(0, 10)[7]);
                        assert(tcs@[8] == tcs@.subrange(0, 10)[8]);
                        assert(tcs@[9] == tcs@.subrange(0, 10)[9]);
                    }
                }
            }
            j = j + 1;
        }
        assert(tags@.subrange(0, tags@.len() as int) =~= tags@);
    }
}

proof fn lemma_entries_len(es: Seq<ServiceEntry>)
    requires
        keys_unique(es),
    ensures
        entries_map(es).dom().finite(),
        entries_map(es).len() == es.len(),
    decreases es.len(),
{
    if es.len() > 0 {
        let init = es.drop_last();
        assert(keys_unique(init));
        lemma_entries_len(init);
        lemma_entries_map_get(init);
        assert(!entries_map(init).contains_key(es.last().host@)) by {
            if entries_map(init).contains_key(es.last().host@) {
                let i = choose|i: int| 0 <= i < init.len() && init[i].host@ == es.last().host@;
                assert(es[i].host@ != es[es.len() - 1].host@);
            }
        }
    }
}

impl ServiceMap {
    /// Adds the routes of every node in `nodes`, in order.
    pub fn add_nodes(&mut self, nodes: &Vec<ServiceNode>)
        requires
            old(self).wf(),
        ensures
            final(self).wf(),
            final(self)@ == add_routes(old(self)@, nodes_routes(nodes@)),
    {
        let ghost m0 = self@;
        let mut i: usize = 0;
        while i < nodes.len()
            invariant
                i <= nodes@.len(),
                self.wf(),
                self@ == add_routes(m0, nodes_routes(nodes@.subrange(0, i as int))),
            decreases nodes@.len() - i,
        {
            let ghost before = nodes_routes(nodes@.subrange(0, i as int));
            assert(nodes@.subrange(0, i + 1).drop_last() =~= nodes@.subrange(0, i as int));
            self.add_node_routes(&nodes[i]);
            proof {
                lemma_add_routes_concat(m0, before, node_routes(nodes@[i as int]));
            }
            i = i + 1;
        }
        assert(nodes@.subrange(0, nodes@.len() as int) =~= nodes@);
    }
}

proof fn lemma_add_routes_concat(
    m: Map<Seq<char>, Seq<Endpoint>>,
    a: Seq<Route>,
    b: Seq<Route>,
)
    ensures
        add_routes(m, a + b) == add_routes(add_routes(m, a), b),
    decreases b.len(),
{
    if b.len() > 0 {
        assert((a + b).drop_last() =~= a + b.drop_last());
        lemma_add_routes_concat(m, a, b.drop_last());
    } else {
        assert(a + b =~= a);
    }
}

proof fn lemma_nodes_routes_concat(a: Seq<ServiceNode>, b: Seq<ServiceNode>)
    ensures
        nodes_routes(a + b) == nodes_routes(a) + nodes_routes(b),
    decreases b.len(),
{
    if b.len() > 0 {
        assert((a + b).drop_last() =~= a + b.drop_last());
        lemma_nodes_routes_concat(a, b.drop_last());
        assert(nodes_routes(a + b) =~= nodes_routes(a) + nodes_routes(b));
    } else {
        assert(a + b =~= a);
        assert(nodes_routes(a) + nodes_routes(b) =~= nodes_routes(a));
    }
}

/// A label of `h` starts at `i`: `i` is 0 or follows a dot.
pub open spec fn label_start(h: Seq<char>, i: int) -> bool {
    i == 0 || (1 <= i <= h.len() && h[i - 1] == '.')
}

/// The wildcard pattern that stands for the suffix of `h` from `i` on.
pub open spec fn probe(h: Seq<char>, i: int) -> Seq<char> {
    seq!['*'] + h.subrange(i, h.len() as int)
}

/// The first wildcard pattern of `h`, from label `i` on, that `m` holds.
pub open spec fn first_probe(m: Map<Seq<char>, Seq<Endpoint>>, h: Seq<char>, i: int) -> Option<
    Seq<char>,
>
    decreases h.len() + 1 - i,
{
    if i < 0 || i > h.len() {
        None
    } else if label_start(h, i) && m.contains_key(probe(h, i)) {
        Some(probe(h, i))
    } else {
        first_probe(m, h, i + 1)
    }
}

/// The pattern that a lookup of `h` resolves through: `h` itself where the
/// map holds it, else the first of `*` and the suffix of `h` from each of its
/// labels on, longest suffix first.
pub open spec fn route_key(m: Map<Seq<char>, Seq<Endpoint>>, h: Seq<char>) -> Option<Seq<char>> {
    if m.contains_key(h) {
        Some(h)
    } else {
        first_probe(m, h, 0)
    }
}

proof fn lemma_first_probe_in_map(m: Map<Seq<char>, Seq<Endpoint>>, h: Seq<char>, i: int)
    ensures
        first_probe(m, h, i) matches Some(k) ==> m.contains_key(k),
    decreases h.len() + 1 - i,
{
    if 0 <= i <= h.len() {
        lemma_first_probe_in_map(m, h, i + 1);
    }
}

/// A pattern that a lookup resolves through is one that the map holds.
pub proof fn lemma_route_key_in_map(m: Map<Seq<char>, Seq<Endpoint>>, h: Seq<char>)
    ensures
        route_key(m, h) matches Some(k) ==> m.contains_key(k),
{
    lemma_first_probe_in_map(m, h, 0);
}

/// The message of a failed lookup.
pub open spec fn not_found_text(h: Seq<char>) -> Seq<char> {
    "No address found for host "@ + h
}

/// Relies on rand's `thread_rng().gen_range(0..len)`: an index below `len`,
/// drawn uniformly; the range must not be empty.
#[verifier::external_body]
fn random_index(len: usize) -> (r: usize)
    requires
        len > 0,
    ensures
        r < len,
{
    rand::Rng::gen_range(&mut rand::thread_rng(), 0..len)
}

fn not_found(host: &Vec<char>) -> (r: GetHostError)
    ensures
        r matches GetHostError::StrErr(m) && m@ == not_found_text(host@),
{
    let lit = "No address found for host ";
    let mut m = lit.to_owned();
    let mut i: usize = 0;
    while i < host.len()
        invariant
            i <= host@.len(),
            m@ == lit@ + host@.subrange(0, i as int),
        decreases host@.len() - i,
    {
        m.push(host[i]);
        assert(lit@ + host@.subrange(0, i + 1) =~= (lit@ + host@.subrange(0, i as int)).push(
            host@[i as int],
        ));
        i = i + 1;
    }
    assert(host@.subrange(0, host@.len() as int) =~= host@);
    GetHostError::StrErr(m)
}

/// The wildcard pattern `*` followed by `cs[i..]`.
fn star_suffix(cs: &Vec<char>, i: usize) -> (r: String)
    requires
        i <= cs@.len(),
    ensures
        r@ == probe(cs@, i as int),
{
    let mut r = String::new();
    r.push('*');
    let mut k: usize = i;
    while k < cs.len()
        invariant
            i <= k <= cs@.len(),
            r@ == seq!['*'] + cs@.subrange(i as int, k as int),
        decreases cs@.len() - k,
    {
        r.push(cs[k]);
        assert(seq!['*'] + cs@.subrange(i as int, k + 1) =~= (seq!['*'] + cs@.subrange(
            i as int,
            k as int,
        )).push(cs@[k as int]));
        k = k + 1;
    }
    r
}

/// Routes virtual hosts to backends, rebuilding its map from a provider.
pub struct ServiceRegistry<T: ServiceProvider> {
    services: ServiceMap,
    client: T,
}

impl<T: ServiceProvider> ServiceRegistry<T> {
    pub closed spec fn wf(&self) -> bool {
        self.services.wf()
    }

    /// The map that lookups read.
    pub closed spec fn map(&self) -> Map<Seq<char>, Seq<Endpoint>> {
        self.services@
    }

    /// A registry with an empty map, drawing on `client`.
    pub fn new(client: T) -> (r: ServiceRegistry<T>)
        ensures
            r.wf(),
            r.map() == Map::<Seq<char>, Seq<Endpoint>>::empty(),
    {
        ServiceRegistry { services: ServiceMap::new(), client }
    }

    /// A registry that starts from `services`.
    pub fn with_services(client: T, services: ServiceMap) -> (r: ServiceRegistry<T>)
        requires
            services.wf(),
        ensures
            r.wf(),
            r.map() == services@,
    {
        ServiceRegistry { services, client }
    }

    /// Builds a fresh map from the provider: for each service, the routes of
    /// its nodes. Any error of the provider is handed back unchanged.
    pub fn pull_consul_routes(&self) -> (r: Result<ServiceMap, String>)
        ensures
            r matches Ok(m) ==> m.wf() && exists|ns: Seq<ServiceNode>|
                m@ == #[trigger] add_routes(Map::empty(), nodes_routes(ns)),
    {
        let services = match self.client.services() {
            Ok(s) => s,
            Err(e) => {
                return Err(e);
            },
        };
        let mut map = ServiceMap::new();
        let ghost mut seen: Seq<ServiceNode> = Seq::empty();
        let mut i: usize = 0;
        while i < services.len()
            invariant
                i <= services@.len(),
                map.wf(),
                map@ == add_routes(Map::empty(), nodes_routes(seen)),
            decreases services@.len() - i,
        {
            let nodes = match self.client.get_nodes(services[i].clone()) {
                Ok(n) => n,
                Err(e) => {
                    return Err(e);
                },
            };
            map.add_nodes(&nodes);
            proof {
                lemma_nodes_routes_concat(seen, nodes@);
                lemma_add_routes_concat(Map::empty(), nodes_routes(seen), nodes_routes(nodes@));
                seen = seen + nodes@;
            }
            i = i + 1;
        }
        Ok(map)
    }

    /// Swaps in a whole new map at once.
    pub fn replace_services(&mut self, services: ServiceMap)
        requires
            old(self).wf(),
            services.wf(),
        ensures
            final(self).wf(),
            final(self).map() == services@,
    {
        self.services = services;
    }

    /// Rebuilds the map from the provider. On failure the map is left as it
    /// was; on success it is replaced whole.
    pub fn update(&mut self) -> (r: Result<(), String>)
        requires
            old(self).wf(),
        ensures
            final(self).wf(),
            r is Err ==> final(self).map() == old(self).map(),
            r is Ok ==> exists|ns: Seq<ServiceNode>|
                final(self).map() == #[trigger] add_routes(Map::empty(), nodes_routes(ns)),
    {
        let m = self.pull_consul_routes();
        match m {
            Ok(m) => {
                self.replace_services(m);
                Ok(())
            },
            Err(e) => Err(e),
        }
    }

    /// One backend of the pattern `host`, drawn at random from its bucket.
    fn address_for_host(&self, host: &String) -> (r: Result<AddressPort, GetHostError>)
        requires
            self.wf(),
        ensures
            match r {
                Ok(a) => self.map().contains_key(host@) && self.map()[host@].contains(a@),
                Err(e) => !self.map().contains_key(host@),
            },
    {
        match self.services.get(host) {
            Some(v) => {
                let i = random_index(v.len());
                let a = v[i].duplicate();
                assert(endpoints_view(v@)[i as int] == a@);
                Ok(a)
            },
            None => {
                let cs = chars_of(host.as_str());
                Err(not_found(&cs))
            },
        }
    }

    /// The pattern that `host` resolves through: `host` itself where the map
    /// holds it, else the first that the map holds of `*` followed by the
    /// suffix of `host` from each of its labels on, longest suffix first.
    pub fn route(&self, host: &str) -> (r: Option<String>)
        requires
            self.wf(),
        ensures
            match r {
                Some(k) => route_key(self.map(), host@) == Some(k@),
                None => route_key(self.map(), host@) is None,
            },
    {
        let exact = host.to_owned();
        if self.services.get(&exact).is_some() {
            return Some(exact);
        }
        let cs = chars_of(host);
        let n = cs.len();
        let ghost m = self.map();
        let ghost h = host@;
        let mut i: usize = 0;
        while i < n
            invariant
                i <= n,
                n == h.len(),
                h == host@,
                cs@ == h,
                m == self.map(),
                self.wf(),
                !m.contains_key(h),
                first_probe(m, h, 0) == first_probe(m, h, i as int),
            decreases n - i,
        {
            if i == 0 || cs[i - 1] == '.' {
                let p = star_suffix(&cs, i);
                if self.services.get(&p).is_some() {
                    assert(label_start(h, i as int));
                    assert(first_probe(m, h, i as int) == Some(probe(h, i as int)));
                    return Some(p);
                }
            }
            i = i + 1;
        }
        if n == 0 || cs[n - 1] == '.' {
            let p = star_suffix(&cs, n);
            if self.services.get(&p).is_some() {
                return Some(p);
            }
        }
        assert(first_probe(m, h, n + 1) == None::<Seq<char>>);
        None
    }

    /// A backend for `host`, drawn at random from the bucket of the pattern
    /// that `host` resolves through (see `route`).
    pub fn lookup(&self, host: &str) -> (r: Result<AddressPort, GetHostError>)
        requires
            self.wf(),
        ensures
            match r {
                Ok(a) => (route_key(self.map(), host@) matches Some(k) && self.map()[k].contains(
                    a@,
                )),
                Err(e) => route_key(self.map(), host@) is None && (e matches GetHostError::StrErr(
                    m,
                ) && m@ == not_found_text(host@)),
            },
    {
        match self.route(host) {
            Some(k) => {
                proof {
                    lemma_route_key_in_map(self.map(), host@);
                }
                self.address_for_host(&k)
            },
            None => {
                let cs = chars_of(host);
                Err(not_found(&cs))
            },
        }
    }
}

} // verus!
