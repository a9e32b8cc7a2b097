//! The topology-discovery engine: a breadth-first crawl over the network.
//!
//! The engine owns the work queue (FIFO, so nodes are queried in the order
//! they are first discovered), the visited set, and the topology table.  It
//! decides which node to query next and when the crawl is complete; sending
//! and receiving bytes is the caller's business.  A transport failure is
//! fatal: a failed engine never hands out a topology message, since a partial
//! topology is indistinguishable from a fully discovered sparse graph.

use vstd::prelude::*;

use crate::messages::Message;
use crate::messages::MessageV;
use crate::messages::Topology;
use crate::messages::make_message;
use crate::messages::message_tagged;
use crate::messages::id_chars;

verus! {

/// The neighbors of `nbrs[i..]` not yet visited, first occurrence only, in
/// order of first discovery.
pub open spec fn fresh_nodes(vis: Seq<Seq<char>>, nbrs: Seq<Seq<char>>, i: int) -> Seq<Seq<char>>
    decreases nbrs.len() - i,
{
    if !(0 <= i < nbrs.len()) {
        Seq::empty()
    } else if vis.contains(nbrs[i]) {
        fresh_nodes(vis, nbrs, i + 1)
    } else {
        seq![nbrs[i]] + fresh_nodes(vis.push(nbrs[i]), nbrs, i + 1)
    }
}

/// What enqueueing fresh neighbors guarantees: the grown visited list stays
/// duplicate free, only genuinely new nodes are added, every listed neighbor
/// is afterwards visited, and each new node is one of the neighbors.
pub proof fn lemma_fresh_props(vis: Seq<Seq<char>>, nbrs: Seq<Seq<char>>, i: int)
    requires
        0 <= i,
        vis.no_duplicates(),
    ensures
        (vis + fresh_nodes(vis, nbrs, i)).no_duplicates(),
        forall|x: Seq<char>|
            fresh_nodes(vis, nbrs, i).contains(x) ==> nbrs.contains(x) && !vis.contains(x),
        forall|j: int| i <= j < nbrs.len() ==> (vis + fresh_nodes(vis, nbrs, i)).contains(nbrs[j]),
    decreases nbrs.len() - i,
{
    let fr = fresh_nodes(vis, nbrs, i);
    if !(0 <= i < nbrs.len()) {
        assert(vis + fr =~= vis);
    } else if vis.contains(nbrs[i]) {
        lemma_fresh_props(vis, nbrs, i + 1);
        assert((vis + fr).contains(nbrs[i])) by {
            let w = choose|w: int| 0 <= w < vis.len() && vis[w] == nbrs[i];
            assert((vis + fr)[w] == nbrs[i]);
        }
    } else {
        let vis2 = vis.push(nbrs[i]);
        assert(vis2.no_duplicates()) by {
            assert forall|a: int, b: int| 0 <= a < b < vis2.len() implies vis2[a] != vis2[b] by {
                if b == vis2.len() - 1 {
                    assert(vis2[a] == vis[a]);
                    if vis2[a] == nbrs[i] {
                        assert(vis.contains(nbrs[i]));
                    }
                }
            }
        }
        lemma_fresh_props(vis2, nbrs, i + 1);
        let fr2 = fresh_nodes(vis2, nbrs, i + 1);
        assert(fr == seq![nbrs[i]] + fr2);
        assert(vis + fr =~= vis2 + fr2);
        assert forall|x: Seq<char>| fr.contains(x) implies nbrs.contains(x) && !vis.contains(x) by {
            let w = choose|w: int| 0 <= w < fr.len() && fr[w] == x;
            if w == 0 {
                assert(x == nbrs[i]);
            } else {
                assert(fr2[w - 1] == x);
                assert(fr2.contains(x));
                assert(nbrs.contains(x));
                if vis.contains(x) {
                    let u = choose|u: int| 0 <= u < vis.len() && vis[u] == x;
                    assert(vis2[u] == x);
                    assert(vis2.contains(x));
                }
            }
        }
        assert forall|j: int| i <= j < nbrs.len() implies (vis + fr).contains(nbrs[j]) by {
            if j == i {
                assert((vis + fr)[vis.len() as int] == nbrs[i]);
            } else {
                assert((vis2 + fr2).contains(nbrs[j]));
            }
        }
    }
}

/// Whether a received message is the answer the crawl is blocked on: a
/// `neighbors`-tagged message that carries its list.  Anything else arriving
/// while a response is awaited is a protocol violation the engine tolerates
/// by continuing to wait.
pub fn is_neighbors_response(m: &Message) -> (r: bool)
    ensures
        r == (m@.msg_type == "neighbors"@ && m@.n is Some),
{
    let tag = String::from_str("neighbors");
    m.msg_type == tag && m.n.is_some()
}

/// The discovery engine's state: one run from bootstrap to the finished
/// topology table.
pub struct DiscoveryEngine {
    pub my_id: String,
    pub queue: Vec<String>,
    pub visited: Vec<String>,
    pub topology: Topology,
    pub failed: bool,
}

impl DiscoveryEngine {
    pub open spec fn queue_ids(&self) -> Seq<Seq<char>> {
        self.queue.deep_view()
    }

    pub open spec fn visited_ids(&self) -> Seq<Seq<char>> {
        self.visited.deep_view()
    }

    /// Every node ever discovered is either recorded in the topology or still
    /// pending in the queue, in order, and no node is discovered twice.
    pub open spec fn wf(&self) -> bool {
        &&& self.visited_ids() == self.topology.keys() + self.queue_ids()
        &&& self.visited_ids().no_duplicates()
    }

    /// The crawl ended well: nothing pending and no transport failure.
    pub open spec fn complete(&self) -> bool {
        self.queue_ids().len() == 0 && !self.failed
    }

    /// Seeds the crawl with the local node's own id and hands back the
    /// bootstrap query, addressed to the node itself.
    pub fn new(my_id: String) -> (r: (DiscoveryEngine, Message))
        ensures
            r.0.wf(),
            !r.0.failed,
            r.0.my_id@ == my_id@,
            r.0.queue_ids() == seq![my_id@],
            r.0.visited_ids() == seq![my_id@],
            r.0.topology@ == Seq::<(Seq<char>, Seq<Seq<char>>)>::empty(),
            r.1@.msg_type == "query"@,
            r.1@.sender_id == my_id@,
            r.1@.receiver_id == my_id@,
            r.1@.n is None,
            r.1@.topology is None,
            id_chars(r.1@.msg_id),
    {
        let bootstrap = make_message("query", my_id.as_str(), my_id.as_str());
        let mut queue: Vec<String> = Vec::new();
        let mut visited: Vec<String> = Vec::new();
        queue.push(my_id.clone());
        visited.push(my_id.clone());
        let engine = DiscoveryEngine {
            my_id,
            queue,
            visited,
            topology: Topology::new(),
            failed: false,
        };
        proof {
            assert(engine.queue_ids() =~= seq![engine.my_id@]);
            assert(engine.visited_ids() =~= seq![engine.my_id@]);
            assert(engine.visited_ids() =~= engine.topology.keys() + engine.queue_ids());
        }
        (engine, bootstrap)
    }

    pub fn done(&self) -> (r: bool)
        ensures
            r == (self.queue_ids().len() == 0),
    {
        self.queue.len() == 0
    }

    /// A transport failure: the run is over and no topology will be reported.
    pub fn fail(&mut self)
        ensures
            final(self).failed,
            final(self).my_id == old(self).my_id,
            final(self).queue == old(self).queue,
            final(self).visited == old(self).visited,
            final(self).topology == old(self).topology,
    {
        self.failed = true;
    }

    fn is_visited(&self, k: &String) -> (r: bool)
        ensures
            r == self.visited_ids().contains(k@),
    {
        let mut i: usize = 0;
        while i < self.visited.len()
            invariant
                i <= self.visited.len(),
                forall|j: int| 0 <= j < i ==> self.visited_ids()[j] != k@,
            decreases self.visited.len() - i,
        {
            if self.visited[i] == *k {
                assert(self.visited_ids()[i as int] == k@);
                return true;
            }
            i += 1;
        }
        false
    }

    /// Marks the fresh neighbors from `nbrs[i..]` visited, queues them, and
    /// returns one query per fresh node, in discovery order.
    fn enqueue_fresh(&mut self, nbrs: &Vec<String>, i: usize) -> (queries: Vec<Message>)
        requires
            i <= nbrs.len(),
        ensures
            ({
                let fr = fresh_nodes(old(self).visited_ids(), nbrs.deep_view(), i as int);
                &&& final(self).visited_ids() == old(self).visited_ids() + fr
                &&& final(self).queue_ids() == old(self).queue_ids() + fr
                &&& final(self).my_id == old(self).my_id
                &&& final(self).topology == old(self).topology
                &&& final(self).failed == old(self).failed
                &&& queries.deep_view().len() == fr.len()
                &&& forall|q: int|
                    0 <= q < fr.len() ==> {
                        let mv = #[trigger] queries.deep_view()[q];
                        mv.msg_type == "query"@ && mv.sender_id == old(self).my_id@
                            && mv.receiver_id == fr[q] && mv.n is None && mv.topology is None
                    }
            }),
        decreases nbrs.len() - i,
    {
        let ghost vis0 = self.visited_ids();
        let ghost q0 = self.queue_ids();
        if i >= nbrs.len() {
            let queries: Vec<Message> = Vec::new();
            proof {
                assert(self.visited_ids() =~= vis0 + fresh_nodes(vis0, nbrs.deep_view(), i as int));
                assert(self.queue_ids() =~= q0 + fresh_nodes(vis0, nbrs.deep_view(), i as int));
                assert(queries.deep_view() =~= Seq::<MessageV>::empty());
            }
            queries
        } else if self.is_visited(&nbrs[i]) {
            proof {
                assert(nbrs.deep_view()[i as int] == nbrs[i as int]@);
            }
            self.enqueue_fresh(nbrs, i + 1)
        } else {
            proof {
                assert(nbrs.deep_view()[i as int] == nbrs[i as int]@);
            }
            let node = nbrs[i].clone();
            let query = make_message("query", self.my_id.as_str(), node.as_str());
            let ghost qv = query@;
            self.visited.push(node.clone());
            self.queue.push(node.clone());
            proof {
                assert(self.visited_ids() =~= vis0.push(nbrs.deep_view()[i as int]));
                assert(self.queue_ids() =~= q0.push(nbrs.deep_view()[i as int]));
            }
            let ghost vis1 = self.visited_ids();
            let ghost q1 = self.queue_ids();
            let mut queries = self.enqueue_fresh(nbrs, i + 1);
            let ghost fr2 = fresh_nodes(vis1, nbrs.deep_view(), i + 1 as int);
            let ghost rest = queries.deep_view();
            queries.insert(0, query);
            proof {
                let frv = fresh_nodes(vis0, nbrs.deep_view(), i as int);
                assert(frv == seq![nbrs.deep_view()[i as int]] + fr2);
                assert(self.visited_ids() =~= vis0 + frv);
                assert(self.queue_ids() =~= q0 + frv);
                assert(queries.deep_view() =~= seq![qv] + rest);
                assert forall|q: int| 0 <= q < frv.len() implies {
                    let mv = #[trigger] queries.deep_view()[q];
                    mv.msg_type == "query"@ && mv.sender_id == old(self).my_id@ && mv.receiver_id
                        == frv[q] && mv.n is None && mv.topology is None
                } by {
                    if q > 0 {
                        assert(queries.deep_view()[q] == rest[q - 1]);
                        assert(frv[q] == fr2[q - 1]);
                    }
                }
            }
            queries
        }
    }

    /// Consumes the node at the front of the queue, records `neighbors` as
    /// its adjacency list, marks and queues each neighbor never seen before,
    /// and hands back one query message per newly discovered node.
    pub fn record_response(&mut self, neighbors: &Vec<String>) -> (queries: Vec<Message>)
        requires
            old(self).wf(),
            old(self).queue_ids().len() > 0,
        ensures
            ({
                let node = old(self).queue_ids()[0];
                let fr = fresh_nodes(old(self).visited_ids(), neighbors.deep_view(), 0);
                &&& final(self).wf()
                &&& final(self).my_id == old(self).my_id
                &&& final(self).failed == old(self).failed
                &&& final(self).topology@ == old(self).topology@.push(
                    (node, neighbors.deep_view()),
                )
                &&& final(self).queue_ids() == old(self).queue_ids().drop_first() + fr
                &&& final(self).visited_ids() == old(self).visited_ids() + fr
                &&& forall|x: Seq<char>|
                    fr.contains(x) ==> neighbors.deep_view().contains(x) && !old(
                        self,
                    ).visited_ids().contains(x)
                &&& forall|j: int|
                    0 <= j < neighbors.deep_view().len() ==> final(self).visited_ids().contains(
                        neighbors.deep_view()[j],
                    )
                &&& queries.deep_view().len() == fr.len()
                &&& forall|q: int|
                    0 <= q < fr.len() ==> {
                        let mv = #[trigger] queries.deep_view()[q];
                        mv.msg_type == "query"@ && mv.sender_id == old(self).my_id@
                            && mv.receiver_id == fr[q] && mv.n is None && mv.topology is None
                    }
            }),
    {
        let ghost vis0 = self.visited_ids();
        let ghost q0 = self.queue_ids();
        let ghost keys0 = self.topology.keys();
        let node = self.queue.remove(0);
        proof {
            assert(node@ == q0[0]);
            assert(self.queue_ids() =~= q0.drop_first());
        }
        let mut nbrs_copy: Vec<String> = Vec::new();
        let ghost nv = neighbors.deep_view();
        proof {
            assert(nv == Seq::new(neighbors@.len(), |i: int| neighbors@[i].deep_view()));
        }
        let mut k: usize = 0;
        while k < neighbors.len()
            invariant
                k <= neighbors.len(),
                nv == neighbors.deep_view(),
                nv.len() == neighbors@.len(),
                nbrs_copy@.len() == k as int,
                forall|j: int| 0 <= j < k ==> nbrs_copy@[j]@ == nv[j],
            decreases neighbors.len() - k,
        {
            let item = neighbors[k].clone();
            proof {
                assert(nv == Seq::new(neighbors@.len(), |i: int| neighbors@[i].deep_view()));
                assert(nv[k as int] == neighbors@[k as int]@);
            }
            nbrs_copy.push(item);
            k += 1;
        }
        proof {
            assert(nbrs_copy.deep_view() =~= nv) by {
                assert(nbrs_copy.deep_view() == Seq::new(
                    nbrs_copy@.len(),
                    |i: int| nbrs_copy@[i].deep_view(),
                ));
            }
        }
        self.topology.insert(node, nbrs_copy);
        proof {
            assert(self.topology.keys() =~= keys0.push(q0[0]));
            assert(self.visited_ids() =~= self.topology.keys() + self.queue_ids());
        }
        let queries = self.enqueue_fresh(neighbors, 0);
        proof {
            let fr = fresh_nodes(vis0, nv, 0);
            lemma_fresh_props(vis0, nv, 0);
            assert(self.visited_ids() =~= (keys0.push(q0[0]) + q0.drop_first()) + fr);
            assert((keys0.push(q0[0]) + q0.drop_first()) + fr =~= keys0.push(q0[0]) + (
            q0.drop_first() + fr));
            assert(self.queue_ids() =~= q0.drop_first() + fr);
            assert(self.visited_ids() =~= vis0 + fr);
            assert(self.wf());
        }
        queries
    }

    /// The one report of a finished run: a `topology` message carrying the
    /// assembled table.  A run that failed, or has queries still pending,
    /// reports nothing.
    pub fn into_topology_message(self) -> (r: Option<Message>)
        ensures
            match r {
                Some(msg) => self.complete() && msg@.msg_type == "topology"@ && msg@.sender_id
                    == self.my_id@ && msg@.receiver_id == Seq::<char>::empty() && msg@.n is None
                    && msg@.topology == Some(self.topology@) && message_tagged(msg@) && id_chars(
                    msg@.msg_id,
                ),
                None => !self.complete(),
            },
    {
        if self.failed || self.queue.len() > 0 {
            return None;
        }
        let base = make_message("topology", self.my_id.as_str(), "");
        proof {
            reveal_strlit("");
            assert(""@ =~= Seq::<char>::empty());
        }
        Some(
            Message {
                sender_id: base.sender_id,
                receiver_id: base.receiver_id,
                msg_id: base.msg_id,
                msg_type: base.msg_type,
                n: None,
                topology: Some(self.topology),
            },
        )
    }
}

/// Every neighbor named anywhere in the table is itself a key: the graph is
/// closed, as a fully discoverable network must be.
pub open spec fn graph_closed(g: &Topology) -> bool {
    forall|i: int, j: int|
        0 <= i < g@.len() && 0 <= j < g@[i].1.len() ==> g.has_node(#[trigger] g@[i].1[j])
}

/// `b` is listed among `a`'s neighbors.
pub open spec fn edge(g: &Topology, a: Seq<char>, b: Seq<char>) -> bool {
    g.has_node(a) && g.neighbors_of(a).contains(b)
}

pub open spec fn is_path(g: &Topology, p: Seq<Seq<char>>, from: Seq<char>, to: Seq<char>) -> bool {
    &&& p.len() >= 1
    &&& p[0] == from
    &&& p.last() == to
    &&& forall|i: int| 0 <= i < p.len() - 1 ==> edge(g, #[trigger] p[i], p[i + 1])
}

/// `to` can be walked to from `from` along listed neighbors.
pub open spec fn reachable(g: &Topology, from: Seq<char>, to: Seq<char>) -> bool {
    exists|p: Seq<Seq<char>>| is_path(g, p, from, to)
}

proof fn lemma_reach_self(g: &Topology, a: Seq<char>)
    ensures
        reachable(g, a, a),
{
    let p = seq![a];
    assert(is_path(g, p, a, a));
}

proof fn lemma_reach_step(g: &Topology, from: Seq<char>, a: Seq<char>, b: Seq<char>)
    requires
        reachable(g, from, a),
        edge(g, a, b),
    ensures
        reachable(g, from, b),
{
    let p = choose|p: Seq<Seq<char>>| is_path(g, p, from, a);
    let p2 = p.push(b);
    assert forall|i: int| 0 <= i < p2.len() - 1 implies edge(g, #[trigger] p2[i], p2[i + 1]) by {
        if i < p.len() - 1 {
            assert(p2[i] == p[i] && p2[i + 1] == p[i + 1]);
        } else {
            assert(p2[i] == p.last() && p2[i + 1] == b);
        }
    }
    assert(is_path(g, p2, from, b));
}

/// Walking any path from a visited node through a neighbor-closed visited set
/// ends at a visited node.
proof fn lemma_path_visited(
    g: &Topology,
    vis: Seq<Seq<char>>,
    p: Seq<Seq<char>>,
    from: Seq<char>,
    to: Seq<char>,
)
    requires
        is_path(g, p, from, to),
        vis.contains(from),
        forall|x: Seq<char>, y: Seq<char>|
            vis.contains(x) && #[trigger] edge(g, x, y) ==> vis.contains(y),
    ensures
        vis.contains(to),
    decreases p.len(),
{
    if p.len() > 1 {
        assert(edge(g, p[0], p[1]));
        let p2 = p.drop_first();
        assert(is_path(g, p2, p[1], to)) by {
            assert(p2.last() == p.last());
            assert forall|i: int| 0 <= i < p2.len() - 1 implies edge(g, #[trigger] p2[i], p2[i + 1]) by {
                assert(p2[i] == p[i + 1] && p2[i + 1] == p[i + 2]);
            }
        }
        lemma_path_visited(g, vis, p2, p[1], to);
    }
}

/// A duplicate-free sequence has no more elements than any duplicate-free
/// sequence that contains them all.
proof fn lemma_distinct_le(a: Seq<Seq<char>>, b: Seq<Seq<char>>)
    requires
        a.no_duplicates(),
        b.no_duplicates(),
        forall|x: Seq<char>| a.contains(x) ==> b.contains(x),
    ensures
        a.len() <= b.len(),
{
    broadcast use vstd::seq_lib::seq_to_set_is_finite;

    a.unique_seq_to_set();
    b.unique_seq_to_set();
    assert(a.to_set().subset_of(b.to_set()));
    vstd::set_lib::lemma_len_subset(a.to_set(), b.to_set());
}

/// Discovery over a known graph: the engine run to completion against the
/// graph itself as responder.  The crawl terminates and its topology covers
/// exactly the nodes reachable from the initial one, each with the graph's
/// own neighbor list, each queried exactly once.
pub fn discover_on_graph(g: &Topology, initial_id: &String) -> (topo: Topology)
    requires
        g.wf(),
        graph_closed(g),
        g.has_node(initial_id@),
    ensures
        topo.wf(),
        forall|k: Seq<char>| topo.has_node(k) <==> reachable(g, initial_id@, k),
        forall|k: Seq<char>| topo.has_node(k) ==> topo.neighbors_of(k) == g.neighbors_of(k),
{
    let ghost init = initial_id@;
    let ghost gkeys = g.keys();
    proof {
        assert(gkeys.no_duplicates()) by {
            assert forall|a: int, b: int| 0 <= a < b < gkeys.len() implies gkeys[a] != gkeys[b] by {
                assert(gkeys[a] == g@[a].0 && gkeys[b] == g@[b].0);
            }
        }
        assert(gkeys.len() == g@.len());
    }
    let (mut engine, _bootstrap) = DiscoveryEngine::new(initial_id.clone());
    proof {
        assert(engine.visited_ids().contains(init)) by {
            assert(engine.visited_ids()[0] == init);
        }
        lemma_reach_self(g, init);
    }
    while engine.queue.len() > 0
        invariant
            g.wf(),
            graph_closed(g),
            g.has_node(init),
            gkeys == g.keys(),
            gkeys.no_duplicates(),
            gkeys.len() == g@.len(),
            engine.wf(),
            engine.visited_ids().contains(init),
            forall|x: Seq<char>| engine.visited_ids().contains(x) ==> g.has_node(x),
            forall|x: Seq<char>|
                engine.visited_ids().contains(x) ==> reachable(g, init, x),
            forall|i: int|
                0 <= i < engine.topology@.len() ==> #[trigger] engine.topology@[i].1
                    == g.neighbors_of(engine.topology@[i].0),
            forall|i: int, j: int|
                0 <= i < engine.topology@.len() && 0 <= j < engine.topology@[i].1.len()
                    ==> engine.visited_ids().contains(#[trigger] engine.topology@[i].1[j]),
            engine.topology@.len() <= g@.len(),
        decreases g@.len() - engine.topology@.len(),
    {
        proof {
            assert(engine.queue_ids() == Seq::new(
                engine.queue@.len(),
                |i: int| engine.queue@[i].deep_view(),
            ));
            assert(engine.queue_ids().len() == engine.queue@.len());
        }
        let ghost vis0 = engine.visited_ids();
        let ghost topo0 = engine.topology@;
        let ghost node = engine.queue_ids()[0];
        proof {
            assert(engine.visited_ids().contains(node)) by {
                assert(engine.visited_ids()[engine.topology.keys().len() as int] == node);
            }
            assert(g.has_node(node));
        }
        let nbrs = match g.get(&engine.queue[0]) {
            Some(v) => v,
            None => vstd::pervasive::unreached(),
        };
        proof {
            assert(engine.queue@[0]@ == node);
            assert(nbrs.deep_view() == g.neighbors_of(node));
            // the listed neighbors are keys of the graph
            let iw = choose|iw: int| 0 <= iw < g@.len() && g@[iw].0 == node;
            assert(g.neighbors_of(node) == g@[iw].1);
            assert forall|j: int| 0 <= j < g.neighbors_of(node).len() implies g.has_node(
                #[trigger] g.neighbors_of(node)[j],
            ) by {
                assert(g@[iw].1[j] == g.neighbors_of(node)[j]);
            }
        }
        let _queries = engine.record_response(nbrs);
        proof {
            let nv = g.neighbors_of(node);
            let fr = fresh_nodes(vis0, nv, 0);
            // every visited node is a key of the graph and reachable
            assert forall|x: Seq<char>| #[trigger] engine.visited_ids().contains(x) implies g.has_node(
                x,
            ) && reachable(g, init, x) by {
                let w = choose|w: int| 0 <= w < engine.visited_ids().len()
                    && engine.visited_ids()[w] == x;
                if w < vis0.len() {
                    assert(vis0[w] == x);
                    assert(vis0.contains(x));
                } else {
                    assert(fr[w - vis0.len()] == x);
                    assert(fr.contains(x));
                    assert(nv.contains(x));
                    let j = choose|j: int| 0 <= j < nv.len() && nv[j] == x;
                    assert(g.has_node(nv[j]));
                    assert(edge(g, node, x));
                    assert(vis0.contains(node));
                    lemma_reach_step(g, init, node, x);
                }
            }
            assert(engine.visited_ids().contains(init)) by {
                let w = choose|w: int| 0 <= w < vis0.len() && vis0[w] == init;
                assert(engine.visited_ids()[w] == init);
            }
            // recorded lists match the graph, and their nodes are visited
            assert(engine.topology@ == topo0.push((node, nv)));
            assert forall|i: int| 0 <= i < engine.topology@.len() implies #[trigger] engine.topology@[i].1
                == g.neighbors_of(engine.topology@[i].0) by {
                if i < topo0.len() {
                    assert(engine.topology@[i] == topo0[i]);
                }
            }
            assert forall|i: int, j: int|
                0 <= i < engine.topology@.len() && 0 <= j < engine.topology@[i].1.len() implies engine.visited_ids().contains(
                #[trigger] engine.topology@[i].1[j],
            ) by {
                if i < topo0.len() {
                    assert(engine.topology@[i] == topo0[i]);
                    assert(vis0.contains(topo0[i].1[j]));
                    let w = choose|w: int| 0 <= w < vis0.len() && vis0[w] == topo0[i].1[j];
                    assert(engine.visited_ids()[w] == topo0[i].1[j]);
                } else {
                    assert(engine.topology@[i].1 == nv);
                }
            }
            // the table cannot outgrow the graph
            assert(engine.topology.keys().len() <= engine.visited_ids().len()) by {
                assert(engine.visited_ids().len() == engine.topology.keys().len()
                    + engine.queue_ids().len());
            }
            assert forall|x: Seq<char>| engine.visited_ids().contains(x) implies gkeys.contains(
                x,
            ) by {
                assert(g.has_node(x));
                let iw = choose|iw: int| 0 <= iw < g@.len() && g@[iw].0 == x;
                assert(gkeys[iw] == x);
            }
            lemma_distinct_le(engine.visited_ids(), gkeys);
            assert(engine.topology@.len() == engine.topology.keys().len());
        }
    }
    proof {
        let vis = engine.visited_ids();
        let keys = engine.topology.keys();
        assert(engine.queue_ids().len() == engine.queue@.len()) by {
            assert(engine.queue_ids() == Seq::new(
                engine.queue@.len(),
                |i: int| engine.queue@[i].deep_view(),
            ));
        }
        assert(vis =~= keys);
        let topo = engine.topology;
        // the table is well formed
        assert(topo.wf()) by {
            assert forall|a: int, b: int| 0 <= a < b < topo@.len() implies topo@[a].0
                != topo@[b].0 by {
                assert(keys[a] == topo@[a].0 && keys[b] == topo@[b].0);
            }
        }
        // visited equals reachable
        assert forall|k: Seq<char>| topo.has_node(k) implies reachable(g, init, k) by {
            let i = choose|i: int| 0 <= i < topo@.len() && topo@[i].0 == k;
            assert(keys[i] == k);
            assert(vis.contains(k));
        }
        assert forall|k: Seq<char>| reachable(g, init, k) implies topo.has_node(k) by {
            assert forall|x: Seq<char>, y: Seq<char>|
                vis.contains(x) && #[trigger] edge(g, x, y) implies vis.contains(y) by {
                let w = choose|w: int| 0 <= w < vis.len() && vis[w] == x;
                assert(keys[w] == x);
                assert(topo@[w].0 == x);
                assert(topo@[w].1 == g.neighbors_of(x));
                assert(g.neighbors_of(x).contains(y));
                let j = choose|j: int| 0 <= j < topo@[w].1.len() && topo@[w].1[j] == y;
                assert(vis.contains(topo@[w].1[j]));
            }
            let p = choose|p: Seq<Seq<char>>| is_path(g, p, init, k);
            lemma_path_visited(g, vis, p, init, k);
            let w = choose|w: int| 0 <= w < vis.len() && vis[w] == k;
            assert(topo@[w].0 == k);
        }
        assert forall|k: Seq<char>| topo.has_node(k) implies topo.neighbors_of(k)
            == g.neighbors_of(k) by {
            let i = choose|i: int| 0 <= i < topo@.len() && topo@[i].0 == k;
            let c = choose|c: int| 0 <= c < topo@.len() && topo@[c].0 == k;
            assert(topo.neighbors_of(k) == topo@[c].1);
            assert(topo@[c].1 == g.neighbors_of(topo@[c].0));
        }
    }
    engine.topology
}

} // verus!
