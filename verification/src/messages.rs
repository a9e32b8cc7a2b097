//! Protocol messages and the topology table.
//!
//! A protocol message is a tagged record; the tag (`msg_type`) is one of
//! `init`, `query`, `neighbors`, `topology`.  A neighbor list is carried only
//! by `neighbors` messages and a topology table only by `topology` messages.

use vstd::prelude::*;

use crate::text::text_ok;
use crate::text::brace_free;

verus! {

/// One row of a topology table: a node and its direct neighbors.
pub struct TopologyEntry {
    pub node: String,
    pub neighbors: Vec<String>,
}

impl View for TopologyEntry {
    type V = (Seq<char>, Seq<Seq<char>>);

    open spec fn view(&self) -> Self::V {
        (self.node@, self.neighbors.deep_view())
    }
}

/// The topology table: node ids mapped to their neighbor lists, in insertion
/// order.  Key lookup is by string equality; a well-formed table has no
/// duplicate keys.
pub struct Topology {
    pub entries: Vec<TopologyEntry>,
}

impl View for Topology {
    type V = Seq<(Seq<char>, Seq<Seq<char>>)>;

    open spec fn view(&self) -> Self::V {
        self.entries@.map_values(|e: TopologyEntry| e@)
    }
}

impl Topology {
    /// The keys, in insertion order.
    pub open spec fn keys(&self) -> Seq<Seq<char>> {
        self@.map_values(|p: (Seq<char>, Seq<Seq<char>>)| p.0)
    }

    /// No key occurs twice.
    pub open spec fn wf(&self) -> bool {
        forall|i: int, j: int| 0 <= i < j < self@.len() ==> self@[i].0 != self@[j].0
    }

    pub open spec fn has_node(&self, k: Seq<char>) -> bool {
        exists|i: int| 0 <= i < self@.len() && self@[i].0 == k
    }

    /// The neighbor list recorded for `k` (meaningful when `has_node(k)` and
    /// the table is well formed).
    pub open spec fn neighbors_of(&self, k: Seq<char>) -> Seq<Seq<char>> {
        let i = choose|i: int| 0 <= i < self@.len() && self@[i].0 == k;
        self@[i].1
    }

    /// In a well-formed table every index holding key `k` holds the same row.
    pub proof fn lemma_unique_index(&self, k: Seq<char>, i: int)
        requires
            self.wf(),
            0 <= i < self@.len(),
            self@[i].0 == k,
        ensures
            self.has_node(k),
            self.neighbors_of(k) == self@[i].1,
    {
        assert(self.has_node(k));
        let j = choose|j: int| 0 <= j < self@.len() && self@[j].0 == k;
        if i < j {
            assert(self@[i].0 != self@[j].0);
        } else if j < i {
            assert(self@[j].0 != self@[i].0);
        }
    }

    pub fn new() -> (t: Topology)
        ensures
            t@ == Seq::<(Seq<char>, Seq<Seq<char>>)>::empty(),
    {
        let t = Topology { entries: Vec::new() };
        proof {
            assert(t@ =~= Seq::<(Seq<char>, Seq<Seq<char>>)>::empty());
        }
        t
    }

    pub fn len(&self) -> (n: usize)
        ensures
            n == self@.len(),
    {
        self.entries.len()
    }

    /// Appends a row.  Preserving well-formedness is the caller's business:
    /// the engine only inserts keys it has never inserted before.
    pub fn insert(&mut self, node: String, neighbors: Vec<String>)
        ensures
            final(self)@ == old(self)@.push((node@, neighbors.deep_view())),
    {
        let ghost prev = self@;
        let entry = TopologyEntry { node, neighbors };
        let ghost ev = entry@;
        self.entries.push(entry);
        proof {
            assert(self@ =~= prev.push(ev));
        }
    }

    pub fn contains_node(&self, k: &String) -> (r: bool)
        ensures
            r == self.has_node(k@),
    {
        let mut i: usize = 0;
        while i < self.entries.len()
            invariant
                0 <= i <= self.entries.len(),
                forall|j: int| 0 <= j < i ==> self@[j].0 != k@,
            decreases self.entries.len() - i,
        {
            if self.entries[i].node == *k {
                assert(self@[i as int].0 == k@);
                return true;
            }
            i += 1;
        }
        false
    }

    /// The neighbor list recorded for `k`, if any.
    pub fn get(&self, k: &String) -> (r: Option<&Vec<String>>)
        requires
            self.wf(),
        ensures
            match r {
                Some(v) => self.has_node(k@) && v.deep_view() == self.neighbors_of(k@),
                None => !self.has_node(k@),
            },
    {
        let mut i: usize = 0;
        while i < self.entries.len()
            invariant
                0 <= i <= self.entries.len(),
                self.wf(),
                forall|j: int| 0 <= j < i ==> self@[j].0 != k@,
            decreases self.entries.len() - i,
        {
            if self.entries[i].node == *k {
                proof {
                    self.lemma_unique_index(k@, i as int);
                }
                return Some(&self.entries[i].neighbors);
            }
            i += 1;
        }
        None
    }
}

/// The tag discipline of the data model: a neighbor list rides only on
/// `neighbors` messages and a topology table only on `topology` messages.
pub open spec fn message_tagged(m: MessageV) -> bool {
    &&& m.n is Some ==> m.msg_type == "neighbors"@
    &&& m.topology is Some ==> m.msg_type == "topology"@
}

/// Ghost image of a protocol message: every field as mathematical text.
pub ghost struct MessageV {
    pub sender_id: Seq<char>,
    pub receiver_id: Seq<char>,
    pub msg_id: Seq<char>,
    pub msg_type: Seq<char>,
    pub n: Option<Seq<Seq<char>>>,
    pub topology: Option<Seq<(Seq<char>, Seq<Seq<char>>)>>,
}

/// A protocol message.  `msg_type` is the wire tag (the JSON field `type`);
/// `n` is present only on `neighbors` messages, `topology` only on `topology`
/// messages.
pub struct Message {
    pub sender_id: String,
    pub receiver_id: String,
    pub msg_id: String,
    pub msg_type: String,
    pub n: Option<Vec<String>>,
    pub topology: Option<Topology>,
}

impl View for Message {
    type V = MessageV;

    open spec fn view(&self) -> MessageV {
        MessageV {
            sender_id: self.sender_id@,
            receiver_id: self.receiver_id@,
            msg_id: self.msg_id@,
            msg_type: self.msg_type@,
            n: match self.n {
                Some(v) => Some(v.deep_view()),
                None => None,
            },
            topology: match self.topology {
                Some(t) => Some(t@),
                None => None,
            },
        }
    }
}

impl DeepView for Message {
    type V = MessageV;

    open spec fn deep_view(&self) -> MessageV {
        self.view()
    }
}

/// An `init` message: the coordinator names the client's own node id in
/// `receiver_id`.
pub struct InitMessage {
    pub sender_id: String,
    pub receiver_id: String,
    pub msg_id: String,
    pub msg_type: String,
}

/// A `query` message: asks `receiver_id` for its neighbor list.
pub struct QueryMessage {
    pub sender_id: String,
    pub receiver_id: String,
    pub msg_id: String,
    pub msg_type: String,
}

/// A `neighbors` message: the answer to a query, carrying the neighbor list.
pub struct NeighborsResponse {
    pub sender_id: String,
    pub receiver_id: String,
    pub msg_id: String,
    pub msg_type: String,
    pub n: Vec<String>,
}

/// A `topology` message: the assembled topology table, reported back.
pub struct TopologyMessage {
    pub sender_id: String,
    pub receiver_id: String,
    pub msg_id: String,
    pub msg_type: String,
    pub topology: Topology,
}

/// The alphabet message ids are drawn from.
pub open spec fn id_charset() -> Seq<char> {
    "abcdefghijklmnopqrstuvwxyzABCDEFGHIJKLMNOPQRSTUVWXYZ0123456789"@
}

/// Every character of `s` comes from the id alphabet.
pub open spec fn id_chars(s: Seq<char>) -> bool {
    forall|i: int| 0 <= i < s.len() ==> id_charset().contains(#[trigger] s[i])
}

/// Alphanumeric text needs no JSON escaping and contains no braces, so it is
/// safe both for the codec and for the framing heuristic.
pub proof fn lemma_id_chars_clean(s: Seq<char>)
    requires
        id_chars(s),
    ensures
        text_ok(s),
        brace_free(s),
{
    reveal_strlit("abcdefghijklmnopqrstuvwxyzABCDEFGHIJKLMNOPQRSTUVWXYZ0123456789");
    assert forall|i: int| 0 <= i < s.len() implies s[i] != '"' && s[i] != '\\' && s[i] != '{'
        && s[i] != '}' by {
        let j = choose|j: int| 0 <= j < id_charset().len() && id_charset()[j] == s[i];
    }
}

/// Relies on `rand::thread_rng` and `rand::Rng::gen_range`: a draw from a
/// nonempty half-open range lies inside it.
#[verifier::external_body]
fn random_below(bound: usize) -> (r: usize)
    requires
        bound > 0,
    ensures
        r < bound,
{
    <rand::rngs::ThreadRng as rand::Rng>::gen_range(&mut rand::thread_rng(), 0..bound)
}

/// A fresh ten-character message id over the id alphabet.
pub fn random_id() -> (r: String)
    ensures
        r@.len() == 10,
        id_chars(r@),
{
    let charset = "abcdefghijklmnopqrstuvwxyzABCDEFGHIJKLMNOPQRSTUVWXYZ0123456789";
    proof {
        reveal_strlit("abcdefghijklmnopqrstuvwxyzABCDEFGHIJKLMNOPQRSTUVWXYZ0123456789");
    }
    assert(charset@.len() == 62);
    let mut out = String::new();
    let mut k: usize = 0;
    while k < 10
        invariant
            k <= 10,
            out@.len() == k,
            charset@ == id_charset(),
            charset@.len() == 62,
            id_chars(out@),
        decreases 10 - k,
    {
        let idx = random_below(62);
        let ch = charset.substring_char(idx, idx + 1);
        out.append(ch);
        proof {
            assert(ch@[0] == charset@[idx as int]);
            assert(id_charset().contains(charset@[idx as int]));
            assert(id_chars(out@));
        }
        k += 1;
    }
    out
}

/// Builds a message of the given tag with a fresh random id and no payload.
pub fn make_message(msg_type: &str, sender_id: &str, receiver_id: &str) -> (m: Message)
    ensures
        m@.msg_type == msg_type@,
        m@.sender_id == sender_id@,
        m@.receiver_id == receiver_id@,
        m@.n is None,
        m@.topology is None,
        message_tagged(m@),
        m@.msg_id.len() == 10,
        id_chars(m@.msg_id),
        text_ok(m@.msg_id),
        brace_free(m@.msg_id),
{
    let m = Message {
        sender_id: String::from_str(sender_id),
        receiver_id: String::from_str(receiver_id),
        msg_id: random_id(),
        msg_type: String::from_str(msg_type),
        n: None,
        topology: None,
    };
    proof {
        lemma_id_chars_clean(m.msg_id@);
    }
    m
}

} // verus!
