//! The message codec: the protocol's JSON wire grammar, written out as the
//! library's own logic.
//!
//! A message is one JSON object whose values are strings, arrays of strings,
//! one-level objects mapping strings to arrays of strings, or `null`.
//! The spec-level parser (`sp_*`) is the grammar's definition; the executable
//! parser returns exactly what the spec parser says, and the encoder's output
//! is pinned character by character.  String values are taken verbatim up to
//! the next quote: the protocol restricts ids to alphanumeric text, so no
//! escape sequences are handled (a documented constraint on the id alphabet).

use vstd::prelude::*;

use crate::messages::Message;
use crate::messages::MessageV;
use crate::messages::InitMessage;
use crate::messages::QueryMessage;
use crate::messages::NeighborsResponse;
use crate::messages::TopologyMessage;
use crate::messages::Topology;
use crate::messages::TopologyEntry;
use crate::text::is_ws_char;
use crate::text::ws_char;
use crate::text::text_ok;
use crate::text::all_text_ok;

verus! {

// ---------------------------------------------------------------------------
// Spec-level parser
// ---------------------------------------------------------------------------

/// First position at or after `i` holding a non-whitespace character.
pub open spec fn sp_ws(s: Seq<char>, i: int) -> int
    decreases s.len() - i,
{
    if 0 <= i < s.len() && is_ws_char(s[i]) {
        sp_ws(s, i + 1)
    } else {
        i
    }
}

/// Position of the first quote at or after `i`.
pub open spec fn sp_find_quote(s: Seq<char>, i: int) -> Option<int>
    decreases s.len() - i,
{
    if !(0 <= i < s.len()) {
        None
    } else if s[i] == '"' {
        Some(i)
    } else {
        sp_find_quote(s, i + 1)
    }
}

/// A JSON string literal: leading whitespace, a quote, verbatim content up to
/// the next quote.  Returns the content and the position after the closing
/// quote.
pub open spec fn sp_string(s: Seq<char>, i: int) -> Option<(Seq<char>, int)> {
    let j = sp_ws(s, i);
    if j < s.len() && s[j] == '"' {
        match sp_find_quote(s, j + 1) {
            Some(e) => Some((s.subrange(j + 1, e), e + 1)),
            None => None,
        }
    } else {
        None
    }
}

/// The four characters of `null` stand at `i`.
pub open spec fn sp_null_at(s: Seq<char>, i: int) -> bool {
    &&& i + 4 <= s.len()
    &&& 0 <= i
    &&& s[i] == 'n'
    &&& s[i + 1] == 'u'
    &&& s[i + 2] == 'l'
    &&& s[i + 3] == 'l'
}

/// One or more comma-separated string elements followed by a closing bracket.
pub open spec fn sp_elems(s: Seq<char>, i: int, fuel: nat) -> Option<(Seq<Seq<char>>, int)>
    decreases fuel,
{
    if fuel == 0 {
        None
    } else {
        match sp_string(s, i) {
            None => None,
            Some((t, j)) => {
                let j2 = sp_ws(s, j);
                if j2 < s.len() && s[j2] == ',' {
                    match sp_elems(s, j2 + 1, (fuel - 1) as nat) {
                        Some((v, j3)) => Some((seq![t] + v, j3)),
                        None => None,
                    }
                } else if j2 < s.len() && s[j2] == ']' {
                    Some((seq![t], j2 + 1))
                } else {
                    None
                }
            },
        }
    }
}

/// A JSON array of strings.
pub open spec fn sp_array(s: Seq<char>, i: int, fuel: nat) -> Option<(Seq<Seq<char>>, int)> {
    let j = sp_ws(s, i);
    if j < s.len() && s[j] == '[' {
        let j2 = sp_ws(s, j + 1);
        if j2 < s.len() && s[j2] == ']' {
            Some((Seq::empty(), j2 + 1))
        } else {
            sp_elems(s, j + 1, fuel)
        }
    } else {
        None
    }
}

/// One or more `"key": [..]` pairs followed by a closing brace.
pub open spec fn sp_pairs(s: Seq<char>, i: int, fuel: nat) -> Option<
    (Seq<(Seq<char>, Seq<Seq<char>>)>, int),
>
    decreases fuel,
{
    if fuel == 0 {
        None
    } else {
        match sp_string(s, i) {
            None => None,
            Some((k, j)) => {
                let j2 = sp_ws(s, j);
                if j2 < s.len() && s[j2] == ':' {
                    match sp_array(s, j2 + 1, fuel) {
                        None => None,
                        Some((v, j3)) => {
                            let j4 = sp_ws(s, j3);
                            if j4 < s.len() && s[j4] == ',' {
                                match sp_pairs(s, j4 + 1, (fuel - 1) as nat) {
                                    Some((ps, j5)) => Some((seq![(k, v)] + ps, j5)),
                                    None => None,
                                }
                            } else if j4 < s.len() && s[j4] == '}' {
                                Some((seq![(k, v)], j4 + 1))
                            } else {
                                None
                            }
                        },
                    }
                } else {
                    None
                }
            },
        }
    }
}

/// A one-level JSON object mapping strings to arrays of strings.
pub open spec fn sp_topo(s: Seq<char>, i: int, fuel: nat) -> Option<
    (Seq<(Seq<char>, Seq<Seq<char>>)>, int),
> {
    let j = sp_ws(s, i);
    if j < s.len() && s[j] == '{' {
        let j2 = sp_ws(s, j + 1);
        if j2 < s.len() && s[j2] == '}' {
            Some((Seq::empty(), j2 + 1))
        } else {
            sp_pairs(s, j + 1, fuel)
        }
    } else {
        None
    }
}

/// The fields gathered while walking a message object.
pub ghost struct PartialV {
    pub sender_id: Option<Seq<char>>,
    pub receiver_id: Option<Seq<char>>,
    pub msg_id: Option<Seq<char>>,
    pub msg_type: Option<Seq<char>>,
    pub n: Option<Seq<Seq<char>>>,
    pub topology: Option<Seq<(Seq<char>, Seq<Seq<char>>)>>,
}

pub open spec fn empty_partial() -> PartialV {
    PartialV {
        sender_id: None,
        receiver_id: None,
        msg_id: None,
        msg_type: None,
        n: None,
        topology: None,
    }
}

/// One or more `"key": value` members followed by the object's closing brace.
/// The value's shape is fixed by the key; an unknown key fails the parse.
/// `n` and `topology` also accept `null`, which leaves the field absent.
pub open spec fn sp_members(s: Seq<char>, i: int, acc: PartialV, fuel: nat) -> Option<
    (PartialV, int),
>
    decreases fuel,
{
    if fuel == 0 {
        None
    } else {
        match sp_string(s, i) {
            None => None,
            Some((k, j)) => {
                let j2 = sp_ws(s, j);
                if j2 < s.len() && s[j2] == ':' {
                    let jv = j2 + 1;
                    let step: Option<(PartialV, int)> = if k == "sender_id"@ {
                        match sp_string(s, jv) {
                            Some((t, j4)) => Some((PartialV { sender_id: Some(t), ..acc }, j4)),
                            None => None,
                        }
                    } else if k == "receiver_id"@ {
                        match sp_string(s, jv) {
                            Some((t, j4)) => Some((PartialV { receiver_id: Some(t), ..acc }, j4)),
                            None => None,
                        }
                    } else if k == "msg_id"@ {
                        match sp_string(s, jv) {
                            Some((t, j4)) => Some((PartialV { msg_id: Some(t), ..acc }, j4)),
                            None => None,
                        }
                    } else if k == "type"@ {
                        match sp_string(s, jv) {
                            Some((t, j4)) => Some((PartialV { msg_type: Some(t), ..acc }, j4)),
                            None => None,
                        }
                    } else if k == "n"@ {
                        let jn = sp_ws(s, jv);
                        if sp_null_at(s, jn) {
                            Some((acc, jn + 4))
                        } else {
                            match sp_array(s, jv, fuel) {
                                Some((v, j4)) => Some((PartialV { n: Some(v), ..acc }, j4)),
                                None => None,
                            }
                        }
                    } else if k == "topology"@ {
                        let jn = sp_ws(s, jv);
                        if sp_null_at(s, jn) {
                            Some((acc, jn + 4))
                        } else {
                            match sp_topo(s, jv, fuel) {
                                Some((ps, j4)) => Some((PartialV { topology: Some(ps), ..acc }, j4)),
                                None => None,
                            }
                        }
                    } else {
                        None
                    };
                    match step {
                        None => None,
                        Some((acc2, j4)) => {
                            let j5 = sp_ws(s, j4);
                            if j5 < s.len() && s[j5] == ',' {
                                sp_members(s, j5 + 1, acc2, (fuel - 1) as nat)
                            } else if j5 < s.len() && s[j5] == '}' {
                                Some((acc2, j5 + 1))
                            } else {
                                None
                            }
                        },
                    }
                } else {
                    None
                }
            },
        }
    }
}

/// What decoding a complete buffer yields: a message exactly when the buffer
/// is one message object (with the four required fields) and nothing but
/// whitespace around it.  The walk's fuel is the buffer's length, which can
/// never run out: every member and every array element consumes at least one
/// character.
pub open spec fn sp_message(s: Seq<char>) -> Option<MessageV> {
    let i = sp_ws(s, 0);
    if i < s.len() && s[i] == '{' {
        let j = sp_ws(s, i + 1);
        if j < s.len() && s[j] == '}' {
            None  // an empty object misses every required field
        } else {
            match sp_members(s, i + 1, empty_partial(), s.len() as nat) {
                None => None,
                Some((acc, j2)) => {
                    if sp_ws(s, j2) == s.len() {
                        match (acc.sender_id, acc.receiver_id, acc.msg_id, acc.msg_type) {
                            (Some(a), Some(b), Some(c), Some(d)) => Some(
                                MessageV {
                                    sender_id: a,
                                    receiver_id: b,
                                    msg_id: c,
                                    msg_type: d,
                                    n: acc.n,
                                    topology: acc.topology,
                                },
                            ),
                            _ => None,
                        }
                    } else {
                        None
                    }
                },
            }
        }
    } else {
        None
    }
}

// ---------------------------------------------------------------------------
// Executable parser
// ---------------------------------------------------------------------------

fn x_ws(s: &str, i: usize) -> (r: usize)
    requires
        i <= s@.len(),
    ensures
        r == sp_ws(s@, i as int),
        i <= r <= s@.len(),
    decreases s@.len() - i,
{
    if i < s.unicode_len() && ws_char(s.get_char(i)) {
        x_ws(s, i + 1)
    } else {
        i
    }
}

fn x_find_quote(s: &str, i: usize) -> (r: Option<usize>)
    requires
        i <= s@.len(),
    ensures
        match r {
            Some(e) => sp_find_quote(s@, i as int) == Some(e as int) && i <= e < s@.len(),
            None => sp_find_quote(s@, i as int) is None,
        },
    decreases s@.len() - i,
{
    if i >= s.unicode_len() {
        None
    } else if s.get_char(i) == '"' {
        Some(i)
    } else {
        x_find_quote(s, i + 1)
    }
}

fn x_string(s: &str, i: usize) -> (r: Option<(String, usize)>)
    requires
        i <= s@.len(),
    ensures
        match r {
            Some((t, j)) => sp_string(s@, i as int) == Some((t@, j as int)) && i < j <= s@.len(),
            None => sp_string(s@, i as int) is None,
        },
{
    let j = x_ws(s, i);
    if j < s.unicode_len() && s.get_char(j) == '"' {
        match x_find_quote(s, j + 1) {
            Some(e) => {
                let content = s.substring_char(j + 1, e).to_owned();
                Some((content, e + 1))
            },
            None => None,
        }
    } else {
        None
    }
}

fn x_null_at(s: &str, i: usize) -> (r: bool)
    requires
        i <= s@.len(),
    ensures
        r == sp_null_at(s@, i as int),
{
    let len = s.unicode_len();
    if len >= 4 && i <= len - 4 {
        s.get_char(i) == 'n' && s.get_char(i + 1) == 'u' && s.get_char(i + 2) == 'l' && s.get_char(
            i + 3,
        ) == 'l'
    } else {
        false
    }
}

fn x_elems(s: &str, i: usize, fuel: usize) -> (r: Option<(Vec<String>, usize)>)
    requires
        i <= s@.len(),
    ensures
        match r {
            Some((v, j)) => sp_elems(s@, i as int, fuel as nat) == Some((v.deep_view(), j as int))
                && j <= s@.len(),
            None => sp_elems(s@, i as int, fuel as nat) is None,
        },
    decreases fuel,
{
    if fuel == 0 {
        None
    } else {
        match x_string(s, i) {
            None => None,
            Some((t, j)) => {
                let j2 = x_ws(s, j);
                if j2 < s.unicode_len() && s.get_char(j2) == ',' {
                    match x_elems(s, j2 + 1, fuel - 1) {
                        Some((mut v, j3)) => {
                            let ghost rest = v.deep_view();
                            v.insert(0, t);
                            proof {
                                assert(v.deep_view() =~= seq![t@] + rest);
                            }
                            Some((v, j3))
                        },
                        None => None,
                    }
                } else if j2 < s.unicode_len() && s.get_char(j2) == ']' {
                    let mut v: Vec<String> = Vec::new();
                    v.push(t);
                    proof {
                        assert(v.deep_view() =~= seq![t@]);
                    }
                    Some((v, j2 + 1))
                } else {
                    None
                }
            },
        }
    }
}

fn x_array(s: &str, i: usize, fuel: usize) -> (r: Option<(Vec<String>, usize)>)
    requires
        i <= s@.len(),
    ensures
        match r {
            Some((v, j)) => sp_array(s@, i as int, fuel as nat) == Some((v.deep_view(), j as int))
                && j <= s@.len(),
            None => sp_array(s@, i as int, fuel as nat) is None,
        },
{
    let j = x_ws(s, i);
    if j < s.unicode_len() && s.get_char(j) == '[' {
        let j2 = x_ws(s, j + 1);
        if j2 < s.unicode_len() && s.get_char(j2) == ']' {
            let v: Vec<String> = Vec::new();
            proof {
                assert(v.deep_view() =~= Seq::<Seq<char>>::empty());
            }
            Some((v, j2 + 1))
        } else {
            x_elems(s, j + 1, fuel)
        }
    } else {
        None
    }
}

fn x_pairs(s: &str, i: usize, fuel: usize) -> (r: Option<(Topology, usize)>)
    requires
        i <= s@.len(),
    ensures
        match r {
            Some((t, j)) => sp_pairs(s@, i as int, fuel as nat) == Some((t@, j as int)) && j
                <= s@.len(),
            None => sp_pairs(s@, i as int, fuel as nat) is None,
        },
    decreases fuel,
{
    if fuel == 0 {
        None
    } else {
        match x_string(s, i) {
            None => None,
            Some((k, j)) => {
                let j2 = x_ws(s, j);
                if j2 < s.unicode_len() && s.get_char(j2) == ':' {
                    match x_array(s, j2 + 1, fuel) {
                        None => None,
                        Some((v, j3)) => {
                            let j4 = x_ws(s, j3);
                            let ghost pair = (k@, v.deep_view());
                            if j4 < s.unicode_len() && s.get_char(j4) == ',' {
                                match x_pairs(s, j4 + 1, fuel - 1) {
                                    Some((mut t, j5)) => {
                                        let ghost rest = t@;
                                        t.entries.insert(0, TopologyEntry { node: k, neighbors: v });
                                        proof {
                                            assert(t@ =~= seq![pair] + rest);
                                        }
                                        Some((t, j5))
                                    },
                                    None => None,
                                }
                            } else if j4 < s.unicode_len() && s.get_char(j4) == '}' {
                                let mut t = Topology::new();
                                t.insert(k, v);
                                proof {
                                    assert(t@ =~= seq![pair]);
                                }
                                Some((t, j4 + 1))
                            } else {
                                None
                            }
                        },
                    }
                } else {
                    None
                }
            },
        }
    }
}

fn x_topo(s: &str, i: usize, fuel: usize) -> (r: Option<(Topology, usize)>)
    requires
        i <= s@.len(),
    ensures
        match r {
            Some((t, j)) => sp_topo(s@, i as int, fuel as nat) == Some((t@, j as int)) && j
                <= s@.len(),
            None => sp_topo(s@, i as int, fuel as nat) is None,
        },
{
    let j = x_ws(s, i);
    if j < s.unicode_len() && s.get_char(j) == '{' {
        let j2 = x_ws(s, j + 1);
        if j2 < s.unicode_len() && s.get_char(j2) == '}' {
            let t = Topology::new();
            Some((t, j2 + 1))
        } else {
            x_pairs(s, j + 1, fuel)
        }
    } else {
        None
    }
}

struct Partial {
    sender_id: Option<String>,
    receiver_id: Option<String>,
    msg_id: Option<String>,
    msg_type: Option<String>,
    n: Option<Vec<String>>,
    topology: Option<Topology>,
}

impl View for Partial {
    type V = PartialV;

    closed spec fn view(&self) -> PartialV {
        PartialV {
            sender_id: match self.sender_id {
                Some(ref t) => Some(t@),
                None => None,
            },
            receiver_id: match self.receiver_id {
                Some(ref t) => Some(t@),
                None => None,
            },
            msg_id: match self.msg_id {
                Some(ref t) => Some(t@),
                None => None,
            },
            msg_type: match self.msg_type {
                Some(ref t) => Some(t@),
                None => None,
            },
            n: match self.n {
                Some(ref v) => Some(v.deep_view()),
                None => None,
            },
            topology: match self.topology {
                Some(ref t) => Some(t@),
                None => None,
            },
        }
    }
}

fn key_is(k: &String, lit: &str) -> (r: bool)
    ensures
        r == (k@ == lit@),
{
    let s = String::from_str(lit);
    *k == s
}

fn x_members(s: &str, i: usize, acc: Partial, fuel: usize) -> (r: Option<(Partial, usize)>)
    requires
        i <= s@.len(),
    ensures
        match r {
            Some((acc2, j)) => sp_members(s@, i as int, acc@, fuel as nat) == Some(
                (acc2@, j as int),
            ) && j <= s@.len(),
            None => sp_members(s@, i as int, acc@, fuel as nat) is None,
        },
    decreases fuel,
{
    if fuel == 0 {
        None
    } else {
        match x_string(s, i) {
            None => None,
            Some((k, j)) => {
                let j2 = x_ws(s, j);
                if j2 < s.unicode_len() && s.get_char(j2) == ':' {
                    let jv = j2 + 1;
                    let step: Option<(Partial, usize)> = if key_is(&k, "sender_id") {
                        match x_string(s, jv) {
                            Some((t, j4)) => Some((Partial { sender_id: Some(t), ..acc }, j4)),
                            None => None,
                        }
                    } else if key_is(&k, "receiver_id") {
                        match x_string(s, jv) {
                            Some((t, j4)) => Some((Partial { receiver_id: Some(t), ..acc }, j4)),
                            None => None,
                        }
                    } else if key_is(&k, "msg_id") {
                        match x_string(s, jv) {
                            Some((t, j4)) => Some((Partial { msg_id: Some(t), ..acc }, j4)),
                            None => None,
                        }
                    } else if key_is(&k, "type") {
                        match x_string(s, jv) {
                            Some((t, j4)) => Some((Partial { msg_type: Some(t), ..acc }, j4)),
                            None => None,
                        }
                    } else if key_is(&k, "n") {
                        let jn = x_ws(s, jv);
                        if x_null_at(s, jn) {
                            Some((acc, jn + 4))
                        } else {
                            match x_array(s, jv, fuel) {
                                Some((v, j4)) => Some((Partial { n: Some(v), ..acc }, j4)),
                                None => None,
                            }
                        }
                    } else if key_is(&k, "topology") {
                        let jn = x_ws(s, jv);
                        if x_null_at(s, jn) {
                            Some((acc, jn + 4))
                        } else {
                            match x_topo(s, jv, fuel) {
                                Some((t, j4)) => Some((Partial { topology: Some(t), ..acc }, j4)),
                                None => None,
                            }
                        }
                    } else {
                        None
                    };
                    match step {
                        None => None,
                        Some((acc2, j4)) => {
                            let j5 = x_ws(s, j4);
                            if j5 < s.unicode_len() && s.get_char(j5) == ',' {
                                x_members(s, j5 + 1, acc2, fuel - 1)
                            } else if j5 < s.unicode_len() && s.get_char(j5) == '}' {
                                Some((acc2, j5 + 1))
                            } else {
                                None
                            }
                        },
                    }
                } else {
                    None
                }
            },
        }
    }
}

/// Decodes one complete message from `s`.  Returns `Some` exactly when the
/// spec-level grammar accepts the whole buffer.
pub fn decode_message(s: &str) -> (r: Option<Message>)
    ensures
        match r {
            Some(m) => sp_message(s@) == Some(m@),
            None => sp_message(s@) is None,
        },
{
    let len = s.unicode_len();
    let i = x_ws(s, 0);
    if i < len && s.get_char(i) == '{' {
        let j = x_ws(s, i + 1);
        if j < len && s.get_char(j) == '}' {
            None
        } else {
            let acc = Partial {
                sender_id: None,
                receiver_id: None,
                msg_id: None,
                msg_type: None,
                n: None,
                topology: None,
            };
            match x_members(s, i + 1, acc, len) {
                None => None,
                Some((acc2, j2)) => {
                    if x_ws(s, j2) == len {
                        match acc2 {
                            Partial {
                                sender_id: Some(a),
                                receiver_id: Some(b),
                                msg_id: Some(c),
                                msg_type: Some(d),
                                n,
                                topology,
                            } => Some(
                                Message {
                                    sender_id: a,
                                    receiver_id: b,
                                    msg_id: c,
                                    msg_type: d,
                                    n,
                                    topology,
                                },
                            ),
                            _ => None,
                        }
                    } else {
                        None
                    }
                },
            }
        }
    } else {
        None
    }
}

// ---------------------------------------------------------------------------
// Encoder
// ---------------------------------------------------------------------------

/// A quoted string literal.
pub open spec fn enc_str(t: Seq<char>) -> Seq<char> {
    "\""@ + t + "\""@
}

/// The elements of an array from index `i` on, comma separated.
pub open spec fn enc_elems(v: Seq<Seq<char>>, i: int) -> Seq<char>
    decreases v.len() - i,
{
    if !(0 <= i < v.len()) {
        Seq::empty()
    } else if i + 1 < v.len() {
        enc_str(v[i]) + ","@ + enc_elems(v, i + 1)
    } else {
        enc_str(v[i])
    }
}

pub open spec fn enc_array(v: Seq<Seq<char>>) -> Seq<char> {
    "["@ + enc_elems(v, 0) + "]"@
}

/// The pairs of a topology object from index `i` on, comma separated.
pub open spec fn enc_pairs(ps: Seq<(Seq<char>, Seq<Seq<char>>)>, i: int) -> Seq<char>
    decreases ps.len() - i,
{
    if !(0 <= i < ps.len()) {
        Seq::empty()
    } else if i + 1 < ps.len() {
        enc_str(ps[i].0) + ":"@ + enc_array(ps[i].1) + ","@ + enc_pairs(ps, i + 1)
    } else {
        enc_str(ps[i].0) + ":"@ + enc_array(ps[i].1)
    }
}

pub open spec fn enc_topo(ps: Seq<(Seq<char>, Seq<Seq<char>>)>) -> Seq<char> {
    "{"@ + enc_pairs(ps, 0) + "}"@
}

/// The canonical wire text of a message: the four required fields in fixed
/// order, then the payload field when present, with no whitespace.
pub open spec fn enc_message(m: MessageV) -> Seq<char> {
    "{"@ + enc_str("sender_id"@) + ":"@ + enc_str(m.sender_id) + ","@ + enc_str("receiver_id"@)
        + ":"@ + enc_str(m.receiver_id) + ","@ + enc_str("msg_id"@) + ":"@ + enc_str(m.msg_id)
        + ","@ + enc_str("type"@) + ":"@ + enc_str(m.msg_type) + (match m.n {
        Some(v) => ","@ + enc_str("n"@) + ":"@ + enc_array(v),
        None => Seq::<char>::empty(),
    }) + (match m.topology {
        Some(ps) => ","@ + enc_str("topology"@) + ":"@ + enc_topo(ps),
        None => Seq::<char>::empty(),
    }) + "}"@
}

/// Every string of the pairs is clean literal text.
pub open spec fn pairs_text_ok(ps: Seq<(Seq<char>, Seq<Seq<char>>)>) -> bool {
    forall|i: int|
        0 <= i < ps.len() ==> text_ok(#[trigger] ps[i].0) && all_text_ok(ps[i].1)
}

/// The message's strings can stand unescaped inside JSON string literals.
/// Alphanumeric ids satisfy this by construction.
pub open spec fn encodable(m: MessageV) -> bool {
    &&& text_ok(m.sender_id)
    &&& text_ok(m.receiver_id)
    &&& text_ok(m.msg_id)
    &&& text_ok(m.msg_type)
    &&& match m.n {
        Some(v) => all_text_ok(v),
        None => true,
    }
    &&& match m.topology {
        Some(ps) => pairs_text_ok(ps),
        None => true,
    }
}

fn append_enc_str(out: &mut String, t: &str)
    ensures
        final(out)@ == old(out)@ + enc_str(t@),
{
    out.append("\"");
    out.append(t);
    out.append("\"");
    proof {
        assert(out@ =~= old(out)@ + enc_str(t@));
    }
}

fn append_elems(out: &mut String, v: &Vec<String>, i: usize)
    requires
        i <= v.len(),
    ensures
        final(out)@ == old(out)@ + enc_elems(v.deep_view(), i as int),
    decreases v.len() - i,
{
    if i < v.len() {
        append_enc_str(out, v[i].as_str());
        if i + 1 < v.len() {
            out.append(",");
            append_elems(out, v, i + 1);
            proof {
                assert(v.deep_view()[i as int] == v[i as int]@);
                assert(out@ =~= old(out)@ + enc_elems(v.deep_view(), i as int));
            }
        } else {
            proof {
                assert(v.deep_view()[i as int] == v[i as int]@);
                assert(out@ =~= old(out)@ + enc_elems(v.deep_view(), i as int));
            }
        }
    } else {
        proof {
            assert(out@ =~= old(out)@ + enc_elems(v.deep_view(), i as int));
        }
    }
}

fn append_array(out: &mut String, v: &Vec<String>)
    ensures
        final(out)@ == old(out)@ + enc_array(v.deep_view()),
{
    out.append("[");
    append_elems(out, v, 0);
    out.append("]");
    proof {
        assert(out@ =~= old(out)@ + enc_array(v.deep_view()));
    }
}

fn append_pairs(out: &mut String, t: &Topology, i: usize)
    requires
        i <= t.entries.len(),
    ensures
        final(out)@ == old(out)@ + enc_pairs(t@, i as int),
    decreases t.entries.len() - i,
{
    if i < t.entries.len() {
        append_enc_str(out, t.entries[i].node.as_str());
        out.append(":");
        append_array(out, &t.entries[i].neighbors);
        proof {
            assert(t@[i as int] == t.entries[i as int]@);
        }
        if i + 1 < t.entries.len() {
            out.append(",");
            append_pairs(out, t, i + 1);
            proof {
                assert(out@ =~= old(out)@ + enc_pairs(t@, i as int));
            }
        } else {
            proof {
                assert(out@ =~= old(out)@ + enc_pairs(t@, i as int));
            }
        }
    } else {
        proof {
            assert(out@ =~= old(out)@ + enc_pairs(t@, i as int));
        }
    }
}

/// Encodes a message as its canonical wire text.
#[verifier::rlimit(100)]
pub fn encode_message(m: &Message) -> (r: String)
    ensures
        r@ == enc_message(m@),
{
    let mut out = String::new();
    out.append("{");
    append_enc_str(&mut out, "sender_id");
    out.append(":");
    append_enc_str(&mut out, m.sender_id.as_str());
    out.append(",");
    append_enc_str(&mut out, "receiver_id");
    out.append(":");
    append_enc_str(&mut out, m.receiver_id.as_str());
    out.append(",");
    append_enc_str(&mut out, "msg_id");
    out.append(":");
    append_enc_str(&mut out, m.msg_id.as_str());
    out.append(",");
    append_enc_str(&mut out, "type");
    out.append(":");
    append_enc_str(&mut out, m.msg_type.as_str());
    match &m.n {
        Some(v) => {
            out.append(",");
            append_enc_str(&mut out, "n");
            out.append(":");
            append_array(&mut out, v);
        },
        None => {},
    }
    match &m.topology {
        Some(t) => {
            out.append(",");
            append_enc_str(&mut out, "topology");
            out.append(":");
            out.append("{");
            append_pairs(&mut out, t, 0);
            out.append("}");
        },
        None => {},
    }
    out.append("}");
    proof {
        assert(out@ =~= enc_message(m@));
    }
    out
}

// ---------------------------------------------------------------------------
// The four typed message shapes
// ---------------------------------------------------------------------------

fn clone_ids(v: &Vec<String>) -> (r: Vec<String>)
    ensures
        r.deep_view() == v.deep_view(),
{
    let ghost nv = v.deep_view();
    proof {
        assert(nv == Seq::new(v@.len(), |i: int| v@[i].deep_view()));
    }
    let mut out: Vec<String> = Vec::new();
    let mut k: usize = 0;
    while k < v.len()
        invariant
            k <= v.len(),
            nv == v.deep_view(),
            nv.len() == v@.len(),
            out@.len() == k as int,
            forall|j: int| 0 <= j < k ==> out@[j]@ == nv[j],
        decreases v.len() - k,
    {
        let item = v[k].clone();
        proof {
            assert(nv == Seq::new(v@.len(), |i: int| v@[i].deep_view()));
            assert(nv[k as int] == v@[k as int]@);
        }
        out.push(item);
        k += 1;
    }
    proof {
        assert(out.deep_view() =~= nv) by {
            assert(out.deep_view() == Seq::new(out@.len(), |i: int| out@[i].deep_view()));
        }
    }
    out
}

fn clone_topology(t: &Topology) -> (r: Topology)
    ensures
        r@ == t@,
{
    let mut out = Topology::new();
    let mut k: usize = 0;
    while k < t.entries.len()
        invariant
            k <= t.entries.len(),
            out@ == t@.subrange(0, k as int),
        decreases t.entries.len() - k,
    {
        let node = t.entries[k].node.clone();
        let neighbors = clone_ids(&t.entries[k].neighbors);
        proof {
            assert(t@[k as int] == t.entries[k as int]@);
        }
        out.insert(node, neighbors);
        proof {
            assert(out@ =~= t@.subrange(0, k as int + 1));
        }
        k += 1;
    }
    proof {
        assert(out@ =~= t@);
    }
    out
}

impl InitMessage {
    /// The message this record stands for on the wire.
    pub open spec fn as_message_v(&self) -> MessageV {
        MessageV {
            sender_id: self.sender_id@,
            receiver_id: self.receiver_id@,
            msg_id: self.msg_id@,
            msg_type: self.msg_type@,
            n: None,
            topology: None,
        }
    }

    pub fn encode(&self) -> (r: String)
        ensures
            r@ == enc_message(self.as_message_v()),
    {
        let m = Message {
            sender_id: self.sender_id.clone(),
            receiver_id: self.receiver_id.clone(),
            msg_id: self.msg_id.clone(),
            msg_type: self.msg_type.clone(),
            n: None,
            topology: None,
        };
        encode_message(&m)
    }

    pub fn decode(s: &str) -> (r: Option<InitMessage>)
        ensures
            match r {
                Some(im) => sp_message(s@) matches Some(mv) && mv.sender_id == im.sender_id@
                    && mv.receiver_id == im.receiver_id@ && mv.msg_id == im.msg_id@
                    && mv.msg_type == im.msg_type@,
                None => sp_message(s@) is None,
            },
    {
        match decode_message(s) {
            Some(m) => Some(
                InitMessage {
                    sender_id: m.sender_id,
                    receiver_id: m.receiver_id,
                    msg_id: m.msg_id,
                    msg_type: m.msg_type,
                },
            ),
            None => None,
        }
    }
}

impl QueryMessage {
    /// The message this record stands for on the wire.
    pub open spec fn as_message_v(&self) -> MessageV {
        MessageV {
            sender_id: self.sender_id@,
            receiver_id: self.receiver_id@,
            msg_id: self.msg_id@,
            msg_type: self.msg_type@,
            n: None,
            topology: None,
        }
    }

    pub fn encode(&self) -> (r: String)
        ensures
            r@ == enc_message(self.as_message_v()),
    {
        let m = Message {
            sender_id: self.sender_id.clone(),
            receiver_id: self.receiver_id.clone(),
            msg_id: self.msg_id.clone(),
            msg_type: self.msg_type.clone(),
            n: None,
            topology: None,
        };
        encode_message(&m)
    }

    pub fn decode(s: &str) -> (r: Option<QueryMessage>)
        ensures
            match r {
                Some(qm) => sp_message(s@) matches Some(mv) && mv.sender_id == qm.sender_id@
                    && mv.receiver_id == qm.receiver_id@ && mv.msg_id == qm.msg_id@
                    && mv.msg_type == qm.msg_type@,
                None => sp_message(s@) is None,
            },
    {
        match decode_message(s) {
            Some(m) => Some(
                QueryMessage {
                    sender_id: m.sender_id,
                    receiver_id: m.receiver_id,
                    msg_id: m.msg_id,
                    msg_type: m.msg_type,
                },
            ),
            None => None,
        }
    }
}

impl NeighborsResponse {
    /// The message this record stands for on the wire.
    pub open spec fn as_message_v(&self) -> MessageV {
        MessageV {
            sender_id: self.sender_id@,
            receiver_id: self.receiver_id@,
            msg_id: self.msg_id@,
            msg_type: self.msg_type@,
            n: Some(self.n.deep_view()),
            topology: None,
        }
    }

    pub fn encode(&self) -> (r: String)
        ensures
            r@ == enc_message(self.as_message_v()),
    {
        let m = Message {
            sender_id: self.sender_id.clone(),
            receiver_id: self.receiver_id.clone(),
            msg_id: self.msg_id.clone(),
            msg_type: self.msg_type.clone(),
            n: Some(clone_ids(&self.n)),
            topology: None,
        };
        encode_message(&m)
    }

    /// Decodes a message carrying a neighbor list; one without the list is
    /// refused.
    pub fn decode(s: &str) -> (r: Option<NeighborsResponse>)
        ensures
            match r {
                Some(nr) => sp_message(s@) matches Some(mv) && mv.sender_id == nr.sender_id@
                    && mv.receiver_id == nr.receiver_id@ && mv.msg_id == nr.msg_id@
                    && mv.msg_type == nr.msg_type@ && mv.n == Some(nr.n.deep_view()),
                None => sp_message(s@) matches Some(mv) ==> mv.n is None,
            },
    {
        match decode_message(s) {
            Some(m) => match m.n {
                Some(n) => Some(
                    NeighborsResponse {
                        sender_id: m.sender_id,
                        receiver_id: m.receiver_id,
                        msg_id: m.msg_id,
                        msg_type: m.msg_type,
                        n,
                    },
                ),
                None => None,
            },
            None => None,
        }
    }
}

impl TopologyMessage {
    /// The message this record stands for on the wire.
    pub open spec fn as_message_v(&self) -> MessageV {
        MessageV {
            sender_id: self.sender_id@,
            receiver_id: self.receiver_id@,
            msg_id: self.msg_id@,
            msg_type: self.msg_type@,
            n: None,
            topology: Some(self.topology@),
        }
    }

    pub fn encode(&self) -> (r: String)
        ensures
            r@ == enc_message(self.as_message_v()),
    {
        let m = Message {
            sender_id: self.sender_id.clone(),
            receiver_id: self.receiver_id.clone(),
            msg_id: self.msg_id.clone(),
            msg_type: self.msg_type.clone(),
            n: None,
            topology: Some(clone_topology(&self.topology)),
        };
        encode_message(&m)
    }

    /// Decodes a message carrying a topology table; one without the table is
    /// refused.
    pub fn decode(s: &str) -> (r: Option<TopologyMessage>)
        ensures
            match r {
                Some(tm) => sp_message(s@) matches Some(mv) && mv.sender_id == tm.sender_id@
                    && mv.receiver_id == tm.receiver_id@ && mv.msg_id == tm.msg_id@
                    && mv.msg_type == tm.msg_type@ && mv.topology == Some(tm.topology@),
                None => sp_message(s@) matches Some(mv) ==> mv.topology is None,
            },
    {
        match decode_message(s) {
            Some(m) => match m.topology {
                Some(topology) => Some(
                    TopologyMessage {
                        sender_id: m.sender_id,
                        receiver_id: m.receiver_id,
                        msg_id: m.msg_id,
                        msg_type: m.msg_type,
                        topology,
                    },
                ),
                None => None,
            },
            None => None,
        }
    }
}

} // verus!


