//! The codec's round-trip law: decoding a message's canonical wire text
//! yields the message back, whatever its kind and payload.

use vstd::prelude::*;

use crate::messages::MessageV;
use crate::text::text_ok;
use crate::text::all_text_ok;
use crate::text::brace_free;
use crate::text::is_ws_char;
use crate::codec::enc_str;
use crate::codec::enc_elems;
use crate::codec::enc_array;
use crate::codec::enc_pairs;
use crate::codec::enc_topo;
use crate::codec::enc_message;
use crate::codec::encodable;
use crate::codec::pairs_text_ok;
use crate::codec::sp_ws;
use crate::codec::sp_find_quote;
use crate::codec::sp_string;
use crate::codec::sp_null_at;
use crate::codec::sp_elems;
use crate::codec::sp_array;
use crate::codec::sp_pairs;
use crate::codec::sp_topo;
use crate::codec::sp_members;
use crate::codec::sp_message;
use crate::codec::PartialV;
use crate::codec::empty_partial;

verus! {

/// The concrete characters of the literals the wire grammar is built from.
pub(crate) proof fn lemma_lits()
    ensures
        "\""@ == seq!['"'],
        ","@ == seq![','],
        ":"@ == seq![':'],
        "{"@ == seq!['{'],
        "}"@ == seq!['}'],
        "["@ == seq!['['],
        "]"@ == seq![']'],
        "sender_id"@.len() == 9,
        text_ok("sender_id"@),
        "sender_id"@[0] == 's',
        "receiver_id"@.len() == 11,
        text_ok("receiver_id"@),
        "msg_id"@.len() == 6,
        text_ok("msg_id"@),
        "type"@.len() == 4,
        text_ok("type"@),
        "n"@.len() == 1,
        text_ok("n"@),
        "topology"@.len() == 8,
        text_ok("topology"@),
        brace_free("sender_id"@),
        brace_free("receiver_id"@),
        brace_free("msg_id"@),
        brace_free("type"@),
        brace_free("n"@),
        brace_free("topology"@),
{
    reveal_strlit("\"");
    reveal_strlit(",");
    reveal_strlit(":");
    reveal_strlit("{");
    reveal_strlit("}");
    reveal_strlit("[");
    reveal_strlit("]");
    reveal_strlit("sender_id");
    reveal_strlit("receiver_id");
    reveal_strlit("msg_id");
    reveal_strlit("type");
    reveal_strlit("n");
    reveal_strlit("topology");
    assert("\""@ =~= seq!['"']);
    assert(","@ =~= seq![',']);
    assert(":"@ =~= seq![':']);
    assert("{"@ =~= seq!['{']);
    assert("}"@ =~= seq!['}']);
    assert("["@ =~= seq!['[']);
    assert("]"@ =~= seq![']']);
}

proof fn lemma_find_quote_at(s: Seq<char>, i: int, e: int)
    requires
        0 <= i <= e < s.len(),
        s[e] == '"',
        forall|j: int| i <= j < e ==> s[j] != '"',
    ensures
        sp_find_quote(s, i) == Some(e),
    decreases e - i,
{
    if i < e {
        lemma_find_quote_at(s, i + 1, e);
    }
}

/// Parsing a quoted clean text at its own position yields exactly the text.
proof fn lemma_string_pre(s: Seq<char>, pre: Seq<char>, t: Seq<char>, post: Seq<char>)
    requires
        s == pre + enc_str(t) + post,
        text_ok(t),
    ensures
        sp_string(s, pre.len() as int) == Some((t, (pre.len() + t.len() + 2) as int)),
{
    lemma_lits();
    let i = pre.len() as int;
    let e = i + 1 + t.len();
    assert(s.len() == pre.len() + t.len() + 2 + post.len());
    assert(s[i] == '"');
    assert(!is_ws_char('"'));
    assert(sp_ws(s, i) == i);
    assert(s[e] == '"');
    assert forall|j: int| i + 1 <= j < e implies s[j] != '"' by {
        assert(s[j] == t[j - i - 1]);
    }
    lemma_find_quote_at(s, i + 1, e);
    assert(s.subrange(i + 1, e) =~= t);
}

proof fn lemma_enc_elems_ge(v: Seq<Seq<char>>, idx: int)
    requires
        0 <= idx,
    ensures
        enc_elems(v, idx).len() >= v.len() - idx,
    decreases v.len() - idx,
{
    lemma_lits();
    if 0 <= idx < v.len() {
        if idx + 1 < v.len() {
            lemma_enc_elems_ge(v, idx + 1);
        }
    }
}

/// Parsing the encoded elements of a nonempty array, from element `idx` on.
proof fn lemma_elems_pre(
    s: Seq<char>,
    pre: Seq<char>,
    v: Seq<Seq<char>>,
    idx: int,
    fuel: nat,
    post: Seq<char>,
)
    requires
        s == pre + enc_elems(v, idx) + seq![']'] + post,
        0 <= idx < v.len(),
        all_text_ok(v),
        fuel >= v.len() - idx,
    ensures
        sp_elems(s, pre.len() as int, fuel) == Some(
            (v.subrange(idx, v.len() as int), (pre.len() + enc_elems(v, idx).len() + 1) as int),
        ),
    decreases v.len() - idx,
{
    lemma_lits();
    let i = pre.len() as int;
    let t = v[idx];
    if idx + 1 < v.len() {
        assert(enc_elems(v, idx) == enc_str(t) + ","@ + enc_elems(v, idx + 1));
        assert(s =~= pre + enc_str(t) + (","@ + enc_elems(v, idx + 1) + seq![']'] + post));
        lemma_string_pre(s, pre, t, ","@ + enc_elems(v, idx + 1) + seq![']'] + post);
        let j = i + t.len() + 2;
        assert(s[j] == ',');
        assert(sp_ws(s, j) == j);
        let pre2 = pre + enc_str(t) + ","@;
        assert(s =~= pre2 + enc_elems(v, idx + 1) + seq![']'] + post);
        lemma_elems_pre(s, pre2, v, idx + 1, (fuel - 1) as nat, post);
        assert(seq![t] + v.subrange(idx + 1, v.len() as int) =~= v.subrange(idx, v.len() as int));
    } else {
        assert(enc_elems(v, idx) == enc_str(t));
        assert(s =~= pre + enc_str(t) + (seq![']'] + post));
        lemma_string_pre(s, pre, t, seq![']'] + post);
        let j = i + t.len() + 2;
        assert(s[j] == ']');
        assert(sp_ws(s, j) == j);
        assert(seq![t] =~= v.subrange(idx, v.len() as int));
    }
}

/// Parsing an encoded array at its own position yields exactly its elements.
proof fn lemma_array_pre(s: Seq<char>, pre: Seq<char>, v: Seq<Seq<char>>, fuel: nat, post: Seq<char>)
    requires
        s == pre + enc_array(v) + post,
        all_text_ok(v),
        fuel >= v.len(),
    ensures
        sp_array(s, pre.len() as int, fuel) == Some((v, (pre.len() + enc_array(v).len()) as int)),
{
    lemma_lits();
    let i = pre.len() as int;
    assert(s[i] == '[');
    assert(sp_ws(s, i) == i);
    if v.len() == 0 {
        assert(enc_elems(v, 0) == Seq::<char>::empty());
        assert(s[i + 1] == ']');
        assert(sp_ws(s, i + 1) == i + 1);
        assert(enc_array(v).len() == 2);
    } else {
        let pre2 = pre + "["@;
        assert(s =~= pre2 + enc_elems(v, 0) + seq![']'] + post);
        assert(enc_str(v[0])[0] == '"');
        assert(enc_elems(v, 0)[0] == '"');
        assert(s[i + 1] == '"');
        assert(sp_ws(s, i + 1) == i + 1);
        lemma_elems_pre(s, pre2, v, 0, fuel, post);
        assert(v.subrange(0, v.len() as int) =~= v);
    }
}

/// Fuel that suffices to parse the pairs of a topology object from `idx` on:
/// one unit per pair plus one per array element.
spec fn pairs_weight(ps: Seq<(Seq<char>, Seq<Seq<char>>)>, idx: int) -> nat
    decreases ps.len() - idx,
{
    if !(0 <= idx < ps.len()) {
        0
    } else {
        1 + ps[idx].1.len() + pairs_weight(ps, idx + 1)
    }
}

proof fn lemma_enc_pairs_ge(ps: Seq<(Seq<char>, Seq<Seq<char>>)>, idx: int)
    ensures
        enc_pairs(ps, idx).len() >= pairs_weight(ps, idx),
    decreases ps.len() - idx,
{
    lemma_lits();
    if 0 <= idx < ps.len() {
        lemma_enc_elems_ge(ps[idx].1, 0);
        if idx + 1 < ps.len() {
            lemma_enc_pairs_ge(ps, idx + 1);
        }
    }
}

/// Parsing the encoded pairs of a nonempty topology object, from pair `idx` on.
#[verifier::rlimit(100)]
proof fn lemma_pairs_pre(
    s: Seq<char>,
    pre: Seq<char>,
    ps: Seq<(Seq<char>, Seq<Seq<char>>)>,
    idx: int,
    fuel: nat,
    post: Seq<char>,
)
    requires
        s == pre + enc_pairs(ps, idx) + seq!['}'] + post,
        0 <= idx < ps.len(),
        pairs_text_ok(ps),
        fuel >= pairs_weight(ps, idx),
    ensures
        sp_pairs(s, pre.len() as int, fuel) == Some(
            (ps.subrange(idx, ps.len() as int), (pre.len() + enc_pairs(ps, idx).len() + 1) as int),
        ),
    decreases ps.len() - idx,
{
    lemma_lits();
    let i = pre.len() as int;
    let k = ps[idx].0;
    let v = ps[idx].1;
    let item = enc_str(k) + ":"@ + enc_array(v);
    if idx + 1 < ps.len() {
        assert(enc_pairs(ps, idx) == item + ","@ + enc_pairs(ps, idx + 1));
        assert(s =~= pre + enc_str(k) + (":"@ + enc_array(v) + ","@ + enc_pairs(ps, idx + 1)
            + seq!['}'] + post));
        lemma_string_pre(
            s,
            pre,
            k,
            ":"@ + enc_array(v) + ","@ + enc_pairs(ps, idx + 1) + seq!['}'] + post,
        );
        let j = i + k.len() + 2;
        assert(s[j] == ':');
        assert(sp_ws(s, j) == j);
        let pre2 = pre + enc_str(k) + ":"@;
        assert(s =~= pre2 + enc_array(v) + (","@ + enc_pairs(ps, idx + 1) + seq!['}'] + post));
        lemma_array_pre(s, pre2, v, fuel, ","@ + enc_pairs(ps, idx + 1) + seq!['}'] + post);
        let j4 = pre2.len() + enc_array(v).len();
        assert(s[j4 as int] == ',');
        assert(sp_ws(s, j4 as int) == j4);
        let pre3 = pre2 + enc_array(v) + ","@;
        assert(s =~= pre3 + enc_pairs(ps, idx + 1) + seq!['}'] + post);
        lemma_pairs_pre(s, pre3, ps, idx + 1, (fuel - 1) as nat, post);
        assert(seq![(k, v)] + ps.subrange(idx + 1, ps.len() as int) =~= ps.subrange(
            idx,
            ps.len() as int,
        ));
    } else {
        assert(enc_pairs(ps, idx) == item);
        assert(s =~= pre + enc_str(k) + (":"@ + enc_array(v) + seq!['}'] + post));
        lemma_string_pre(s, pre, k, ":"@ + enc_array(v) + seq!['}'] + post);
        let j = i + k.len() + 2;
        assert(s[j] == ':');
        assert(sp_ws(s, j) == j);
        let pre2 = pre + enc_str(k) + ":"@;
        assert(s =~= pre2 + enc_array(v) + (seq!['}'] + post));
        lemma_array_pre(s, pre2, v, fuel, seq!['}'] + post);
        let j4 = pre2.len() + enc_array(v).len();
        assert(s[j4 as int] == '}');
        assert(sp_ws(s, j4 as int) == j4);
        assert(seq![(k, v)] =~= ps.subrange(idx, ps.len() as int));
    }
}

/// Parsing an encoded topology object yields exactly its pairs.
proof fn lemma_topo_pre(
    s: Seq<char>,
    pre: Seq<char>,
    ps: Seq<(Seq<char>, Seq<Seq<char>>)>,
    fuel: nat,
    post: Seq<char>,
)
    requires
        s == pre + enc_topo(ps) + post,
        pairs_text_ok(ps),
        fuel >= pairs_weight(ps, 0),
    ensures
        sp_topo(s, pre.len() as int, fuel) == Some((ps, (pre.len() + enc_topo(ps).len()) as int)),
{
    lemma_lits();
    let i = pre.len() as int;
    assert(s[i] == '{');
    assert(sp_ws(s, i) == i);
    if ps.len() == 0 {
        assert(enc_pairs(ps, 0) == Seq::<char>::empty());
        assert(s[i + 1] == '}');
        assert(sp_ws(s, i + 1) == i + 1);
        assert(enc_topo(ps).len() == 2);
        assert(Seq::<(Seq<char>, Seq<Seq<char>>)>::empty() =~= ps);
    } else {
        let pre2 = pre + "{"@;
        assert(s =~= pre2 + enc_pairs(ps, 0) + seq!['}'] + post);
        assert(enc_str(ps[0].0)[0] == '"');
        assert(enc_pairs(ps, 0)[0] == '"');
        assert(s[i + 1] == '"');
        assert(sp_ws(s, i + 1) == i + 1);
        lemma_pairs_pre(s, pre2, ps, 0, fuel, post);
        assert(ps.subrange(0, ps.len() as int) =~= ps);
    }
}

/// How a parsed string member lands in the accumulator.
spec fn assign_str_key(acc: PartialV, key: Seq<char>, t: Seq<char>) -> PartialV {
    if key == "sender_id"@ {
        PartialV { sender_id: Some(t), ..acc }
    } else if key == "receiver_id"@ {
        PartialV { receiver_id: Some(t), ..acc }
    } else if key == "msg_id"@ {
        PartialV { msg_id: Some(t), ..acc }
    } else {
        PartialV { msg_type: Some(t), ..acc }
    }
}

/// One string-valued member step of the object walk.
#[verifier::rlimit(100)]
proof fn lemma_member_str(
    s: Seq<char>,
    pre: Seq<char>,
    key: Seq<char>,
    t: Seq<char>,
    acc: PartialV,
    fuel: nat,
    post: Seq<char>,
    more: bool,
)
    requires
        key == "sender_id"@ || key == "receiver_id"@ || key == "msg_id"@ || key == "type"@,
        text_ok(t),
        fuel >= 1,
        s == pre + enc_str(key) + ":"@ + enc_str(t) + (if more {
            ","@
        } else {
            "}"@
        }) + post,
    ensures
        ({
            let end = pre.len() + key.len() + 2 + 1 + t.len() + 2;
            if more {
                sp_members(s, pre.len() as int, acc, fuel) == sp_members(
                    s,
                    (end + 1) as int,
                    assign_str_key(acc, key, t),
                    (fuel - 1) as nat,
                )
            } else {
                sp_members(s, pre.len() as int, acc, fuel) == Some(
                    (assign_str_key(acc, key, t), (end + 1) as int),
                )
            }
        }),
{
    lemma_lits();
    let i = pre.len() as int;
    let sep: Seq<char> = if more {
        ","@
    } else {
        "}"@
    };
    assert(s =~= pre + enc_str(key) + (":"@ + enc_str(t) + sep + post));
    lemma_string_pre(s, pre, key, ":"@ + enc_str(t) + sep + post);
    let j = i + key.len() + 2;
    assert(s[j] == ':');
    assert(sp_ws(s, j) == j);
    let pre2 = pre + enc_str(key) + ":"@;
    assert(s =~= pre2 + enc_str(t) + (sep + post));
    lemma_string_pre(s, pre2, t, sep + post);
    let j4 = j + 1 + t.len() + 2;
    if more {
        assert(s[j4] == ',');
    } else {
        assert(s[j4] == '}');
    }
    assert(sp_ws(s, j4) == j4);
}

/// The neighbor-list member step of the object walk.
#[verifier::rlimit(100)]
proof fn lemma_member_n(
    s: Seq<char>,
    pre: Seq<char>,
    v: Seq<Seq<char>>,
    acc: PartialV,
    fuel: nat,
    post: Seq<char>,
    more: bool,
)
    requires
        all_text_ok(v),
        fuel >= v.len() + 1,
        s == pre + enc_str("n"@) + ":"@ + enc_array(v) + (if more {
            ","@
        } else {
            "}"@
        }) + post,
    ensures
        ({
            let end = pre.len() + 1 + 2 + 1 + enc_array(v).len();
            let acc2 = PartialV { n: Some(v), ..acc };
            if more {
                sp_members(s, pre.len() as int, acc, fuel) == sp_members(
                    s,
                    (end + 1) as int,
                    acc2,
                    (fuel - 1) as nat,
                )
            } else {
                sp_members(s, pre.len() as int, acc, fuel) == Some((acc2, (end + 1) as int))
            }
        }),
{
    lemma_lits();
    let i = pre.len() as int;
    let sep: Seq<char> = if more {
        ","@
    } else {
        "}"@
    };
    assert(s =~= pre + enc_str("n"@) + (":"@ + enc_array(v) + sep + post));
    lemma_string_pre(s, pre, "n"@, ":"@ + enc_array(v) + sep + post);
    let j = i + 1 + 2;
    assert(s[j] == ':');
    assert(sp_ws(s, j) == j);
    let jv = j + 1;
    let pre2 = pre + enc_str("n"@) + ":"@;
    assert(s =~= pre2 + enc_array(v) + (sep + post));
    assert(s[jv] == '[');
    assert(sp_ws(s, jv) == jv);
    assert(!sp_null_at(s, jv));
    lemma_array_pre(s, pre2, v, fuel, sep + post);
    let j4 = jv + enc_array(v).len();
    if more {
        assert(s[j4] == ',');
    } else {
        assert(s[j4] == '}');
    }
    assert(sp_ws(s, j4) == j4);
}

/// The topology member step of the object walk.
#[verifier::rlimit(100)]
proof fn lemma_member_topo(
    s: Seq<char>,
    pre: Seq<char>,
    ps: Seq<(Seq<char>, Seq<Seq<char>>)>,
    acc: PartialV,
    fuel: nat,
    post: Seq<char>,
    more: bool,
)
    requires
        pairs_text_ok(ps),
        fuel >= pairs_weight(ps, 0) + 1,
        s == pre + enc_str("topology"@) + ":"@ + enc_topo(ps) + (if more {
            ","@
        } else {
            "}"@
        }) + post,
    ensures
        ({
            let end = pre.len() + 8 + 2 + 1 + enc_topo(ps).len();
            let acc2 = PartialV { topology: Some(ps), ..acc };
            if more {
                sp_members(s, pre.len() as int, acc, fuel) == sp_members(
                    s,
                    (end + 1) as int,
                    acc2,
                    (fuel - 1) as nat,
                )
            } else {
                sp_members(s, pre.len() as int, acc, fuel) == Some((acc2, (end + 1) as int))
            }
        }),
{
    lemma_lits();
    let i = pre.len() as int;
    let sep: Seq<char> = if more {
        ","@
    } else {
        "}"@
    };
    assert(s =~= pre + enc_str("topology"@) + (":"@ + enc_topo(ps) + sep + post));
    lemma_string_pre(s, pre, "topology"@, ":"@ + enc_topo(ps) + sep + post);
    let j = i + 8 + 2;
    assert(s[j] == ':');
    assert(sp_ws(s, j) == j);
    let jv = j + 1;
    let pre2 = pre + enc_str("topology"@) + ":"@;
    assert(s =~= pre2 + enc_topo(ps) + (sep + post));
    assert(s[jv] == '{');
    assert(sp_ws(s, jv) == jv);
    assert(!sp_null_at(s, jv));
    lemma_topo_pre(s, pre2, ps, fuel, sep + post);
    let j4 = jv + enc_topo(ps).len();
    if more {
        assert(s[j4] == ',');
    } else {
        assert(s[j4] == '}');
    }
    assert(sp_ws(s, j4) == j4);
}

/// The four required members in canonical order, without the surrounding
/// braces or the payload.
pub open spec fn enc_required(m: MessageV) -> Seq<char> {
    enc_str("sender_id"@) + ":"@ + enc_str(m.sender_id) + ","@ + enc_str("receiver_id"@) + ":"@
        + enc_str(m.receiver_id) + ","@ + enc_str("msg_id"@) + ":"@ + enc_str(m.msg_id) + ","@
        + enc_str("type"@) + ":"@ + enc_str(m.msg_type)
}


/// Walking the first two required members.
#[verifier::rlimit(100)]
proof fn lemma_required_a(
    s: Seq<char>,
    pre: Seq<char>,
    m: MessageV,
    acc: PartialV,
    fuel: nat,
    post: Seq<char>,
)
    requires
        text_ok(m.sender_id),
        text_ok(m.receiver_id),
        fuel >= 2,
        s == pre + enc_str("sender_id"@) + ":"@ + enc_str(m.sender_id) + ","@ + enc_str(
            "receiver_id"@,
        ) + ":"@ + enc_str(m.receiver_id) + ","@ + post,
    ensures
        ({
            let acc2 = PartialV {
                sender_id: Some(m.sender_id),
                receiver_id: Some(m.receiver_id),
                ..acc
            };
            let end = (pre.len() + 9 + 2 + 1 + m.sender_id.len() + 2 + 1 + 11 + 2 + 1
                + m.receiver_id.len() + 2 + 1) as int;
            sp_members(s, pre.len() as int, acc, fuel) == sp_members(s, end, acc2, (fuel - 2) as nat)
        }),
{
    lemma_lits();
    let post1 = enc_str("receiver_id"@) + ":"@ + enc_str(m.receiver_id) + ","@ + post;
    assert(s =~= pre + enc_str("sender_id"@) + ":"@ + enc_str(m.sender_id) + ","@ + post1);
    lemma_member_str(s, pre, "sender_id"@, m.sender_id, acc, fuel, post1, true);
    let acc1 = assign_str_key(acc, "sender_id"@, m.sender_id);
    let p1 = pre + enc_str("sender_id"@) + ":"@ + enc_str(m.sender_id) + ","@;
    assert(p1.len() == pre.len() + 9 + 2 + 1 + m.sender_id.len() + 2 + 1);
    assert(s =~= p1 + enc_str("receiver_id"@) + ":"@ + enc_str(m.receiver_id) + ","@ + post);
    lemma_member_str(s, p1, "receiver_id"@, m.receiver_id, acc1, (fuel - 1) as nat, post, true);
    let acc2 = assign_str_key(acc1, "receiver_id"@, m.receiver_id);
    assert(acc2 == PartialV {
        sender_id: Some(m.sender_id),
        receiver_id: Some(m.receiver_id),
        ..acc
    });
}

/// Walking the last two required members.
#[verifier::rlimit(100)]
proof fn lemma_required_b(
    s: Seq<char>,
    pre: Seq<char>,
    m: MessageV,
    acc: PartialV,
    fuel: nat,
    post: Seq<char>,
    more: bool,
)
    requires
        text_ok(m.msg_id),
        text_ok(m.msg_type),
        fuel >= 2,
        s == pre + enc_str("msg_id"@) + ":"@ + enc_str(m.msg_id) + ","@ + enc_str("type"@) + ":"@
            + enc_str(m.msg_type) + (if more {
            ","@
        } else {
            "}"@
        }) + post,
    ensures
        ({
            let acc2 = PartialV { msg_id: Some(m.msg_id), msg_type: Some(m.msg_type), ..acc };
            let end = (pre.len() + 6 + 2 + 1 + m.msg_id.len() + 2 + 1 + 4 + 2 + 1
                + m.msg_type.len() + 2 + 1) as int;
            if more {
                sp_members(s, pre.len() as int, acc, fuel) == sp_members(
                    s,
                    end,
                    acc2,
                    (fuel - 2) as nat,
                )
            } else {
                sp_members(s, pre.len() as int, acc, fuel) == Some((acc2, end))
            }
        }),
{
    lemma_lits();
    let sep: Seq<char> = if more {
        ","@
    } else {
        "}"@
    };
    let post1 = enc_str("type"@) + ":"@ + enc_str(m.msg_type) + sep + post;
    assert(s =~= pre + enc_str("msg_id"@) + ":"@ + enc_str(m.msg_id) + ","@ + post1);
    lemma_member_str(s, pre, "msg_id"@, m.msg_id, acc, fuel, post1, true);
    let acc1 = assign_str_key(acc, "msg_id"@, m.msg_id);
    let p1 = pre + enc_str("msg_id"@) + ":"@ + enc_str(m.msg_id) + ","@;
    assert(p1.len() == pre.len() + 6 + 2 + 1 + m.msg_id.len() + 2 + 1);
    assert(s =~= p1 + enc_str("type"@) + ":"@ + enc_str(m.msg_type) + sep + post);
    lemma_member_str(s, p1, "type"@, m.msg_type, acc1, (fuel - 1) as nat, post, more);
    let acc2 = assign_str_key(acc1, "type"@, m.msg_type);
    assert(acc2 == PartialV { msg_id: Some(m.msg_id), msg_type: Some(m.msg_type), ..acc });
}

/// Walking the four required members fills the four required fields.
#[verifier::rlimit(100)]
proof fn lemma_required(
    s: Seq<char>,
    pre: Seq<char>,
    m: MessageV,
    acc: PartialV,
    fuel: nat,
    post: Seq<char>,
    more: bool,
)
    requires
        text_ok(m.sender_id),
        text_ok(m.receiver_id),
        text_ok(m.msg_id),
        text_ok(m.msg_type),
        fuel >= 4,
        s == pre + enc_required(m) + (if more {
            ","@
        } else {
            "}"@
        }) + post,
    ensures
        ({
            let acc4 = PartialV {
                sender_id: Some(m.sender_id),
                receiver_id: Some(m.receiver_id),
                msg_id: Some(m.msg_id),
                msg_type: Some(m.msg_type),
                ..acc
            };
            let end = (pre.len() + enc_required(m).len() + 1) as int;
            if more {
                sp_members(s, pre.len() as int, acc, fuel) == sp_members(
                    s,
                    end,
                    acc4,
                    (fuel - 4) as nat,
                )
            } else {
                sp_members(s, pre.len() as int, acc, fuel) == Some((acc4, end))
            }
        }),
{
    lemma_lits();
    let sep: Seq<char> = if more {
        ","@
    } else {
        "}"@
    };
    let tail = enc_str("msg_id"@) + ":"@ + enc_str(m.msg_id) + ","@ + enc_str("type"@) + ":"@
        + enc_str(m.msg_type) + sep + post;
    assert(s =~= pre + enc_str("sender_id"@) + ":"@ + enc_str(m.sender_id) + ","@ + enc_str(
        "receiver_id"@,
    ) + ":"@ + enc_str(m.receiver_id) + ","@ + (enc_str("msg_id"@) + ":"@ + enc_str(m.msg_id)
        + ","@ + enc_str("type"@) + ":"@ + enc_str(m.msg_type) + sep + post));
    lemma_required_a(
        s,
        pre,
        m,
        acc,
        fuel,
        enc_str("msg_id"@) + ":"@ + enc_str(m.msg_id) + ","@ + enc_str("type"@) + ":"@ + enc_str(
            m.msg_type,
        ) + sep + post,
    );
    let acc2 = PartialV { sender_id: Some(m.sender_id), receiver_id: Some(m.receiver_id), ..acc };
    let p2 = pre + enc_str("sender_id"@) + ":"@ + enc_str(m.sender_id) + ","@ + enc_str(
        "receiver_id"@,
    ) + ":"@ + enc_str(m.receiver_id) + ","@;
    assert(p2.len() == pre.len() + 9 + 2 + 1 + m.sender_id.len() + 2 + 1 + 11 + 2 + 1
        + m.receiver_id.len() + 2 + 1);
    assert(s =~= p2 + enc_str("msg_id"@) + ":"@ + enc_str(m.msg_id) + ","@ + enc_str("type"@)
        + ":"@ + enc_str(m.msg_type) + sep + post);
    lemma_required_b(s, p2, m, acc2, (fuel - 2) as nat, post, more);
    assert(p2.len() + 6 + 2 + 1 + m.msg_id.len() + 2 + 1 + 4 + 2 + 1 + m.msg_type.len() + 2 + 1
        == pre.len() + enc_required(m).len() + 1);
}

/// The opening of the message object: the first two characters of canonical
/// wire text are a brace and a quote.
#[verifier::rlimit(100)]
proof fn lemma_open(m: MessageV)
    ensures
        ({
            let s = enc_message(m);
            &&& s.len() >= 2 + enc_required(m).len()
            &&& s[0] == '{'
            &&& sp_ws(s, 0) == 0
            &&& s[1] == '"'
            &&& sp_ws(s, 1) == 1
        }),
{
    lemma_lits();
    let s = enc_message(m);
    let req = enc_required(m);
    assert(enc_str("sender_id"@)[0] == '"');
    assert(req[0] == '"');
    assert(s[0] == '{');
    assert(sp_ws(s, 0) == 0);
    assert(s[1] == req[0]);
    assert(sp_ws(s, 1) == 1);
}

#[verifier::rlimit(100)]
proof fn lemma_rt_plain(m: MessageV)
    requires
        encodable(m),
        m.n is None,
        m.topology is None,
    ensures
        sp_message(enc_message(m)) == Some(m),
{
    lemma_lits();
    lemma_open(m);
    let s = enc_message(m);
    let req = enc_required(m);
    let fuel0 = s.len() as nat;
    assert(s =~= "{"@ + req + "}"@ + Seq::<char>::empty());
    lemma_required(s, "{"@, m, empty_partial(), fuel0, Seq::<char>::empty(), false);
    assert(1 + req.len() + 1 == s.len());
    assert(sp_ws(s, s.len() as int) == s.len());
    assert(sp_message(s) == Some(m));
}

#[verifier::rlimit(100)]
proof fn lemma_rt_n(m: MessageV, v: Seq<Seq<char>>)
    requires
        encodable(m),
        m.n == Some(v),
        m.topology is None,
    ensures
        sp_message(enc_message(m)) == Some(m),
{
    lemma_lits();
    lemma_open(m);
    let s = enc_message(m);
    let req = enc_required(m);
    let fuel0 = s.len() as nat;
    let acc4 = PartialV {
        sender_id: Some(m.sender_id),
        receiver_id: Some(m.receiver_id),
        msg_id: Some(m.msg_id),
        msg_type: Some(m.msg_type),
        ..empty_partial()
    };
    let postn = enc_str("n"@) + ":"@ + enc_array(v) + "}"@;
    assert(s =~= "{"@ + req + ","@ + postn);
    lemma_required(s, "{"@, m, empty_partial(), fuel0, postn, true);
    let p4 = "{"@ + req + ","@;
    assert(p4.len() == 1 + req.len() + 1);
    assert(s =~= p4 + enc_str("n"@) + ":"@ + enc_array(v) + "}"@ + Seq::<char>::empty());
    lemma_enc_elems_ge(v, 0);
    assert(enc_array(v).len() >= v.len() + 2);
    assert(fuel0 - 4 >= v.len() + 1);
    lemma_member_n(s, p4, v, acc4, (fuel0 - 4) as nat, Seq::<char>::empty(), false);
    assert(p4.len() + 1 + 2 + 1 + enc_array(v).len() + 1 == s.len());
    assert(sp_ws(s, s.len() as int) == s.len());
    assert(sp_message(s) == Some(m));
}

#[verifier::rlimit(100)]
proof fn lemma_rt_topo(m: MessageV, ps: Seq<(Seq<char>, Seq<Seq<char>>)>)
    requires
        encodable(m),
        m.n is None,
        m.topology == Some(ps),
    ensures
        sp_message(enc_message(m)) == Some(m),
{
    lemma_lits();
    lemma_open(m);
    let s = enc_message(m);
    let req = enc_required(m);
    let fuel0 = s.len() as nat;
    let acc4 = PartialV {
        sender_id: Some(m.sender_id),
        receiver_id: Some(m.receiver_id),
        msg_id: Some(m.msg_id),
        msg_type: Some(m.msg_type),
        ..empty_partial()
    };
    let postt = enc_str("topology"@) + ":"@ + enc_topo(ps) + "}"@;
    assert(s =~= "{"@ + req + ","@ + postt);
    lemma_required(s, "{"@, m, empty_partial(), fuel0, postt, true);
    let p4 = "{"@ + req + ","@;
    assert(p4.len() == 1 + req.len() + 1);
    assert(s =~= p4 + enc_str("topology"@) + ":"@ + enc_topo(ps) + "}"@ + Seq::<char>::empty());
    lemma_enc_pairs_ge(ps, 0);
    assert(enc_topo(ps).len() >= pairs_weight(ps, 0) + 2);
    assert(fuel0 - 4 >= pairs_weight(ps, 0) + 1);
    lemma_member_topo(s, p4, ps, acc4, (fuel0 - 4) as nat, Seq::<char>::empty(), false);
    assert(p4.len() + 8 + 2 + 1 + enc_topo(ps).len() + 1 == s.len());
    assert(sp_ws(s, s.len() as int) == s.len());
    assert(sp_message(s) == Some(m));
}

#[verifier::rlimit(100)]
proof fn lemma_rt_both(m: MessageV, v: Seq<Seq<char>>, ps: Seq<(Seq<char>, Seq<Seq<char>>)>)
    requires
        encodable(m),
        m.n == Some(v),
        m.topology == Some(ps),
    ensures
        sp_message(enc_message(m)) == Some(m),
{
    lemma_lits();
    lemma_open(m);
    let s = enc_message(m);
    let req = enc_required(m);
    let fuel0 = s.len() as nat;
    let acc4 = PartialV {
        sender_id: Some(m.sender_id),
        receiver_id: Some(m.receiver_id),
        msg_id: Some(m.msg_id),
        msg_type: Some(m.msg_type),
        ..empty_partial()
    };
    let postt = enc_str("topology"@) + ":"@ + enc_topo(ps) + "}"@;
    let postn = enc_str("n"@) + ":"@ + enc_array(v) + ","@ + postt;
    assert(s =~= "{"@ + req + ","@ + postn);
    lemma_required(s, "{"@, m, empty_partial(), fuel0, postn, true);
    let p4 = "{"@ + req + ","@;
    assert(p4.len() == 1 + req.len() + 1);
    assert(s =~= p4 + enc_str("n"@) + ":"@ + enc_array(v) + ","@ + postt);
    lemma_enc_elems_ge(v, 0);
    assert(enc_array(v).len() >= v.len() + 2);
    lemma_enc_pairs_ge(ps, 0);
    assert(enc_topo(ps).len() >= pairs_weight(ps, 0) + 2);
    assert(fuel0 - 4 >= v.len() + 1);
    lemma_member_n(s, p4, v, acc4, (fuel0 - 4) as nat, postt, true);
    let acc5 = PartialV { n: Some(v), ..acc4 };
    let p5 = p4 + enc_str("n"@) + ":"@ + enc_array(v) + ","@;
    assert(p5.len() == p4.len() + 1 + 2 + 1 + enc_array(v).len() + 1);
    assert(s =~= p5 + enc_str("topology"@) + ":"@ + enc_topo(ps) + "}"@ + Seq::<char>::empty());
    assert(fuel0 - 5 >= pairs_weight(ps, 0) + 1);
    lemma_member_topo(s, p5, ps, acc5, (fuel0 - 5) as nat, Seq::<char>::empty(), false);
    assert(p5.len() + 8 + 2 + 1 + enc_topo(ps).len() + 1 == s.len());
    assert(sp_ws(s, s.len() as int) == s.len());
    assert(sp_message(s) == Some(m));
}

/// Round trip: the canonical wire text of any message, of any of the four
/// kinds and with any payload of clean text, decodes back to that very
/// message.
pub proof fn lemma_encode_decode(m: MessageV)
    requires
        encodable(m),
    ensures
        sp_message(enc_message(m)) == Some(m),
{
    match (m.n, m.topology) {
        (None, None) => lemma_rt_plain(m),
        (Some(v), None) => lemma_rt_n(m, v),
        (None, Some(ps)) => lemma_rt_topo(m, ps),
        (Some(v), Some(ps)) => lemma_rt_both(m, v, ps),
    }
}

} // verus!



