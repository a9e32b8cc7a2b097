//! Laws of the frame decoder: robustness against a malformed message and
//! idempotence under incremental feeding.

use vstd::prelude::*;

use crate::messages::MessageV;
use crate::text::brace_free;
use crate::text::all_brace_free;
use crate::codec::enc_str;
use crate::codec::enc_elems;
use crate::codec::enc_array;
use crate::codec::enc_message;
use crate::codec::encodable;
use crate::codec::sp_message;
use crate::frame::sp_last_close;
use crate::frame::lemma_last_close_char;
use crate::frame::sp_find_splice;
use crate::frame::sp_pieces;
use crate::frame::sp_decode_pieces;
use crate::frame::sp_frame;
use crate::round_trip::lemma_lits;
use crate::round_trip::enc_required;
use crate::round_trip::lemma_encode_decode;

verus! {

/// The pieces of a stream, in order, as one text.
pub open spec fn cat_pieces(pieces: Seq<Seq<char>>) -> Seq<char>
    decreases pieces.len(),
{
    if pieces.len() == 0 {
        Seq::empty()
    } else {
        pieces[0] + cat_pieces(pieces.drop_first())
    }
}

/// A piece the splitting heuristic hands back unchanged: braced at both ends
/// and holding no splice point of its own.
pub open spec fn piece_clean(p: Seq<char>) -> bool {
    &&& p.len() >= 2
    &&& p[0] == '{'
    &&& p[p.len() - 1] == '}'
    &&& forall|j: int| 0 <= j < p.len() - 1 ==> !((#[trigger] p[j]) == '}' && p[j + 1] == '{')
}

/// A piece whose interior holds no brace at all, so that any proper prefix of
/// it still looks like an accumulating partial message.
pub open spec fn piece_simple(p: Seq<char>) -> bool {
    &&& p.len() >= 2
    &&& p[0] == '{'
    &&& p[p.len() - 1] == '}'
    &&& forall|j: int| 0 < j < p.len() - 1 ==> (#[trigger] p[j]) != '{' && p[j] != '}'
}

/// Text with no closing brace: the decoder leaves it accumulating.
pub open spec fn no_close(t: Seq<char>) -> bool {
    forall|j: int| 0 <= j < t.len() ==> t[j] != '}'
}

/// Any proper prefix of a simple piece still lacks its closing brace, so a
/// stream of simple pieces can be cut anywhere and fed in stages.
pub proof fn lemma_prefix_no_close(p: Seq<char>, c: int)
    requires
        piece_simple(p),
        0 <= c < p.len(),
    ensures
        no_close(p.subrange(0, c)),
{
    assert forall|j: int| 0 <= j < c implies p.subrange(0, c)[j] != '}' by {
        assert(p.subrange(0, c)[j] == p[j]);
        if j == 0 {
            assert(p[0] == '{');
        }
    }
}

pub proof fn lemma_simple_clean(p: Seq<char>)
    requires
        piece_simple(p),
    ensures
        piece_clean(p),
{
    assert forall|j: int| 0 <= j < p.len() - 1 implies !((#[trigger] p[j]) == '}' && p[j + 1] == '{') by {
        if j == 0 {
            assert(p[0] == '{');
        }
    }
}

/// A buffer without a closing brace yields nothing and stays whole.
pub proof fn lemma_frame_no_close(t: Seq<char>)
    requires
        no_close(t),
    ensures
        sp_frame(t) == (Seq::<MessageV>::empty(), t),
{
    lemma_last_close_char(t);
    match sp_last_close(t) {
        Some(p) => {
            assert(t[p] != '}');
        },
        None => {},
    }
}

proof fn lemma_find_splice_at(s: Seq<char>, i: int, j: int)
    requires
        0 <= i <= j,
        j + 1 < s.len(),
        s[j] == '}',
        s[j + 1] == '{',
        forall|k: int| i <= k < j ==> !((#[trigger] s[k]) == '}' && s[k + 1] == '{'),
    ensures
        sp_find_splice(s, i) == Some(j),
    decreases j - i,
{
    if i < j {
        lemma_find_splice_at(s, i + 1, j);
    }
}

proof fn lemma_find_splice_none(s: Seq<char>, i: int)
    requires
        0 <= i,
        forall|k: int| i <= k < s.len() - 1 ==> !((#[trigger] s[k]) == '}' && s[k + 1] == '{'),
    ensures
        sp_find_splice(s, i) is None,
    decreases s.len() - i,
{
    if i + 1 < s.len() {
        lemma_find_splice_none(s, i + 1);
    }
}

proof fn lemma_cat_last(pieces: Seq<Seq<char>>)
    requires
        pieces.len() >= 1,
        forall|i: int| 0 <= i < pieces.len() ==> #[trigger] pieces[i].len() >= 1,
    ensures
        cat_pieces(pieces).len() >= 1,
        cat_pieces(pieces)[cat_pieces(pieces).len() - 1] == pieces.last()[pieces.last().len() - 1],
    decreases pieces.len(),
{
    if pieces.len() == 1 {
        assert(cat_pieces(pieces.drop_first()).len() == 0);
        assert(cat_pieces(pieces) =~= pieces[0]);
    } else {
        assert forall|i: int| 0 <= i < pieces.drop_first().len() implies #[trigger] pieces.drop_first()[i].len() >= 1 by {
            assert(pieces.drop_first()[i] == pieces[i + 1]);
        }
        lemma_cat_last(pieces.drop_first());
        assert(pieces.drop_first().last() == pieces.last());
    }
}

/// Splitting the concatenation of clean pieces gives those pieces back.
proof fn lemma_pieces_of(pieces: Seq<Seq<char>>)
    requires
        pieces.len() >= 1,
        forall|i: int| 0 <= i < pieces.len() ==> piece_clean(#[trigger] pieces[i]),
    ensures
        sp_pieces(cat_pieces(pieces)) == pieces,
    decreases pieces.len(),
{
    let v = cat_pieces(pieces);
    let p0 = pieces[0];
    assert(piece_clean(p0));
    if pieces.len() == 1 {
        assert(cat_pieces(pieces.drop_first()).len() == 0);
        assert(v =~= p0);
        lemma_find_splice_none(v, 0);
        assert(sp_pieces(v) == seq![v]);
        assert(seq![v] =~= pieces);
    } else {
        let rest = pieces.drop_first();
        assert forall|i: int| 0 <= i < rest.len() implies piece_clean(#[trigger] rest[i]) by {
            assert(rest[i] == pieces[i + 1]);
        }
        assert forall|i: int| 0 <= i < rest.len() implies #[trigger] rest[i].len() >= 1 by {
            assert(piece_clean(rest[i]));
        }
        let rc = cat_pieces(rest);
        assert(v == p0 + rc);
        let j = p0.len() - 1;
        assert(rc.len() >= 1 && rc[0] == rest[0][0]) by {
            assert(rc == rest[0] + cat_pieces(rest.drop_first()));
            assert(piece_clean(rest[0]));
        }
        assert(v[j] == '}');
        assert(v[j + 1] == rc[0]);
        assert(rc[0] == '{');
        assert forall|k: int| 0 <= k < j implies !((#[trigger] v[k]) == '}' && v[k + 1] == '{') by {
            assert(v[k] == p0[k]);
            assert(v[k + 1] == p0[k + 1]);
        }
        lemma_find_splice_at(v, 0, j);
        assert(v.subrange(0, j + 1) =~= p0);
        assert(seq!['{'] + v.subrange(j + 2, v.len() as int) =~= rc);
        lemma_pieces_of(rest);
        assert(sp_pieces(v) == seq![p0] + rest);
        assert(seq![p0] + rest =~= pieces);
    }
}

proof fn lemma_decode_pieces_split(a: Seq<Seq<char>>, b: Seq<Seq<char>>)
    ensures
        sp_decode_pieces(a + b) == sp_decode_pieces(a) + sp_decode_pieces(b),
    decreases a.len(),
{
    if a.len() == 0 {
        assert(a + b =~= b);
        assert(Seq::<MessageV>::empty() + sp_decode_pieces(b) =~= sp_decode_pieces(b));
    } else {
        assert((a + b)[0] == a[0]);
        assert((a + b).drop_first() =~= a.drop_first() + b);
        lemma_decode_pieces_split(a.drop_first(), b);
        match sp_message(a[0]) {
            Some(m) => {
                assert(seq![m] + (sp_decode_pieces(a.drop_first()) + sp_decode_pieces(b)) =~= (
                seq![m] + sp_decode_pieces(a.drop_first())) + sp_decode_pieces(b));
            },
            None => {},
        }
    }
}

proof fn lemma_cat_split(a: Seq<Seq<char>>, b: Seq<Seq<char>>)
    ensures
        cat_pieces(a + b) == cat_pieces(a) + cat_pieces(b),
    decreases a.len(),
{
    if a.len() == 0 {
        assert(a + b =~= b);
        assert(Seq::<char>::empty() + cat_pieces(b) =~= cat_pieces(b));
    } else {
        assert((a + b)[0] == a[0]);
        assert((a + b).drop_first() =~= a.drop_first() + b);
        lemma_cat_split(a.drop_first(), b);
        assert(a[0] + (cat_pieces(a.drop_first()) + cat_pieces(b)) =~= (a[0] + cat_pieces(
            a.drop_first(),
        )) + cat_pieces(b));
    }
}

/// One decode pass over clean pieces followed by accumulating text: every
/// piece is cut out unchanged and decoded on its own, and the text after the
/// last closing brace is the remainder.
pub proof fn lemma_frame_of_pieces(pieces: Seq<Seq<char>>, tail: Seq<char>)
    requires
        pieces.len() >= 1,
        forall|i: int| 0 <= i < pieces.len() ==> piece_clean(#[trigger] pieces[i]),
        no_close(tail),
    ensures
        sp_frame(cat_pieces(pieces) + tail) == (sp_decode_pieces(pieces), tail),
{
    let c = cat_pieces(pieces);
    let s = c + tail;
    assert forall|i: int| 0 <= i < pieces.len() implies #[trigger] pieces[i].len() >= 1 by {
        assert(piece_clean(pieces[i]));
    }
    lemma_cat_last(pieces);
    let last = c.len() - 1;
    assert(pieces.last()[pieces.last().len() - 1] == '}') by {
        assert(piece_clean(pieces.last()));
    }
    assert(s[last] == '}');
    assert forall|j: int| last < j < s.len() implies s[j] != '}' by {
        assert(s[j] == tail[j - c.len()]);
    }
    lemma_last_close_char(s);
    match sp_last_close(s) {
        None => {
            assert(s[last] != '}');
        },
        Some(p) => {
            if p < last {
                assert(s[last] != '}');
            }
            if p > last {
                assert(s[p] == tail[p - c.len()]);
            }
            assert(p == last);
            assert(s.subrange(0, p + 1) =~= c);
            assert(s.subrange(p + 1, s.len() as int) =~= tail);
            lemma_pieces_of(pieces);
        },
    }
}

/// The message's strings hold no brace and no topology table rides along, so
/// its wire text is safe for the splitting heuristic even when cut anywhere.
pub open spec fn frame_ready(m: MessageV) -> bool {
    &&& encodable(m)
    &&& brace_free(m.sender_id)
    &&& brace_free(m.receiver_id)
    &&& brace_free(m.msg_id)
    &&& brace_free(m.msg_type)
    &&& match m.n {
        Some(v) => all_brace_free(v),
        None => true,
    }
    &&& m.topology is None
}

proof fn lemma_bf_concat(a: Seq<char>, b: Seq<char>)
    requires
        brace_free(a),
        brace_free(b),
    ensures
        brace_free(a + b),
{
    assert forall|i: int| 0 <= i < (a + b).len() implies (a + b)[i] != '{' && (a + b)[i] != '}' by {
        if i < a.len() {
            assert((a + b)[i] == a[i]);
        } else {
            assert((a + b)[i] == b[i - a.len()]);
        }
    }
}

proof fn lemma_bf_enc_str(t: Seq<char>)
    requires
        brace_free(t),
    ensures
        brace_free(enc_str(t)),
{
    lemma_lits();
    assert(brace_free("\""@));
    lemma_bf_concat("\""@, t);
    lemma_bf_concat("\""@ + t, "\""@);
}

proof fn lemma_bf_enc_elems(v: Seq<Seq<char>>, idx: int)
    requires
        all_brace_free(v),
    ensures
        brace_free(enc_elems(v, idx)),
    decreases v.len() - idx,
{
    lemma_lits();
    if 0 <= idx < v.len() {
        lemma_bf_enc_str(v[idx]);
        if idx + 1 < v.len() {
            lemma_bf_enc_elems(v, idx + 1);
            assert(brace_free(","@));
            lemma_bf_concat(enc_str(v[idx]), ","@);
            lemma_bf_concat(enc_str(v[idx]) + ","@, enc_elems(v, idx + 1));
        }
    }
}

/// The canonical wire text of a frame-ready message is a simple piece.
pub proof fn lemma_enc_piece(m: MessageV)
    requires
        frame_ready(m),
    ensures
        piece_simple(enc_message(m)),
{
    lemma_lits();
    let s = enc_message(m);
    let mid: Seq<char> = match m.n {
        Some(v) => enc_required(m) + ","@ + enc_str("n"@) + ":"@ + enc_array(v),
        None => enc_required(m),
    };
    assert(s =~= "{"@ + mid + "}"@);
    assert(brace_free(enc_required(m))) by {
        lemma_bf_enc_str("sender_id"@);
        lemma_bf_enc_str(m.sender_id);
        lemma_bf_enc_str("receiver_id"@);
        lemma_bf_enc_str(m.receiver_id);
        lemma_bf_enc_str("msg_id"@);
        lemma_bf_enc_str(m.msg_id);
        lemma_bf_enc_str("type"@);
        lemma_bf_enc_str(m.msg_type);
        assert forall|i: int|
            0 <= i < enc_required(m).len() implies enc_required(m)[i] != '{' && enc_required(m)[i]
            != '}' by {
            assert(brace_free(":"@));
            assert(brace_free(","@));
            let r = enc_required(m);
            lemma_bf_concat(enc_str("sender_id"@), ":"@);
            lemma_bf_concat(enc_str("sender_id"@) + ":"@, enc_str(m.sender_id));
            lemma_bf_concat(enc_str("sender_id"@) + ":"@ + enc_str(m.sender_id), ","@);
            let r1 = enc_str("sender_id"@) + ":"@ + enc_str(m.sender_id) + ","@;
            lemma_bf_concat(r1, enc_str("receiver_id"@));
            lemma_bf_concat(r1 + enc_str("receiver_id"@), ":"@);
            lemma_bf_concat(r1 + enc_str("receiver_id"@) + ":"@, enc_str(m.receiver_id));
            lemma_bf_concat(r1 + enc_str("receiver_id"@) + ":"@ + enc_str(m.receiver_id), ","@);
            let r2 = r1 + enc_str("receiver_id"@) + ":"@ + enc_str(m.receiver_id) + ","@;
            lemma_bf_concat(r2, enc_str("msg_id"@));
            lemma_bf_concat(r2 + enc_str("msg_id"@), ":"@);
            lemma_bf_concat(r2 + enc_str("msg_id"@) + ":"@, enc_str(m.msg_id));
            lemma_bf_concat(r2 + enc_str("msg_id"@) + ":"@ + enc_str(m.msg_id), ","@);
            let r3 = r2 + enc_str("msg_id"@) + ":"@ + enc_str(m.msg_id) + ","@;
            lemma_bf_concat(r3, enc_str("type"@));
            lemma_bf_concat(r3 + enc_str("type"@), ":"@);
            lemma_bf_concat(r3 + enc_str("type"@) + ":"@, enc_str(m.msg_type));
        }
    }
    assert(brace_free(mid)) by {
        match m.n {
            Some(v) => {
                lemma_bf_enc_str("n"@);
                lemma_bf_enc_elems(v, 0);
                assert(brace_free("["@ + enc_elems(v, 0))) by {
                    lemma_bf_concat("["@, enc_elems(v, 0));
                }
                assert(brace_free(enc_array(v))) by {
                    lemma_bf_concat("["@ + enc_elems(v, 0), "]"@);
                }
                lemma_bf_concat(enc_required(m), ","@);
                lemma_bf_concat(enc_required(m) + ","@, enc_str("n"@));
                lemma_bf_concat(enc_required(m) + ","@ + enc_str("n"@), ":"@);
                lemma_bf_concat(enc_required(m) + ","@ + enc_str("n"@) + ":"@, enc_array(v));
            },
            None => {},
        }
    }
    assert(s[0] == '{');
    assert(s[s.len() - 1] == '}');
    assert forall|j: int| 0 < j < s.len() - 1 implies s[j] != '{' && s[j] != '}' by {
        assert(s[j] == mid[j - 1]);
    }
}

/// Framing robustness: a buffer holding one well-formed message immediately
/// followed by one malformed piece yields exactly the well-formed message,
/// and the failure stays inside the decoder.
pub proof fn lemma_framing_robust(m: MessageV, bad: Seq<char>)
    requires
        frame_ready(m),
        piece_clean(bad),
        sp_message(bad) is None,
    ensures
        sp_frame(enc_message(m) + bad) == (seq![m], Seq::<char>::empty()),
{
    let e = enc_message(m);
    lemma_enc_piece(m);
    lemma_simple_clean(e);
    let pieces = seq![e, bad];
    assert(cat_pieces(pieces) =~= e + bad) by {
        assert(pieces.drop_first() =~= seq![bad]);
        assert(seq![bad].drop_first() =~= Seq::<Seq<char>>::empty());
        assert(cat_pieces(Seq::<Seq<char>>::empty()) == Seq::<char>::empty());
        assert(cat_pieces(seq![bad]) == bad + cat_pieces(seq![bad].drop_first()));
        assert(bad + Seq::<char>::empty() =~= bad);
    }
    assert(e + bad =~= cat_pieces(pieces) + Seq::<char>::empty());
    lemma_frame_of_pieces(pieces, Seq::<char>::empty());
    lemma_encode_decode(m);
    assert(sp_decode_pieces(pieces) =~= seq![m]) by {
        assert(pieces[0] == e);
        assert(pieces.drop_first() =~= seq![bad]);
        assert(seq![bad][0] == bad);
        assert(seq![bad].drop_first() =~= Seq::<Seq<char>>::empty());
        assert(sp_decode_pieces(Seq::<Seq<char>>::empty()) == Seq::<MessageV>::empty());
        assert(sp_decode_pieces(seq![bad]) == Seq::<MessageV>::empty());
        assert(sp_decode_pieces(pieces) == seq![m] + Seq::<MessageV>::empty());
    }
}

/// Framing idempotence: cut a clean stream anywhere while the pending text
/// still lacks its closing brace, feed the two halves in turn, and the same
/// messages come out in the same order as from one whole pass, with the same
/// remainder.  Applied chunk after chunk this covers feeding one byte at a
/// time.
pub proof fn lemma_framing_incremental(
    front: Seq<Seq<char>>,
    back: Seq<Seq<char>>,
    part: Seq<char>,
    rest: Seq<char>,
    tail: Seq<char>,
)
    requires
        forall|i: int| 0 <= i < front.len() ==> piece_simple(#[trigger] front[i]),
        forall|i: int| 0 <= i < back.len() ==> piece_simple(#[trigger] back[i]),
        no_close(tail),
        no_close(part),
        part + rest == cat_pieces(back) + tail,
    ensures
        ({
            let whole = sp_frame(cat_pieces(front) + part + rest);
            let first = sp_frame(cat_pieces(front) + part);
            let second = sp_frame(first.1 + rest);
            &&& first == (sp_decode_pieces(front), part)
            &&& second == (sp_decode_pieces(back), tail)
            &&& whole == (sp_decode_pieces(front) + sp_decode_pieces(back), tail)
            &&& whole.0 == first.0 + second.0
            &&& whole.1 == second.1
        }),
{
    assert forall|i: int| 0 <= i < front.len() implies piece_clean(#[trigger] front[i]) by {
        lemma_simple_clean(front[i]);
    }
    assert forall|i: int| 0 <= i < back.len() implies piece_clean(#[trigger] back[i]) by {
        lemma_simple_clean(back[i]);
    }
    // the first pass
    if front.len() > 0 {
        lemma_frame_of_pieces(front, part);
    } else {
        assert(cat_pieces(front) + part =~= part);
        lemma_frame_no_close(part);
        assert(sp_decode_pieces(front) == Seq::<MessageV>::empty());
    }
    assert(sp_frame(cat_pieces(front) + part) == (sp_decode_pieces(front), part));
    // the second pass
    assert(part + rest == cat_pieces(back) + tail);
    if back.len() > 0 {
        lemma_frame_of_pieces(back, tail);
    } else {
        assert(cat_pieces(back) + tail =~= tail);
        lemma_frame_no_close(tail);
        assert(sp_decode_pieces(back) == Seq::<MessageV>::empty());
    }
    assert(sp_frame(part + rest) == (sp_decode_pieces(back), tail));
    // the whole pass
    assert(cat_pieces(front) + part + rest =~= cat_pieces(front) + (part + rest));
    assert(cat_pieces(front) + (part + rest) =~= cat_pieces(front) + cat_pieces(back) + tail);
    lemma_cat_split(front, back);
    assert(cat_pieces(front) + cat_pieces(back) + tail =~= cat_pieces(front + back) + tail);
    lemma_decode_pieces_split(front, back);
    if front.len() + back.len() > 0 {
        assert forall|i: int| 0 <= i < (front + back).len() implies piece_clean(
            #[trigger] (front + back)[i],
        ) by {
            if i < front.len() {
                assert((front + back)[i] == front[i]);
            } else {
                assert((front + back)[i] == back[i - front.len()]);
            }
        }
        lemma_frame_of_pieces(front + back, tail);
    } else {
        assert(front + back =~= Seq::<Seq<char>>::empty());
        assert(cat_pieces(front + back) + tail =~= tail);
        lemma_frame_no_close(tail);
        assert(sp_decode_pieces(front + back) == Seq::<MessageV>::empty());
    }
}

/// Framing idempotence at an arbitrary cut: a clean stream may be cut after
/// any `k` whole pieces plus any `c` characters of the next piece (or of the
/// accumulating tail when no piece is left), and feeding the two halves in
/// turn yields the same messages, in the same order, and the same remainder
/// as one pass over the whole stream.  Applied once per boundary this covers
/// feeding one byte at a time.
pub proof fn lemma_framing_cut(pieces: Seq<Seq<char>>, tail: Seq<char>, k: int, c: int)
    requires
        forall|i: int| 0 <= i < pieces.len() ==> piece_simple(#[trigger] pieces[i]),
        no_close(tail),
        0 <= k <= pieces.len(),
        k < pieces.len() ==> 0 <= c < pieces[k].len(),
        k == pieces.len() ==> 0 <= c <= tail.len(),
    ensures
        ({
            let front = pieces.subrange(0, k);
            let back = pieces.subrange(k, pieces.len() as int);
            let part = if k < pieces.len() {
                pieces[k].subrange(0, c)
            } else {
                tail.subrange(0, c)
            };
            let rest = if k < pieces.len() {
                pieces[k].subrange(c, pieces[k].len() as int) + cat_pieces(
                    pieces.subrange(k + 1, pieces.len() as int),
                ) + tail
            } else {
                tail.subrange(c, tail.len() as int)
            };
            let whole = sp_frame(cat_pieces(front) + part + rest);
            let first = sp_frame(cat_pieces(front) + part);
            let second = sp_frame(first.1 + rest);
            &&& cat_pieces(front) + part + rest == cat_pieces(pieces) + tail
            &&& first == (sp_decode_pieces(front), part)
            &&& second == (sp_decode_pieces(back), tail)
            &&& whole.0 == first.0 + second.0
            &&& whole.1 == tail
        }),
{
    let front = pieces.subrange(0, k);
    let back = pieces.subrange(k, pieces.len() as int);
    assert forall|i: int| 0 <= i < front.len() implies piece_simple(#[trigger] front[i]) by {
        assert(front[i] == pieces[i]);
    }
    assert forall|i: int| 0 <= i < back.len() implies piece_simple(#[trigger] back[i]) by {
        assert(back[i] == pieces[k + i]);
    }
    if k < pieces.len() {
        let p = pieces[k];
        let part = p.subrange(0, c);
        let rest = p.subrange(c, p.len() as int) + cat_pieces(
            pieces.subrange(k + 1, pieces.len() as int),
        ) + tail;
        lemma_prefix_no_close(p, c);
        assert(back.drop_first() =~= pieces.subrange(k + 1, pieces.len() as int));
        assert(cat_pieces(back) == back[0] + cat_pieces(back.drop_first()));
        assert(back[0] == p);
        assert(part + rest =~= cat_pieces(back) + tail) by {
            assert(part + p.subrange(c, p.len() as int) =~= p);
        }
        lemma_framing_incremental(front, back, part, rest, tail);
        lemma_cat_split(front, back);
        assert(front + back =~= pieces);
        assert(cat_pieces(front) + part + rest =~= cat_pieces(pieces) + tail);
    } else {
        let part = tail.subrange(0, c);
        let rest = tail.subrange(c, tail.len() as int);
        assert forall|j: int| 0 <= j < part.len() implies part[j] != '}' by {
            assert(part[j] == tail[j]);
        }
        assert(back.len() == 0);
        assert(cat_pieces(back) == Seq::<char>::empty());
        assert(part + rest =~= cat_pieces(back) + tail) by {
            assert(part + rest =~= tail);
        }
        lemma_framing_incremental(front, back, part, rest, tail);
        assert(front =~= pieces);
        assert(cat_pieces(front) + part + rest =~= cat_pieces(pieces) + tail);
    }
}

} // verus!
