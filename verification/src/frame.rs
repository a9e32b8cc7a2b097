//! The frame decoder: cuts an accumulated byte-stream buffer back into
//! complete messages.
//!
//! The stream carries JSON objects with no delimiter.  Everything up to and
//! including the last closing brace is the complete region; the rest is kept
//! for the next call.  The complete region is split wherever a closing brace
//! is immediately followed by an opening brace, the missing brace is put back
//! on each side, and every piece is decoded on its own; a piece that fails to
//! decode is dropped so that one malformed message cannot block the others.
//! The split is not brace-depth aware: the protocol's guarantee that ids are
//! alphanumeric (so no string value contains a brace) is what makes it sound.

use vstd::prelude::*;

use crate::messages::Message;
use crate::messages::MessageV;
use crate::codec::sp_message;
use crate::codec::decode_message;

verus! {

/// Position of the last closing brace, if any.
pub open spec fn sp_last_close(s: Seq<char>) -> Option<int>
    decreases s.len(),
{
    if s.len() == 0 {
        None
    } else if s[s.len() - 1] == '}' {
        Some(s.len() - 1)
    } else {
        sp_last_close(s.drop_last())
    }
}

/// What `sp_last_close` finds: the last closing brace, or nothing.
pub proof fn lemma_last_close_char(s: Seq<char>)
    ensures
        match sp_last_close(s) {
            Some(p) => 0 <= p < s.len() && s[p] == '}' && forall|j: int|
                p < j < s.len() ==> s[j] != '}',
            None => forall|j: int| 0 <= j < s.len() ==> s[j] != '}',
        },
    decreases s.len(),
{
    if s.len() > 0 && s[s.len() - 1] != '}' {
        lemma_last_close_char(s.drop_last());
        assert forall|j: int| 0 <= j < s.len() - 1 implies s.drop_last()[j] == s[j] by {}
        match sp_last_close(s.drop_last()) {
            Some(p) => {
                assert(s[p] == '}');
                assert forall|j: int| p < j < s.len() implies s[j] != '}' by {
                    if j < s.len() - 1 {
                        assert(s.drop_last()[j] != '}');
                    }
                }
            },
            None => {
                assert forall|j: int| 0 <= j < s.len() implies s[j] != '}' by {
                    if j < s.len() - 1 {
                        assert(s.drop_last()[j] != '}');
                    }
                }
            },
        }
    }
}

/// First position at or after `i` where a closing brace is immediately
/// followed by an opening brace.
pub open spec fn sp_find_splice(s: Seq<char>, i: int) -> Option<int>
    decreases s.len() - i,
{
    if !(0 <= i && i + 1 < s.len()) {
        None
    } else if s[i] == '}' && s[i + 1] == '{' {
        Some(i)
    } else {
        sp_find_splice(s, i + 1)
    }
}

pub proof fn lemma_find_splice_bounds(s: Seq<char>, i: int)
    ensures
        match sp_find_splice(s, i) {
            Some(j) => i <= j && 0 <= j && j + 1 < s.len() && s[j] == '}' && s[j + 1] == '{',
            None => true,
        },
    decreases s.len() - i,
{
    if 0 <= i && i + 1 < s.len() && !(s[i] == '}' && s[i + 1] == '{') {
        lemma_find_splice_bounds(s, i + 1);
    }
}

/// The pieces of the complete region: split at each splice point, with the
/// missing brace put back on each side.
pub open spec fn sp_pieces(v: Seq<char>) -> Seq<Seq<char>>
    decreases v.len(),
    via sp_pieces_dec
{
    match sp_find_splice(v, 0) {
        None => seq![v],
        Some(j) => seq![v.subrange(0, j + 1)] + sp_pieces(
            seq!['{'] + v.subrange(j + 2, v.len() as int),
        ),
    }
}

#[via_fn]
proof fn sp_pieces_dec(v: Seq<char>) {
    lemma_find_splice_bounds(v, 0);
}

/// Decoding each piece on its own, dropping the ones that fail.
pub open spec fn sp_decode_pieces(pieces: Seq<Seq<char>>) -> Seq<MessageV>
    decreases pieces.len(),
{
    if pieces.len() == 0 {
        Seq::empty()
    } else {
        match sp_message(pieces[0]) {
            Some(m) => seq![m] + sp_decode_pieces(pieces.drop_first()),
            None => sp_decode_pieces(pieces.drop_first()),
        }
    }
}

/// What one decode pass over a buffer yields: the decoded messages of the
/// complete region and the unparsed remainder.
pub open spec fn sp_frame(s: Seq<char>) -> (Seq<MessageV>, Seq<char>) {
    match sp_last_close(s) {
        None => (Seq::empty(), s),
        Some(p) => (
            sp_decode_pieces(sp_pieces(s.subrange(0, p + 1))),
            s.subrange(p + 1, s.len() as int),
        ),
    }
}

fn find_last_close(s: &str) -> (r: Option<usize>)
    ensures
        match r {
            Some(p) => sp_last_close(s@) == Some(p as int) && p < s@.len(),
            None => sp_last_close(s@) is None,
        },
{
    let mut i = s.unicode_len();
    while i > 0
        invariant
            i <= s@.len(),
            forall|j: int| i <= j < s@.len() ==> s@[j] != '}',
        decreases i,
    {
        if s.get_char(i - 1) == '}' {
            proof {
                lemma_last_close_char(s@);
                match sp_last_close(s@) {
                    Some(p) => {
                        if p < i - 1 {
                            assert(s@[i - 1] != '}');
                        }
                        if p > i - 1 {
                            assert(s@[p] != '}');
                        }
                    },
                    None => {
                        assert(s@[i - 1] != '}');
                    },
                }
            }
            return Some(i - 1);
        }
        i -= 1;
    }
    proof {
        lemma_last_close_char(s@);
        match sp_last_close(s@) {
            Some(p) => {
                assert(s@[p] != '}');
            },
            None => {},
        }
    }
    None
}

fn find_splice(s: &str, i0: usize) -> (r: Option<usize>)
    requires
        i0 <= s@.len(),
    ensures
        match r {
            Some(j) => sp_find_splice(s@, i0 as int) == Some(j as int) && i0 <= j && j + 1
                < s@.len(),
            None => sp_find_splice(s@, i0 as int) is None,
        },
{
    let len = s.unicode_len();
    let mut i = i0;
    while i < len
        invariant
            i0 <= i <= len,
            len == s@.len(),
            sp_find_splice(s@, i0 as int) == sp_find_splice(s@, i as int),
        decreases len - i,
    {
        if i + 1 >= len {
            return None;
        }
        if s.get_char(i) == '}' && s.get_char(i + 1) == '{' {
            return Some(i);
        }
        i += 1;
    }
    None
}

/// Decodes every piece of the complete region, appending the messages that
/// decode to `out` in stream order.
fn split_decode(cur: &str, out: &mut Vec<Message>)
    ensures
        final(out).deep_view() == old(out).deep_view() + sp_decode_pieces(sp_pieces(cur@)),
    decreases cur@.len(),
{
    let ghost prev = out.deep_view();
    match find_splice(cur, 0) {
        None => {
            match decode_message(cur) {
                Some(m) => {
                    let ghost mv = m@;
                    out.push(m);
                    proof {
                        assert(sp_pieces(cur@) == seq![cur@]);
                        assert(seq![cur@].drop_first() =~= Seq::<Seq<char>>::empty());
                        assert(sp_decode_pieces(Seq::<Seq<char>>::empty()) == Seq::<MessageV>::empty());
                        assert(sp_decode_pieces(seq![cur@]) =~= seq![mv]);
                        assert(out.deep_view() =~= prev + seq![mv]);
                    }
                },
                None => {
                    proof {
                        assert(sp_pieces(cur@) == seq![cur@]);
                        assert(seq![cur@].drop_first() =~= Seq::<Seq<char>>::empty());
                        assert(sp_decode_pieces(Seq::<Seq<char>>::empty()) == Seq::<MessageV>::empty());
                        assert(sp_decode_pieces(seq![cur@]) =~= Seq::<MessageV>::empty());
                        assert(out.deep_view() =~= prev + sp_decode_pieces(sp_pieces(cur@)));
                    }
                },
            }
        },
        Some(j) => {
            let len = cur.unicode_len();
            let piece = cur.substring_char(0, j + 1);
            let rest_src = cur.substring_char(j + 2, len);
            let mut rest = String::from_str("{");
            rest.append(rest_src);
            proof {
                reveal_strlit("{");
                assert("{"@ =~= seq!['{']);
                assert(rest@ =~= seq!['{'] + cur@.subrange(j + 2, cur@.len() as int));
            }
            match decode_message(piece) {
                Some(m) => {
                    let ghost mv = m@;
                    out.push(m);
                    proof {
                        assert(out.deep_view() =~= prev + seq![mv]);
                    }
                },
                None => {},
            }
            split_decode(rest.as_str(), out);
            proof {
                let piece_v = cur@.subrange(0, j + 1);
                let ps = sp_pieces(cur@);
                assert(ps == seq![piece_v] + sp_pieces(rest@));
                assert(ps[0] == piece_v);
                assert(ps.drop_first() =~= sp_pieces(rest@));
                let tail = sp_decode_pieces(sp_pieces(rest@));
                match sp_message(piece_v) {
                    Some(mv) => {
                        assert(sp_decode_pieces(ps) == seq![mv] + sp_decode_pieces(
                            ps.drop_first(),
                        ));
                        assert(out.deep_view() =~= (prev + seq![mv]) + tail);
                        assert((prev + seq![mv]) + tail =~= prev + (seq![mv] + tail));
                    },
                    None => {
                        assert(sp_decode_pieces(ps) == sp_decode_pieces(ps.drop_first()));
                    },
                }
            }
        },
    }
}

/// One decode pass: the decoded messages of the complete region, in order,
/// and the remainder that is still accumulating.  Pure: the caller keeps the
/// remainder and appends the next read to it.
pub fn decode_frames(buffer: &str) -> (r: (Vec<Message>, String))
    ensures
        r.0.deep_view() == sp_frame(buffer@).0,
        r.1@ == sp_frame(buffer@).1,
{
    match find_last_close(buffer) {
        None => {
            let v: Vec<Message> = Vec::new();
            proof {
                assert(v.deep_view() =~= Seq::<MessageV>::empty());
            }
            (v, buffer.to_owned())
        },
        Some(p) => {
            let len = buffer.unicode_len();
            let valid = buffer.substring_char(0, p + 1);
            let rem = buffer.substring_char(p + 1, len).to_owned();
            let mut out: Vec<Message> = Vec::new();
            proof {
                assert(out.deep_view() =~= Seq::<MessageV>::empty());
            }
            split_decode(valid, &mut out);
            proof {
                assert(out.deep_view() =~= sp_frame(buffer@).0);
            }
            (out, rem)
        },
    }
}

/// The mutable byte accumulator of the stream: owns the undecoded remainder
/// between reads.
pub struct FrameBuffer {
    pub data: String,
}

impl FrameBuffer {
    pub fn new() -> (r: FrameBuffer)
        ensures
            r.data@ == Seq::<char>::empty(),
    {
        FrameBuffer { data: String::new() }
    }

    /// Appends freshly read text and decodes what is now complete.  The
    /// buffer shrinks to the unparsed remainder.
    pub fn feed(&mut self, chunk: &str) -> (msgs: Vec<Message>)
        ensures
            ({
                let s = old(self).data@ + chunk@;
                msgs.deep_view() == sp_frame(s).0 && final(self).data@ == sp_frame(s).1
            }),
    {
        self.data.append(chunk);
        let (msgs, rem) = decode_frames(self.data.as_str());
        self.data = rem;
        msgs
    }
}

} // verus!
