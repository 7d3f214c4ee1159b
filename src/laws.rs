use vstd::prelude::*;

use crate::parser::{chars_of, domain_at, dotted, name_at, pointer_target, MAX_POINTER_JUMPS};
use crate::query::{encode_from, encoded_name, label_field};

verus! {

/// Whether the two bytes at `pos` are a compression pointer to `target`.
pub open spec fn pointer_to(buf: Seq<u8>, pos: int, target: int) -> bool {
    0 <= pos && pos + 2 <= buf.len() && buf[pos] >= 0xC0 && pointer_target(buf[pos], buf[pos + 1])
        == target
}

/// Allowing more pointer jumps does not change a name that already decodes.
pub proof fn lemma_more_jumps(buf: Seq<u8>, pos: int, j: nat)
    requires
        name_at(buf, pos, j) is Some,
    ensures
        name_at(buf, pos, j + 1) == name_at(buf, pos, j),
    decreases j, buf.len() - pos,
{
    if buf[pos] == 0 {
    } else if buf[pos] >= 0xC0 {
        lemma_more_jumps(buf, pointer_target(buf[pos], buf[pos + 1]), (j - 1) as nat);
    } else {
        lemma_more_jumps(buf, pos + 1 + buf[pos] as int, j);
    }
}

proof fn lemma_more_jumps_to(buf: Seq<u8>, pos: int, j: nat, k: nat)
    requires
        name_at(buf, pos, j) is Some,
        j <= k,
    ensures
        name_at(buf, pos, k) == name_at(buf, pos, j),
    decreases k - j,
{
    if j < k {
        lemma_more_jumps(buf, pos, j);
        lemma_more_jumps_to(buf, pos, j + 1, k);
    }
}

/// A name reached through a compression pointer decodes to the same name as
/// the inline name it points to, and decoding ends just past the pointer's
/// two bytes, not past the name pointed to.
pub proof fn lemma_pointer_decodes_as_target(buf: Seq<u8>, p: int, t: int)
    requires
        pointer_to(buf, p, t),
        name_at(buf, t, 0) is Some,
    ensures
        domain_at(buf, t) is Some,
        domain_at(buf, p) == Some((domain_at(buf, t)->Some_0.0, p + 2)),
{
    lemma_more_jumps_to(buf, t, 0, (MAX_POINTER_JUMPS - 1) as nat);
    lemma_more_jumps_to(buf, t, 0, MAX_POINTER_JUMPS as nat);
}

/// Two compression pointers that lead to each other never decode, however
/// many jumps are allowed: the cycle ends in a failure.
pub proof fn lemma_pointer_cycle_fails(buf: Seq<u8>, a: int, b: int, j: nat)
    requires
        pointer_to(buf, a, b),
        pointer_to(buf, b, a),
    ensures
        name_at(buf, a, j) is None,
        name_at(buf, b, j) is None,
    decreases j,
{
    if j > 0 {
        lemma_pointer_cycle_fails(buf, a, b, (j - 1) as nat);
    }
}

/// A name at a pointer that leads to another pointer back to it is refused.
pub proof fn lemma_pointer_cycle_malformed(buf: Seq<u8>, a: int, b: int)
    requires
        pointer_to(buf, a, b),
        pointer_to(buf, b, a),
    ensures
        domain_at(buf, a) is None,
{
    lemma_pointer_cycle_fails(buf, a, b, MAX_POINTER_JUMPS as nat);
}

/// Whether the dotted text `s`, whose current segment so far has `seg_len`
/// bytes, splits into segments of 1 to 63 bytes: no empty segment, no
/// leading or trailing dot.
pub open spec fn well_formed_from(s: Seq<u8>, seg_len: nat) -> bool
    decreases s.len(),
{
    if s.len() == 0 {
        1 <= seg_len <= 63
    } else if s[0] == 46 {
        1 <= seg_len <= 63 && well_formed_from(s.drop_first(), 0)
    } else {
        seg_len < 63 && well_formed_from(s.drop_first(), seg_len + 1)
    }
}

/// Whether the bytes `s` are a dotted name whose labels all have 1 to 63 bytes.
pub open spec fn well_formed_name(s: Seq<u8>) -> bool {
    well_formed_from(s, 0)
}

proof fn lemma_dotted_prepend(l: Seq<u8>, ls: Seq<Seq<u8>>)
    requires
        ls.len() >= 1,
    ensures
        dotted(seq![l] + ls) == l + seq![46u8] + dotted(ls),
    decreases ls.len(),
{
    let all = seq![l] + ls;
    assert(all.last() == ls.last());
    if ls.len() == 1 {
        assert(all.drop_last() =~= seq![l]);
        assert(dotted(seq![l]) == l);
        assert(dotted(ls) == ls[0]);
    } else {
        assert(all.drop_last() =~= seq![l] + ls.drop_last());
        lemma_dotted_prepend(l, ls.drop_last());
        assert(dotted(ls) == dotted(ls.drop_last()) + seq![46u8] + ls.last());
        assert(dotted(all) == dotted(seq![l] + ls.drop_last()) + seq![46u8] + ls.last());
        assert(l + seq![46u8] + dotted(ls.drop_last()) + seq![46u8] + ls.last() =~= l + seq![
            46u8,
        ] + dotted(ls));
    }
}

proof fn lemma_encoding_decodes(buf: Seq<u8>, p: int, s: Seq<u8>, seg: Seq<u8>, j: nat)
    requires
        well_formed_from(s, seg.len()),
        forall|k: int| 0 <= k < seg.len() ==> seg[k] != 46,
        0 <= p,
        p + encode_from(s, seg).len() <= buf.len(),
        buf.subrange(p, p + encode_from(s, seg).len()) == encode_from(s, seg),
    ensures
        name_at(buf, p, j) is Some,
        name_at(buf, p, j)->Some_0.0.len() >= 1,
        dotted(name_at(buf, p, j)->Some_0.0) == seg + s,
        name_at(buf, p, j)->Some_0.1 == p + encode_from(s, seg).len(),
    decreases s.len(),
{
    let e = encode_from(s, seg);
    if s.len() == 0 {
        let n = seg.len() as int;
        assert(e =~= seq![seg.len() as u8] + seg + seq![0u8]);
        assert(buf[p] == e[0]);
        assert(buf[p + 1 + n] == e[1 + n]);
        assert(buf.subrange(p + 1, p + 1 + n) =~= seg) by {
            assert forall|k: int| 0 <= k < n implies buf.subrange(p + 1, p + 1 + n)[k] == seg[k] by {
                assert(buf[p + 1 + k] == e[1 + k]);
            }
        }
        assert(seg.len() as u8 == seg.len());
        assert(name_at(buf, p + 1 + n, j) == Some((Seq::<Seq<u8>>::empty(), p + 2 + n)));
        assert(seq![seg] + Seq::<Seq<u8>>::empty() =~= seq![seg]);
        assert(dotted(seq![seg]) == seg);
        assert(seg + s =~= seg);
    } else if s[0] == 46 {
        let n = seg.len() as int;
        let rest = s.drop_first();
        let tail = encode_from(rest, Seq::empty());
        assert(e == label_field(seg) + tail);
        assert(e =~= seq![seg.len() as u8] + seg + tail);
        assert(buf.subrange(p + 1 + n, p + 1 + n + tail.len()) =~= tail) by {
            assert forall|k: int| 0 <= k < tail.len() implies buf.subrange(
                p + 1 + n,
                p + 1 + n + tail.len(),
            )[k] == tail[k] by {
                assert(buf[p + 1 + n + k] == e[1 + n + k]);
            }
        }
        assert(buf.subrange(p + 1, p + 1 + n) =~= seg) by {
            assert forall|k: int| 0 <= k < n implies buf.subrange(p + 1, p + 1 + n)[k] == seg[k] by {
                assert(buf[p + 1 + k] == e[1 + k]);
            }
        }
        assert(buf[p] == e[0]);
        assert(seg.len() as u8 == seg.len());
        lemma_encoding_decodes(buf, p + 1 + n, rest, Seq::empty(), j);
        let r = name_at(buf, p + 1 + n, j)->Some_0;
        assert(Seq::<u8>::empty() + rest =~= rest);
        lemma_dotted_prepend(seg, r.0);
        assert(seg + s =~= seg + seq![46u8] + rest);
    } else {
        let rest = s.drop_first();
        let longer = seg.push(s[0]);
        assert(e == encode_from(rest, longer));
        lemma_encoding_decodes(buf, p, rest, longer, j);
        assert(longer + rest =~= seg + s);
    }
}

/// Decoding the encoding of a well-formed dotted name gives the name back,
/// and decoding ends exactly at the end of the encoding.
pub proof fn lemma_name_round_trip(s: Seq<u8>)
    requires
        well_formed_name(s),
    ensures
        domain_at(encoded_name(s), 0) == Some((chars_of(s), encoded_name(s).len() as int)),
{
    let e = encoded_name(s);
    assert(e.subrange(0, e.len() as int) =~= e);
    lemma_encoding_decodes(e, 0, s, Seq::empty(), MAX_POINTER_JUMPS as nat);
    assert(Seq::<u8>::empty() + s =~= s);
}

} // verus!
