use vstd::prelude::*;

verus! {

/// The unsigned value of `s`, most significant byte first.
pub open spec fn be_value(s: Seq<u8>) -> nat
    decreases s.len(),
{
    if s.len() == 0 {
        0
    } else {
        be_value(s.drop_last()) * 256 + s.last() as nat
    }
}

/// `256` raised to `n`.
pub open spec fn pow256(n: nat) -> nat
    decreases n,
{
    if n == 0 {
        1
    } else {
        256 * pow256((n - 1) as nat)
    }
}

pub proof fn lemma_be_value_bound(s: Seq<u8>)
    ensures
        be_value(s) < pow256(s.len()),
    decreases s.len(),
{
    if s.len() > 0 {
        let p = s.drop_last();
        lemma_be_value_bound(p);
        let a = be_value(p);
        let q = pow256(p.len());
        assert(a * 256 + (s.last() as nat) < q * 256) by (nonlinear_arith)
            requires
                a < q,
                s.last() < 256,
        ;
    }
}

pub proof fn lemma_be_value_two(a: u8, b: u8)
    ensures
        be_value(seq![a, b]) == a as nat * 256 + b as nat,
{
    let s1 = seq![a];
    assert(s1.drop_last() =~= Seq::<u8>::empty());
    assert(be_value(Seq::<u8>::empty()) == 0);
    assert(s1.last() == a);
    assert(be_value(s1) == a as nat);
    assert(seq![a, b].drop_last() =~= s1);
}

pub proof fn lemma_be_value_four(a: u8, b: u8, c: u8, d: u8)
    ensures
        be_value(seq![a, b, c, d]) == ((a as nat * 256 + b as nat) * 256 + c as nat) * 256
            + d as nat,
{
    lemma_be_value_two(a, b);
    assert(seq![a, b, c].drop_last() =~= seq![a, b]);
    assert(be_value(seq![a, b, c]) == (a as nat * 256 + b as nat) * 256 + c as nat);
    assert(seq![a, b, c, d].drop_last() =~= seq![a, b, c]);
}

/// Folds a short byte sequence into an unsigned integer, most significant
/// byte first. At most four bytes are folded, so the value fits any `usize`.
pub trait Collate: Sized {
    spec fn collated_bytes(&self) -> Seq<u8>;

    fn collate(self) -> (r: usize)
        requires
            self.collated_bytes().len() <= 4,
        ensures
            r as nat == be_value(self.collated_bytes()),
    ;
}

fn fold_bytes(s: &[u8]) -> (r: usize)
    requires
        s@.len() <= 4,
    ensures
        r as nat == be_value(s@),
{
    let mut acc: usize = 0;
    let mut i: usize = 0;
    while i < s.len()
        invariant
            i <= s@.len() <= 4,
            acc as nat == be_value(s@.subrange(0, i as int)),
        decreases s@.len() - i,
    {
        proof {
            let p = s@.subrange(0, i as int);
            lemma_be_value_bound(p);
            assert(pow256(0) == 1 && pow256(1) == 256 && pow256(2) == 65536 && pow256(3)
                == 16777216) by {
                reveal_with_fuel(pow256, 4);
            }
            assert(p.len() == 0 || p.len() == 1 || p.len() == 2 || p.len() == 3);
            assert(acc < 16777216);
            assert(s@.subrange(0, i + 1).drop_last() =~= p);
        }
        acc = acc * 256 + s[i] as usize;
        i = i + 1;
    }
    assert(s@.subrange(0, i as int) =~= s@);
    acc
}

impl<'a> Collate for &'a [u8] {
    open spec fn collated_bytes(&self) -> Seq<u8> {
        self@
    }

    fn collate(self) -> (r: usize) {
        fold_bytes(self)
    }
}

impl<const N: usize> Collate for [u8; N] {
    open spec fn collated_bytes(&self) -> Seq<u8> {
        self@
    }

    fn collate(self) -> (r: usize) {
        fold_bytes(self.as_slice())
    }
}

} // verus!
