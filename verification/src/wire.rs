//! The binary layout of a serialized token and its deterministic parser.
//!
//! Layout: location (length-prefixed), identifier (length-prefixed), caveat
//! count, then each caveat as its predicate (length-prefixed) plus its
//! 32-byte chain signature, and a trailing 32-byte final signature. Length
//! prefixes are big-endian 32-bit. The layout round-trips byte-exactly.

use vstd::prelude::*;
use crate::bytes::{be32_of, be32_val, lemma_be32_roundtrip, read_be32, subvec};

verus! {

/// The mathematical content of a serialized token.
#[verifier::ext_equal]
pub ghost struct TokenData {
    pub location: Seq<u8>,
    pub identifier: Seq<u8>,
    pub preds: Seq<Seq<u8>>,
    pub sigs: Seq<Seq<u8>>,
    pub signature: Seq<u8>,
}

/// What the fixed-width fields of the layout force: each length fits its
/// 32-bit prefix, and every signature is one MAC tag wide.
pub open spec fn wf_data(d: TokenData) -> bool {
    &&& d.location.len() < 0x100000000
    &&& d.identifier.len() < 0x100000000
    &&& d.preds.len() == d.sigs.len()
    &&& d.preds.len() < 0x100000000
    &&& (forall|i: int|
        0 <= i < d.preds.len() ==> (#[trigger] d.preds[i]).len() < 0x100000000 && d.sigs[i].len()
            == 32)
    &&& d.signature.len() == 32
}

/// A length-prefixed field.
pub open spec fn lp(b: Seq<u8>) -> Seq<u8> {
    be32_of(b.len() as u32) + b
}

/// The caveat section: each predicate length-prefixed, then its signature.
pub open spec fn caveats_bytes(preds: Seq<Seq<u8>>, sigs: Seq<Seq<u8>>) -> Seq<u8>
    recommends
        preds.len() == sigs.len(),
    decreases preds.len(),
{
    if preds.len() == 0 {
        Seq::<u8>::empty()
    } else {
        lp(preds[0]) + sigs[0] + caveats_bytes(preds.skip(1), sigs.skip(1))
    }
}

/// The full serialized token.
pub open spec fn token_bytes(d: TokenData) -> Seq<u8> {
    lp(d.location) + lp(d.identifier) + be32_of(d.preds.len() as u32) + caveats_bytes(
        d.preds,
        d.sigs,
    ) + d.signature
}

/// Reads one length-prefixed field; returns it and the remainder.
pub open spec fn parse_lp(b: Seq<u8>) -> Option<(Seq<u8>, Seq<u8>)> {
    if b.len() < 4 {
        None
    } else {
        let n = be32_val(b.take(4)) as int;
        if b.len() < 4 + n {
            None
        } else {
            Some((b.subrange(4, 4 + n), b.skip(4 + n)))
        }
    }
}

/// Reads `n` caveats, accumulating predicates and signatures.
pub open spec fn parse_caveats(
    b: Seq<u8>,
    n: int,
    preds: Seq<Seq<u8>>,
    sigs: Seq<Seq<u8>>,
) -> Option<(Seq<Seq<u8>>, Seq<Seq<u8>>, Seq<u8>)>
    decreases n,
{
    if n <= 0 {
        Some((preds, sigs, b))
    } else {
        match parse_lp(b) {
            None => None,
            Some(pr) => {
                let p = pr.0;
                let rest = pr.1;
                if rest.len() < 32 {
                    None
                } else {
                    parse_caveats(rest.skip(32), n - 1, preds.push(p), sigs.push(rest.take(32)))
                }
            },
        }
    }
}

/// The deterministic parse of a serialized token. The trailing signature
/// must consume the remaining bytes exactly, so the layout is
/// self-delimiting.
pub open spec fn parse_token(b: Seq<u8>) -> Option<TokenData> {
    match parse_lp(b) {
        None => None,
        Some(l) => match parse_lp(l.1) {
            None => None,
            Some(d) => {
                if d.1.len() < 4 {
                    None
                } else {
                    let n = be32_val(d.1.take(4)) as int;
                    match parse_caveats(d.1.skip(4), n, Seq::empty(), Seq::empty()) {
                        None => None,
                        Some(c) => {
                            if c.2.len() == 32 {
                                Some(
                                    TokenData {
                                        location: l.0,
                                        identifier: d.0,
                                        preds: c.0,
                                        sigs: c.1,
                                        signature: c.2,
                                    },
                                )
                            } else {
                                None
                            }
                        },
                    }
                }
            },
        },
    }
}

/// Appending one caveat extends the section at its end.
pub proof fn lemma_caveats_bytes_snoc(preds: Seq<Seq<u8>>, sigs: Seq<Seq<u8>>, p: Seq<u8>, s: Seq<u8>)
    requires
        preds.len() == sigs.len(),
    ensures
        caveats_bytes(preds.push(p), sigs.push(s)) == caveats_bytes(preds, sigs) + lp(p) + s,
    decreases preds.len(),
{
    if preds.len() == 0 {
        assert(preds.push(p)[0] == p);
        assert(sigs.push(s)[0] == s);
        assert(preds =~= Seq::<Seq<u8>>::empty());
        assert(sigs =~= Seq::<Seq<u8>>::empty());
        assert(preds.push(p).skip(1) =~= Seq::<Seq<u8>>::empty());
        assert(sigs.push(s).skip(1) =~= Seq::<Seq<u8>>::empty());
        assert(caveats_bytes(preds.push(p), sigs.push(s)) == lp(p) + s + caveats_bytes(
            Seq::<Seq<u8>>::empty(),
            Seq::<Seq<u8>>::empty(),
        ));
        assert(caveats_bytes(Seq::<Seq<u8>>::empty(), Seq::<Seq<u8>>::empty())
            =~= Seq::<u8>::empty());
        assert(caveats_bytes(preds.push(p), sigs.push(s)) =~= caveats_bytes(preds, sigs) + lp(p)
            + s);
    } else {
        assert(preds.push(p).skip(1) =~= preds.skip(1).push(p));
        assert(sigs.push(s).skip(1) =~= sigs.skip(1).push(s));
        lemma_caveats_bytes_snoc(preds.skip(1), sigs.skip(1), p, s);
        assert(preds.push(p)[0] == preds[0]);
        assert(sigs.push(s)[0] == sigs[0]);
        assert(caveats_bytes(preds.push(p), sigs.push(s)) =~= caveats_bytes(preds, sigs) + lp(p)
            + s);
    }
}

/// A length-prefixed field parses back to itself and the remainder.
pub proof fn lemma_parse_lp(x: Seq<u8>, rest: Seq<u8>)
    requires
        x.len() < 0x100000000,
    ensures
        parse_lp(lp(x) + rest) == Some((x, rest)),
{
    let b = lp(x) + rest;
    lemma_be32_roundtrip(x.len() as u32);
    assert(b.take(4) =~= be32_of(x.len() as u32));
    let n = be32_val(b.take(4)) as int;
    assert(n == x.len());
    assert(b.subrange(4, 4 + n) =~= x);
    assert(b.skip(4 + n) =~= rest);
}

/// The caveat section parses back to its predicates and signatures.
pub proof fn lemma_parse_caveats(
    preds: Seq<Seq<u8>>,
    sigs: Seq<Seq<u8>>,
    rest: Seq<u8>,
    accp: Seq<Seq<u8>>,
    accs: Seq<Seq<u8>>,
)
    requires
        preds.len() == sigs.len(),
        forall|i: int|
            0 <= i < preds.len() ==> (#[trigger] preds[i]).len() < 0x100000000 && sigs[i].len()
                == 32,
    ensures
        parse_caveats(caveats_bytes(preds, sigs) + rest, preds.len() as int, accp, accs) == Some(
            (accp + preds, accs + sigs, rest),
        ),
    decreases preds.len(),
{
    if preds.len() == 0 {
        assert(caveats_bytes(preds, sigs) + rest =~= rest);
        assert(accp + preds =~= accp);
        assert(accs + sigs =~= accs);
    } else {
        let p0 = preds[0];
        let s0 = sigs[0];
        let tail = caveats_bytes(preds.skip(1), sigs.skip(1));
        let b = caveats_bytes(preds, sigs) + rest;
        assert(b =~= lp(p0) + (s0 + tail + rest));
        lemma_parse_lp(p0, s0 + tail + rest);
        let after = s0 + tail + rest;
        assert(after.take(32) =~= s0);
        assert(after.skip(32) =~= tail + rest);
        lemma_parse_caveats(preds.skip(1), sigs.skip(1), rest, accp.push(p0), accs.push(s0));
        assert(accp.push(p0) + preds.skip(1) =~= accp + preds);
        assert(accs.push(s0) + sigs.skip(1) =~= accs + sigs);
    }
}

/// A well-formed token's bytes parse back to exactly that token.
#[verifier::rlimit(100)]
#[verifier::spinoff_prover]
pub proof fn lemma_parse_token_roundtrip(d: TokenData)
    requires
        wf_data(d),
    ensures
        parse_token(token_bytes(d)) == Some(d),
{
    let b = token_bytes(d);
    let tail1 = lp(d.identifier) + be32_of(d.preds.len() as u32) + caveats_bytes(d.preds, d.sigs)
        + d.signature;
    assert(b =~= lp(d.location) + tail1);
    lemma_parse_lp(d.location, tail1);
    assert(parse_lp(b) == Some((d.location, tail1)));
    let tail2 = be32_of(d.preds.len() as u32) + caveats_bytes(d.preds, d.sigs) + d.signature;
    assert(tail1 =~= lp(d.identifier) + tail2);
    lemma_parse_lp(d.identifier, tail2);
    assert(parse_lp(tail1) == Some((d.identifier, tail2)));
    lemma_be32_roundtrip(d.preds.len() as u32);
    assert(tail2.take(4) =~= be32_of(d.preds.len() as u32));
    let n = be32_val(tail2.take(4)) as int;
    assert(n == d.preds.len());
    assert(tail2.len() >= 4);
    assert(tail2.skip(4) =~= caveats_bytes(d.preds, d.sigs) + d.signature);
    lemma_parse_caveats(d.preds, d.sigs, d.signature, Seq::empty(), Seq::empty());
    assert(Seq::empty() + d.preds =~= d.preds);
    assert(Seq::empty() + d.sigs =~= d.sigs);
    assert(parse_caveats(tail2.skip(4), n, Seq::empty(), Seq::empty()) == Some(
        (d.preds, d.sigs, d.signature),
    ));
    assert(d.signature.len() == 32);
    let built = TokenData {
        location: d.location,
        identifier: d.identifier,
        preds: d.preds,
        sigs: d.sigs,
        signature: d.signature,
    };
    assert(parse_token(b) == Some(built));
    assert(built =~= d);
}

/// Reads one length-prefixed field of `b` starting at `pos`; returns the
/// field and the position after it.
pub fn read_lp(b: &Vec<u8>, pos: usize) -> (r: Option<(Vec<u8>, usize)>)
    requires
        pos <= b@.len(),
    ensures
        match r {
            Some(vq) => pos <= vq.1 <= b@.len() && parse_lp(b@.skip(pos as int)) == Some(
                (vq.0@, b@.skip(vq.1 as int)),
            ),
            None => parse_lp(b@.skip(pos as int)) is None,
        },
{
    let n = b.len();
    let s = Ghost(b@.skip(pos as int));
    if n - pos < 4 {
        return None;
    }
    let m = read_be32(b, pos);
    proof {
        assert(s@.take(4) =~= b@.subrange(pos as int, pos + 4));
    }
    let mlen = m as usize;
    if n - pos - 4 < mlen {
        return None;
    }
    let v = subvec(b, pos + 4, pos + 4 + mlen);
    proof {
        assert(v@ =~= s@.subrange(4, 4 + m as int));
        assert(b@.skip((pos + 4 + mlen) as int) =~= s@.skip(4 + m as int));
    }
    Some((v, pos + 4 + mlen))
}

} // verus!
