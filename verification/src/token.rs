//! Capability tokens: an ordered list of caveats bound to a secret key by a
//! chained MAC, with serialization, issuance, and verification.

use vstd::prelude::*;
use vstd::utf8::encode_utf8;
use crate::bytes::{ct_eq, push_all, push_be32, subvec, read_be32};
use crate::caveat::{Caveat, VerificationContext, caveat_ok};
use crate::crypto::{mac_of, hmac_sha256};
use crate::error::APIError;
use crate::transport::{b64_chars_of, b64_encode, b64_decode};
use crate::wire::{
    TokenData,
    wf_data,
    lp,
    caveats_bytes,
    token_bytes,
    parse_token,
    lemma_caveats_bytes_snoc,
    read_lp,
};

verus! {

/// A signed capability token: location, identifier, ordered caveats with
/// their chain signatures, and the final signature sealing the whole list.
pub struct CapabilityToken {
    /// A hint where the token is usable; not covered by any check.
    pub location: Vec<u8>,
    /// The key namespace the token was minted under.
    pub identifier: Vec<u8>,
    /// The restrictive conditions, in issuance order.
    pub caveats: Vec<Caveat>,
    /// The chain signature after each caveat, in the same order.
    pub caveat_sigs: Vec<Vec<u8>>,
    /// The chain signature after the last caveat.
    pub signature: Vec<u8>,
}

impl CapabilityToken {
    /// The caveat predicates as byte strings.
    pub open spec fn preds(self) -> Seq<Seq<u8>> {
        self.caveats@.map_values(|c: Caveat| c.predicate@)
    }

    /// The per-caveat chain signatures as byte strings.
    pub open spec fn sigs(self) -> Seq<Seq<u8>> {
        self.caveat_sigs@.map_values(|s: Vec<u8>| s@)
    }

    /// The token's mathematical content.
    pub open spec fn data(self) -> TokenData {
        TokenData {
            location: self.location@,
            identifier: self.identifier@,
            preds: self.preds(),
            sigs: self.sigs(),
            signature: self.signature@,
        }
    }

    /// Structural well-formedness: every field fits the wire layout.
    pub open spec fn wf(self) -> bool {
        wf_data(self.data())
    }
}

/// The MAC chain over the caveat list: the seed is `MAC(key, identifier)`,
/// and each caveat extends the chain with `MAC(previous, predicate)`.
pub open spec fn chain_sig(key: Seq<u8>, id: Seq<u8>, preds: Seq<Seq<u8>>) -> Seq<u8>
    decreases preds.len(),
{
    if preds.len() == 0 {
        mac_of(key, id)
    } else {
        mac_of(chain_sig(key, id, preds.drop_last()), preds.last())
    }
}

/// Every stored per-caveat signature equals the recomputed chain value.
pub open spec fn chained(key: Seq<u8>, id: Seq<u8>, preds: Seq<Seq<u8>>, sigs: Seq<Seq<u8>>) -> bool {
    &&& sigs.len() == preds.len()
    &&& forall|i: int|
        0 <= i < preds.len() ==> #[trigger] sigs[i] == chain_sig(key, id, preds.take(i + 1))
}

/// A parsed token is valid under `key` in a context exactly when its whole
/// signature chain checks out and every caveat holds.
pub open spec fn token_data_valid(
    key: Seq<u8>,
    d: TokenData,
    user: Seq<u8>,
    typ: Seq<u8>,
    now: u64,
) -> bool {
    &&& chained(key, d.identifier, d.preds, d.sigs)
    &&& d.signature == chain_sig(key, d.identifier, d.preds)
    &&& forall|i: int| 0 <= i < d.preds.len() ==> caveat_ok(#[trigger] d.preds[i], user, typ, now)
}

/// Validity of raw token bytes: they must parse, and the parsed token must
/// be valid.
pub open spec fn token_bytes_valid(
    key: Seq<u8>,
    b: Seq<u8>,
    user: Seq<u8>,
    typ: Seq<u8>,
    now: u64,
) -> bool {
    match parse_token(b) {
        None => false,
        Some(d) => token_data_valid(key, d, user, typ, now),
    }
}

/// Appends one length-prefixed field.
fn push_lp(out: &mut Vec<u8>, b: &Vec<u8>)
    requires
        b@.len() < 0x100000000,
    ensures
        final(out)@ == old(out)@ + lp(b@),
{
    let m = b.len() as u32;
    push_be32(out, m);
    push_all(out, b);
    proof {
        assert(out@ =~= old(out)@ + lp(b@));
    }
}

/// Serializes a token to the binary wire layout.
pub fn serialize_token(t: &CapabilityToken) -> (r: Vec<u8>)
    requires
        t.wf(),
    ensures
        r@ == token_bytes(t.data()),
{
    let mut out: Vec<u8> = Vec::new();
    push_lp(&mut out, &t.location);
    push_lp(&mut out, &t.identifier);
    push_be32(&mut out, t.caveats.len() as u32);
    let ghost head = lp(t.location@) + lp(t.identifier@) + crate::bytes::be32_of(
        t.preds().len() as u32,
    );
    proof {
        assert(out@ =~= head + caveats_bytes(t.preds().take(0), t.sigs().take(0)));
    }
    let mut i: usize = 0;
    while i < t.caveats.len()
        invariant
            t.wf(),
            0 <= i <= t.caveats@.len(),
            t.caveat_sigs@.len() == t.caveats@.len(),
            out@ == head + caveats_bytes(t.preds().take(i as int), t.sigs().take(i as int)),
        decreases t.caveats@.len() - i,
    {
        proof {
            assert(t.preds()[i as int] == t.caveats@[i as int].predicate@);
            assert(t.preds()[i as int].len() < 0x100000000);
        }
        push_lp(&mut out, &t.caveats[i].predicate);
        push_all(&mut out, &t.caveat_sigs[i]);
        proof {
            lemma_caveats_bytes_snoc(
                t.preds().take(i as int),
                t.sigs().take(i as int),
                t.preds()[i as int],
                t.sigs()[i as int],
            );
            assert(t.preds().take(i as int).push(t.preds()[i as int]) =~= t.preds().take(i + 1));
            assert(t.sigs().take(i as int).push(t.sigs()[i as int]) =~= t.sigs().take(i + 1));
        }
        i = i + 1;
    }
    proof {
        assert(t.preds().take(t.caveats@.len() as int) =~= t.preds());
        assert(t.sigs().take(t.caveats@.len() as int) =~= t.sigs());
    }
    push_all(&mut out, &t.signature);
    proof {
        assert(out@ =~= token_bytes(t.data()));
    }
    out
}

/// Parses the binary wire layout back into a token; any truncation or a
/// trailing-length mismatch fails.
#[verifier::rlimit(80)]
#[verifier::loop_isolation(false)]
pub fn parse_capability_token(b: &Vec<u8>) -> (r: Option<CapabilityToken>)
    ensures
        match r {
            Some(t) => t.wf() && parse_token(b@) == Some(t.data()),
            None => parse_token(b@) is None,
        },
{
    proof {
        assert(b@.skip(0) =~= b@);
    }
    let n = b.len();
    let first = read_lp(b, 0);
    match first {
        None => None,
        Some((location, p1)) => {
            let second = read_lp(b, p1);
            match second {
                None => None,
                Some((identifier, p2)) => {
                    if n - p2 < 4 {
                        return None;
                    }
                    let cnt = read_be32(b, p2);
                    proof {
                        assert(b@.skip(p2 as int).take(4) =~= b@.subrange(p2 as int, p2 + 4));
                        assert(b@.skip(p2 as int).skip(4) =~= b@.skip(p2 + 4));
                    }
                    let mut pos: usize = p2 + 4;
                    let mut cavs: Vec<Caveat> = Vec::new();
                    let mut sigs: Vec<Vec<u8>> = Vec::new();
                    proof {
                        assert(cavs@.map_values(|c: Caveat| c.predicate@) =~= Seq::<Seq<u8>>::empty());
                        assert(sigs@.map_values(|s: Vec<u8>| s@) =~= Seq::<Seq<u8>>::empty());
                    }
                    let mut i: u32 = 0;
                    while i < cnt
                        invariant
                            0 <= i <= cnt,
                            pos <= n,
                            n == b@.len(),
                            cavs@.len() == i,
                            sigs@.len() == i,
                            forall|j: int|
                                0 <= j < i ==> (#[trigger] cavs@[j]).predicate@.len() < 0x100000000
                                    && sigs@[j]@.len() == 32,
                            crate::wire::parse_caveats(
                                b@.skip(p2 + 4),
                                cnt as int,
                                Seq::empty(),
                                Seq::empty(),
                            ) == crate::wire::parse_caveats(
                                b@.skip(pos as int),
                                cnt - i,
                                cavs@.map_values(|c: Caveat| c.predicate@),
                                sigs@.map_values(|s: Vec<u8>| s@),
                            ),
                        decreases cnt - i,
                    {
                        let step = read_lp(b, pos);
                        match step {
                            None => {
                                proof {
                                    assert(crate::wire::parse_caveats(
                                        b@.skip(pos as int),
                                        cnt - i,
                                        cavs@.map_values(|c: Caveat| c.predicate@),
                                        sigs@.map_values(|s: Vec<u8>| s@),
                                    ) is None);
                                }
                                return None;
                            },
                            Some((p, q)) => {
                                if n - q < 32 {
                                    return None;
                                }
                                let sg = subvec(b, q, q + 32);
                                proof {
                                    assert(b@.skip(q as int).take(32) =~= b@.subrange(
                                        q as int,
                                        q + 32,
                                    ));
                                    assert(b@.skip(q as int).skip(32) =~= b@.skip(q + 32));
                                }
                                let ghost oldp = cavs@.map_values(|c: Caveat| c.predicate@);
                                let ghost olds = sigs@.map_values(|s: Vec<u8>| s@);
                                cavs.push(Caveat { predicate: p });
                                sigs.push(sg);
                                proof {
                                    assert(cavs@.map_values(|c: Caveat| c.predicate@) =~= oldp.push(
                                        b@.skip(pos as int).subrange(
                                            4,
                                            4 + crate::bytes::be32_val(
                                                b@.skip(pos as int).take(4),
                                            ) as int,
                                        ),
                                    ));
                                    assert(sigs@.map_values(|s: Vec<u8>| s@) =~= olds.push(
                                        b@.skip(q as int).take(32),
                                    ));
                                }
                                pos = q + 32;
                                i = i + 1;
                            },
                        }
                    }
                    if n - pos != 32 {
                        return None;
                    }
                    let signature = subvec(b, pos, n);
                    proof {
                        assert(signature@ =~= b@.skip(pos as int));
                    }
                    let t = CapabilityToken { location, identifier, caveats: cavs, caveat_sigs: sigs, signature };
                    proof {
                        assert(t.wf());
                        assert(parse_token(b@) == Some(t.data()));
                    }
                    Some(t)
                },
            }
        },
    }
}

/// The bytes of `"key"`, the namespace identifier of issued tokens.
pub open spec fn key_identifier() -> Seq<u8> {
    seq![107u8, 101u8, 121u8]
}

fn key_identifier_bytes() -> (r: Vec<u8>)
    ensures
        r@ == key_identifier(),
{
    let mut v: Vec<u8> = Vec::new();
    v.push(107);
    v.push(101);
    v.push(121);
    proof {
        assert(v@ =~= key_identifier());
    }
    v
}

/// The fixed caveat list of an issued token, in issuance order: subject,
/// purpose, expiry.
pub open spec fn issued_preds(user: Seq<u8>, expiry: nat) -> Seq<Seq<u8>> {
    seq![
        crate::caveat::user_pred(user),
        crate::caveat::type_pred(),
        crate::caveat::time_pred(expiry),
    ]
}

/// The full content of a token issued for `user` under `key`, expiring at
/// `expiry`.
pub open spec fn issued_data(key: Seq<u8>, user: Seq<u8>, expiry: nat) -> TokenData {
    TokenData {
        location: Seq::empty(),
        identifier: key_identifier(),
        preds: issued_preds(user, expiry),
        sigs: Seq::new(
            3,
            |i: int| chain_sig(key, key_identifier(), issued_preds(user, expiry).take(i + 1)),
        ),
        signature: chain_sig(key, key_identifier(), issued_preds(user, expiry)),
    }
}

/// Builds a token for `user_id` under the secret key, carrying the three
/// fixed caveats (subject, purpose, expiry at `now + ttl`). Fails — with a
/// dedicated issuance error, never a panic — when `now + ttl` overflows the
/// representable time range.
pub fn create(macaroon_secret_key: &Vec<u8>, user_id: &Vec<u8>, now: u64, ttl: u64) -> (r: Result<
    CapabilityToken,
    APIError,
>)
    requires
        user_id@.len() <= 0xFFFF,
    ensures
        (r is Ok) == (now + ttl <= u64::MAX),
        r matches Ok(t) ==> t.wf() && t.data() == issued_data(
            macaroon_secret_key@,
            user_id@,
            (now + ttl) as nat,
        ),
        r matches Err(e) ==> e == APIError::IssuanceFailed,
{
    if ttl > u64::MAX - now {
        return Err(APIError::IssuanceFailed);
    }
    let expiry = now + ttl;
    let c0 = crate::caveat::make_user_caveat(user_id);
    let c1 = crate::caveat::make_type_caveat();
    let c2 = crate::caveat::make_time_caveat(expiry);
    let identifier = key_identifier_bytes();
    let location: Vec<u8> = Vec::new();
    let base = hmac_sha256(macaroon_secret_key, &identifier);
    let s0 = hmac_sha256(&base, &c0.predicate);
    let s1 = hmac_sha256(&s0, &c1.predicate);
    let s2 = hmac_sha256(&s1, &c2.predicate);
    // The final signature is the last chain value.
    let signature = crate::bytes::subvec(&s2, 0, s2.len());
    proof {
        assert(signature@ =~= s2@);
    }
    let mut caveats: Vec<Caveat> = Vec::new();
    caveats.push(c0);
    caveats.push(c1);
    caveats.push(c2);
    let mut caveat_sigs: Vec<Vec<u8>> = Vec::new();
    caveat_sigs.push(s0);
    caveat_sigs.push(s1);
    caveat_sigs.push(s2);
    let t = CapabilityToken { location, identifier, caveats, caveat_sigs, signature };
    proof {
        let key = macaroon_secret_key@;
        let ps = issued_preds(user_id@, expiry as nat);
        let d = issued_data(key, user_id@, expiry as nat);
        assert(t.preds() =~= ps);
        assert(chain_sig(key, key_identifier(), Seq::<Seq<u8>>::empty()) == crate::crypto::mac_of(
            key,
            key_identifier(),
        ));
        assert(ps.take(1).drop_last() =~= Seq::<Seq<u8>>::empty());
        assert(ps.take(1).last() == ps[0]);
        assert(ps.take(2).drop_last() =~= ps.take(1));
        assert(ps.take(2).last() == ps[1]);
        assert(ps.take(3).drop_last() =~= ps.take(2));
        assert(ps.take(3).last() == ps[2]);
        assert(ps.take(3) =~= ps);
        assert(chain_sig(key, key_identifier(), ps.take(1)) == crate::crypto::mac_of(
            crate::crypto::mac_of(key, key_identifier()),
            ps[0],
        ));
        assert(chain_sig(key, key_identifier(), ps.take(2)) == crate::crypto::mac_of(
            chain_sig(key, key_identifier(), ps.take(1)),
            ps[1],
        ));
        assert(chain_sig(key, key_identifier(), ps.take(3)) == crate::crypto::mac_of(
            chain_sig(key, key_identifier(), ps.take(2)),
            ps[2],
        ));
        assert(t.sigs()[0] == chain_sig(key, key_identifier(), ps.take(1)));
        assert(t.sigs()[1] == chain_sig(key, key_identifier(), ps.take(2)));
        assert(t.sigs()[2] == chain_sig(key, key_identifier(), ps.take(3)));
        assert(t.signature@ == chain_sig(key, key_identifier(), ps));
        assert(t.sigs() =~= d.sigs);
        assert(t.data() =~= d);
        crate::bytes::lemma_dec_of_len_u64(expiry);
        assert(t.wf());
    }
    Ok(t)
}

/// A transport string is valid exactly when it is the encoding of valid
/// token bytes.
pub open spec fn transport_valid(
    key: Seq<u8>,
    s: Seq<char>,
    user: Seq<u8>,
    typ: Seq<u8>,
    now: u64,
) -> bool {
    exists|b: Seq<u8>| s == b64_chars_of(b) && token_bytes_valid(key, b, user, typ, now)
}

/// Verifies a presented transport token: decodes it, recomputes the whole
/// signature chain under the secret key, and evaluates every caveat against
/// the context. Any failure — malformed encoding, truncated layout, a
/// signature mismatch, or a caveat that does not hold — yields the same
/// opaque `Unauthorized`.
#[verifier::rlimit(80)]
#[verifier::loop_isolation(false)]
pub fn verify(macaroon_secret_key: &Vec<u8>, transport: &str, context: &VerificationContext) -> (r:
    Result<(), APIError>)
    ensures
        (r is Ok) == transport_valid(
            macaroon_secret_key@,
            transport@,
            encode_utf8(context.expected_user_id@),
            encode_utf8(context.expected_type@),
            context.now,
        ),
        r matches Err(e) ==> e == APIError::Unauthorized,
{
    let ghost key = macaroon_secret_key@;
    let ghost user = encode_utf8(context.expected_user_id@);
    let ghost typ = encode_utf8(context.expected_type@);
    let ghost nowg = context.now;
    let decoded = b64_decode(transport);
    match decoded {
        None => {
            proof {
                if transport_valid(key, transport@, user, typ, nowg) {
                    let bw = choose|bw: Seq<u8>|
                        transport@ == b64_chars_of(bw) && token_bytes_valid(
                            key,
                            bw,
                            user,
                            typ,
                            nowg,
                        );
                    assert(false);
                }
            }
            Err(APIError::Unauthorized)
        },
        Some(d) => {
            let parsed = parse_capability_token(&d);
            match parsed {
                None => {
                    proof {
                        if transport_valid(key, transport@, user, typ, nowg) {
                            let bw = choose|bw: Seq<u8>|
                                transport@ == b64_chars_of(bw) && token_bytes_valid(
                                    key,
                                    bw,
                                    user,
                                    typ,
                                    nowg,
                                );
                            assert(bw == d@);
                            assert(false);
                        }
                    }
                    Err(APIError::Unauthorized)
                },
                Some(t) => {
                    let n = t.caveats.len();
                    let mut cur = hmac_sha256(macaroon_secret_key, &t.identifier);
                    proof {
                        assert(t.preds().take(0) =~= Seq::<Seq<u8>>::empty());
                    }
                    let mut i: usize = 0;
                    while i < n
                        invariant
                            0 <= i <= n,
                            cur@ == chain_sig(key, t.identifier@, t.preds().take(i as int)),
                            forall|j: int|
                                0 <= j < i ==> t.sigs()[j] == chain_sig(
                                    key,
                                    t.identifier@,
                                    t.preds().take(j + 1),
                                ),
                        decreases n - i,
                    {
                        proof {
                            assert(t.preds()[i as int] == t.caveats@[i as int].predicate@);
                        }
                        cur = hmac_sha256(&cur, &t.caveats[i].predicate);
                        proof {
                            assert(t.preds().take(i + 1).drop_last() =~= t.preds().take(i as int));
                            assert(t.preds().take(i + 1).last() == t.preds()[i as int]);
                        }
                        let chain_ok = ct_eq(&cur, &t.caveat_sigs[i]);
                        if !chain_ok {
                            proof {
                                assert(t.sigs()[i as int] == t.caveat_sigs@[i as int]@);
                                assert(!chained(key, t.data().identifier, t.data().preds, t.data().sigs));
                                if transport_valid(key, transport@, user, typ, nowg) {
                                    let bw = choose|bw: Seq<u8>|
                                        transport@ == b64_chars_of(bw) && token_bytes_valid(
                                            key,
                                            bw,
                                            user,
                                            typ,
                                            nowg,
                                        );
                                    assert(bw == d@);
                                    assert(false);
                                }
                            }
                            return Err(APIError::Unauthorized);
                        }
                        i = i + 1;
                    }
                    proof {
                        assert(t.preds().take(n as int) =~= t.preds());
                    }
                    let final_ok = ct_eq(&cur, &t.signature);
                    if !final_ok {
                        proof {
                            if transport_valid(key, transport@, user, typ, nowg) {
                                let bw = choose|bw: Seq<u8>|
                                    transport@ == b64_chars_of(bw) && token_bytes_valid(
                                        key,
                                        bw,
                                        user,
                                        typ,
                                        nowg,
                                    );
                                assert(bw == d@);
                                assert(false);
                            }
                        }
                        return Err(APIError::Unauthorized);
                    }
                    let mut k: usize = 0;
                    while k < n
                        invariant
                            0 <= k <= n,
                            forall|j: int|
                                0 <= j < k ==> crate::caveat::caveat_ok(
                                    #[trigger] t.preds()[j],
                                    user,
                                    typ,
                                    nowg,
                                ),
                        decreases n - k,
                    {
                        proof {
                            assert(t.preds()[k as int] == t.caveats@[k as int].predicate@);
                        }
                        let holds = crate::caveat::eval_caveat(&t.caveats[k].predicate, context);
                        if !holds {
                            proof {
                                if transport_valid(key, transport@, user, typ, nowg) {
                                    let bw = choose|bw: Seq<u8>|
                                        transport@ == b64_chars_of(bw) && token_bytes_valid(
                                            key,
                                            bw,
                                            user,
                                            typ,
                                            nowg,
                                        );
                                    assert(bw == d@);
                                    assert(false);
                                }
                            }
                            return Err(APIError::Unauthorized);
                        }
                        k = k + 1;
                    }
                    proof {
                        assert(token_data_valid(key, t.data(), user, typ, nowg));
                        assert(token_bytes_valid(key, d@, user, typ, nowg));
                        assert(transport_valid(key, transport@, user, typ, nowg)) by {
                            assert(transport@ == b64_chars_of(d@) && token_bytes_valid(
                                key,
                                d@,
                                user,
                                typ,
                                nowg,
                            ));
                        }
                    }
                    Ok(())
                },
            }
        },
    }
}

/// Issues a token for `user_id` expiring one hour after `now`, and returns
/// it in transport encoding (base64 of the binary layout). The one-hour
/// budget matches the fixed issuance policy of access tokens.
pub fn create_macaroon(macaroon_secret_key: &Vec<u8>, user_id: &str, now: u64) -> (r: Result<
    String,
    APIError,
>)
    ensures
        (r is Ok) == (now + 3600 <= u64::MAX && encode_utf8(user_id@).len() <= 0xFFFF),
        r matches Ok(s) ==> s@ == b64_chars_of(
            token_bytes(
                issued_data(macaroon_secret_key@, encode_utf8(user_id@), (now + 3600) as nat),
            ),
        ) && (forall|b: Seq<u8>|
            b64_chars_of(b) == s@ ==> b == token_bytes(
                issued_data(macaroon_secret_key@, encode_utf8(user_id@), (now + 3600) as nat),
            )),
        r is Ok ==> wf_data(
            issued_data(macaroon_secret_key@, encode_utf8(user_id@), (now + 3600) as nat),
        ),
        r matches Err(e) ==> e == APIError::IssuanceFailed,
{
    let ub = user_id.as_bytes_vec();
    if ub.len() > 0xFFFF {
        return Err(APIError::IssuanceFailed);
    }
    let t = create(macaroon_secret_key, &ub, now, 3600);
    match t {
        Err(_) => Err(APIError::IssuanceFailed),
        Ok(t) => {
            let bytes = serialize_token(&t);
            Ok(b64_encode(&bytes))
        },
    }
}

/// The issued chain signatures are exactly the recomputed chain.
proof fn lemma_issued_data_chain(key: Seq<u8>, user: Seq<u8>, expiry: u64)
    ensures
        chained(
            key,
            issued_data(key, user, expiry as nat).identifier,
            issued_data(key, user, expiry as nat).preds,
            issued_data(key, user, expiry as nat).sigs,
        ),
        issued_data(key, user, expiry as nat).signature == chain_sig(
            key,
            issued_data(key, user, expiry as nat).identifier,
            issued_data(key, user, expiry as nat).preds,
        ),
{
    let ps = issued_preds(user, expiry as nat);
    assert(ps.take(3) =~= ps);
}

/// The three issued caveats hold together exactly when subject, purpose and
/// clock all match.
proof fn lemma_issued_caveats(
    user: Seq<u8>,
    expiry: u64,
    ctx_user: Seq<u8>,
    ctx_type: Seq<u8>,
    now: u64,
)
    ensures
        (forall|i: int|
            0 <= i < issued_preds(user, expiry as nat).len() ==> crate::caveat::caveat_ok(
                #[trigger] issued_preds(user, expiry as nat)[i],
                ctx_user,
                ctx_type,
                now,
            )) == (ctx_user == user && ctx_type == crate::caveat::access_value() && (now as int)
            < expiry),
{
    let ps = issued_preds(user, expiry as nat);
    crate::caveat::lemma_user_caveat_eval(user, ctx_user, ctx_type, now);
    crate::caveat::lemma_type_caveat_eval(ctx_user, ctx_type, now);
    crate::caveat::lemma_time_caveat_eval(expiry as nat, ctx_user, ctx_type, now);
    if ctx_user == user && ctx_type == crate::caveat::access_value() && (now as int) < expiry {
        assert forall|i: int| 0 <= i < ps.len() implies crate::caveat::caveat_ok(
            #[trigger] ps[i],
            ctx_user,
            ctx_type,
            now,
        ) by {
            if i == 0 {
                assert(ps[i] == crate::caveat::user_pred(user));
            } else if i == 1 {
                assert(ps[i] == crate::caveat::type_pred());
            } else {
                assert(ps[i] == crate::caveat::time_pred(expiry as nat));
            }
        }
    } else {
        if forall|i: int|
            0 <= i < ps.len() ==> crate::caveat::caveat_ok(#[trigger] ps[i], ctx_user, ctx_type, now) {
            assert(crate::caveat::caveat_ok(ps[0], ctx_user, ctx_type, now));
            assert(crate::caveat::caveat_ok(ps[1], ctx_user, ctx_type, now));
            assert(crate::caveat::caveat_ok(ps[2], ctx_user, ctx_type, now));
            assert(false);
        }
    }
}

/// An issued token is valid in a context exactly when the context's
/// subject and purpose match the issuance and its clock reads strictly
/// before the expiry. The premise `wf_data(..)` records that the MAC tags
/// are one tag width wide, which every computed chain satisfies.
pub proof fn lemma_issued_token_valid(
    key: Seq<u8>,
    user: Seq<u8>,
    expiry: u64,
    ctx_user: Seq<u8>,
    ctx_type: Seq<u8>,
    now: u64,
)
    requires
        user.len() <= 0xFFFF,
        wf_data(issued_data(key, user, expiry as nat)),
    ensures
        token_bytes_valid(
            key,
            token_bytes(issued_data(key, user, expiry as nat)),
            ctx_user,
            ctx_type,
            now,
        ) == (ctx_user == user && ctx_type == crate::caveat::access_value() && (now as int)
            < expiry),
{
    let d = issued_data(key, user, expiry as nat);
    crate::wire::lemma_parse_token_roundtrip(d);
    lemma_issued_data_chain(key, user, expiry);
    lemma_issued_caveats(user, expiry, ctx_user, ctx_type, now);
}

/// Round trip: a token issued for a subject verifies in a context whose
/// subject and purpose (`access`) match the issuance and whose clock reads
/// strictly before the expiry — for any subject and any key.
pub proof fn lemma_round_trip(key: Seq<u8>, user: Seq<char>, expiry: u64, now: u64)
    requires
        encode_utf8(user).len() <= 0xFFFF,
        wf_data(issued_data(key, encode_utf8(user), expiry as nat)),
        (now as int) < expiry,
    ensures
        token_bytes_valid(
            key,
            token_bytes(issued_data(key, encode_utf8(user), expiry as nat)),
            encode_utf8(user),
            encode_utf8("access"@),
            now,
        ),
{
    crate::caveat::lemma_access_bytes();
    lemma_issued_token_valid(
        key,
        encode_utf8(user),
        expiry,
        encode_utf8(user),
        crate::caveat::access_value(),
        now,
    );
}

/// Expiry boundary: a token expiring one hour after its creation still
/// verifies one second before the hour is up, and no longer verifies one
/// second after.
pub proof fn lemma_expiry_boundary(key: Seq<u8>, user: Seq<char>, created: u64)
    requires
        encode_utf8(user).len() <= 0xFFFF,
        created + 3601 <= u64::MAX,
        wf_data(issued_data(key, encode_utf8(user), (created + 3600) as nat)),
    ensures
        token_bytes_valid(
            key,
            token_bytes(issued_data(key, encode_utf8(user), (created + 3600) as nat)),
            encode_utf8(user),
            encode_utf8("access"@),
            (created + 3599) as u64,
        ),
        !token_bytes_valid(
            key,
            token_bytes(issued_data(key, encode_utf8(user), (created + 3600) as nat)),
            encode_utf8(user),
            encode_utf8("access"@),
            (created + 3601) as u64,
        ),
{
    crate::caveat::lemma_access_bytes();
    lemma_issued_token_valid(
        key,
        encode_utf8(user),
        (created + 3600) as u64,
        encode_utf8(user),
        crate::caveat::access_value(),
        (created + 3599) as u64,
    );
    lemma_issued_token_valid(
        key,
        encode_utf8(user),
        (created + 3600) as u64,
        encode_utf8(user),
        crate::caveat::access_value(),
        (created + 3601) as u64,
    );
}

/// Cross-subject rejection: a token issued for one subject never verifies
/// in a context that expects a different subject, whatever the clock reads.
pub proof fn lemma_cross_subject(
    key: Seq<u8>,
    subject: Seq<char>,
    expected: Seq<char>,
    expiry: u64,
    now: u64,
)
    requires
        subject != expected,
        encode_utf8(subject).len() <= 0xFFFF,
        wf_data(issued_data(key, encode_utf8(subject), expiry as nat)),
    ensures
        !token_bytes_valid(
            key,
            token_bytes(issued_data(key, encode_utf8(subject), expiry as nat)),
            encode_utf8(expected),
            encode_utf8("access"@),
            now,
        ),
{
    vstd::utf8::encode_utf8_decode_utf8(subject);
    vstd::utf8::encode_utf8_decode_utf8(expected);
    assert(encode_utf8(subject) != encode_utf8(expected));
    crate::caveat::lemma_access_bytes();
    lemma_issued_token_valid(
        key,
        encode_utf8(subject),
        expiry,
        encode_utf8(expected),
        crate::caveat::access_value(),
        now,
    );
}

} // verus!
