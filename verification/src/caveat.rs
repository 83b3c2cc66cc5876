//! Caveats: the named conditions embedded in a capability token.
//!
//! A caveat is an opaque comparison expressed as text (`key = value`,
//! `key < value`). The library issues exactly three kinds — subject
//! (`user_id = ...`), purpose (`type = access`) and expiry
//! (`time < ...`) — and evaluates a presented caveat by parsing it into
//! that closed set; anything unrecognized fails closed.

use vstd::prelude::*;
use vstd::utf8::encode_utf8;
use vstd::string::StrSliceExecFns;
use crate::bytes::{all_digits, dec_val, dec_of, dec_exceeds, ct_eq, subvec, render_dec};

verus! {

/// A single named condition attached to a token; immutable once created.
pub struct Caveat {
    /// The comparison, as bytes of its canonical text.
    pub predicate: Vec<u8>,
}

/// The context a presented token is checked against.
pub struct VerificationContext {
    /// The subject the request claims to act as.
    pub expected_user_id: String,
    /// The purpose the request needs the token for.
    pub expected_type: String,
    /// The wall-clock reading at verification, in seconds.
    pub now: u64,
}

/// The bytes of `"user_id"`.
pub open spec fn user_id_key() -> Seq<u8> {
    seq![117u8, 115u8, 101u8, 114u8, 95u8, 105u8, 100u8]
}

/// The bytes of `"type"`.
pub open spec fn type_key() -> Seq<u8> {
    seq![116u8, 121u8, 112u8, 101u8]
}

/// The bytes of `"time"`.
pub open spec fn time_key() -> Seq<u8> {
    seq![116u8, 105u8, 109u8, 101u8]
}

/// The bytes of `"access"`.
pub open spec fn access_value() -> Seq<u8> {
    seq![97u8, 99u8, 99u8, 101u8, 115u8, 115u8]
}

/// The bytes of `" = "`.
pub open spec fn eq_sep() -> Seq<u8> {
    seq![32u8, 61u8, 32u8]
}

/// The bytes of `" < "`.
pub open spec fn lt_sep() -> Seq<u8> {
    seq![32u8, 60u8, 32u8]
}

/// The subject caveat: `user_id = <user>`.
pub open spec fn user_pred(user: Seq<u8>) -> Seq<u8> {
    user_id_key() + eq_sep() + user
}

/// The purpose caveat: `type = access`.
pub open spec fn type_pred() -> Seq<u8> {
    type_key() + eq_sep() + access_value()
}

/// The expiry caveat: `time < <expiry>`, with the instant in canonical
/// decimal seconds.
pub open spec fn time_pred(expiry: nat) -> Seq<u8> {
    time_key() + lt_sep() + dec_of(expiry)
}

/// A three-byte comparison separator (space, `=` or `<`, space) starts at `i`.
pub open spec fn is_sep_at(s: Seq<u8>, i: int) -> bool {
    &&& 0 <= i
    &&& i + 3 <= s.len()
    &&& s[i] == 32
    &&& (s[i + 1] == 61 || s[i + 1] == 60)
    &&& s[i + 2] == 32
}

/// The position of the leftmost separator at or after `i`, if any.
pub open spec fn find_sep_from(s: Seq<u8>, i: int) -> Option<int>
    recommends
        0 <= i,
    decreases s.len() - i,
{
    if i < 0 || i + 3 > s.len() {
        None
    } else if is_sep_at(s, i) {
        Some(i)
    } else {
        find_sep_from(s, i + 1)
    }
}

pub open spec fn find_sep(s: Seq<u8>) -> Option<int> {
    find_sep_from(s, 0)
}

/// Whether a presented caveat holds in a context. The text is split at its
/// leftmost separator; an unknown key, a wrong comparison operator, or no
/// separator at all fails closed.
pub open spec fn caveat_ok(pred: Seq<u8>, user: Seq<u8>, typ: Seq<u8>, now: u64) -> bool {
    match find_sep(pred) {
        None => false,
        Some(i) => {
            let key = pred.take(i);
            let op = pred[i + 1];
            let value = pred.skip(i + 3);
            if key == user_id_key() && op == 61 {
                value == user
            } else if key == type_key() && op == 61 {
                value == typ
            } else if key == time_key() && op == 60 {
                value.len() > 0 && all_digits(value) && (now as int) < dec_val(value)
            } else {
                false
            }
        },
    }
}

/// The purpose string `"access"` encodes to exactly the purpose caveat's
/// value bytes; callers comparing a context against an issued token need
/// this bridge.
pub proof fn lemma_access_bytes()
    ensures
        encode_utf8("access"@) == access_value(),
{
    reveal_strlit("access");
    let chars = "access"@;
    assert(chars.len() == 6);
    assert(vstd::utf8::is_ascii_chars(chars)) by {
        assert(chars[0] == 'a' && chars[1] == 'c' && chars[2] == 'c' && chars[3] == 'e'
            && chars[4] == 's' && chars[5] == 's');
    }
    vstd::utf8::is_ascii_chars_encode_utf8(chars);
    assert(encode_utf8(chars) =~= access_value());
}

/// The subject caveat holds exactly in contexts whose subject is its user,
/// whatever bytes the user contains: the evaluator splits at the leftmost
/// separator, which the fixed `user_id` prefix pins down.
pub proof fn lemma_user_caveat_eval(user: Seq<u8>, ctx_user: Seq<u8>, ctx_type: Seq<u8>, now: u64)
    ensures
        caveat_ok(user_pred(user), ctx_user, ctx_type, now) == (ctx_user == user),
{
    let p = user_pred(user);
    assert(p.len() == 10 + user.len());
    assert(p[0] == 117 && p[1] == 115 && p[2] == 101 && p[3] == 114 && p[4] == 95 && p[5] == 105
        && p[6] == 100 && p[7] == 32 && p[8] == 61 && p[9] == 32);
    assert(is_sep_at(p, 7));
    reveal_with_fuel(find_sep_from, 10);
    assert(find_sep(p) == Some(7int));
    assert(p.take(7) =~= user_id_key());
    assert(p.skip(10) =~= user);
}

/// The purpose caveat holds exactly in contexts whose purpose is `access`.
pub proof fn lemma_type_caveat_eval(ctx_user: Seq<u8>, ctx_type: Seq<u8>, now: u64)
    ensures
        caveat_ok(type_pred(), ctx_user, ctx_type, now) == (ctx_type == access_value()),
{
    let p = type_pred();
    assert(p.len() == 13);
    assert(p[0] == 116 && p[1] == 121 && p[2] == 112 && p[3] == 101 && p[4] == 32 && p[5] == 61
        && p[6] == 32);
    assert(is_sep_at(p, 4));
    reveal_with_fuel(find_sep_from, 7);
    assert(find_sep(p) == Some(4int));
    assert(p.take(4) =~= type_key());
    assert(p.skip(7) =~= access_value());
}

/// The expiry caveat holds exactly when the clock reads strictly before the
/// rendered instant.
pub proof fn lemma_time_caveat_eval(expiry: nat, ctx_user: Seq<u8>, ctx_type: Seq<u8>, now: u64)
    ensures
        caveat_ok(time_pred(expiry), ctx_user, ctx_type, now) == ((now as int) < expiry),
{
    let p = time_pred(expiry);
    crate::bytes::lemma_dec_of_digits(expiry);
    assert(p.len() == 7 + dec_of(expiry).len());
    assert(p[0] == 116 && p[1] == 105 && p[2] == 109 && p[3] == 101 && p[4] == 32 && p[5] == 60
        && p[6] == 32);
    assert(is_sep_at(p, 4));
    reveal_with_fuel(find_sep_from, 7);
    assert(find_sep(p) == Some(4int));
    assert(p.take(4) =~= time_key());
    assert(p.skip(7) =~= dec_of(expiry));
}

/// Builds the subject caveat for `user`.
pub fn make_user_caveat(user: &Vec<u8>) -> (r: Caveat)
    ensures
        r.predicate@ == user_pred(user@),
{
    let mut p: Vec<u8> = Vec::new();
    p.push(117);
    p.push(115);
    p.push(101);
    p.push(114);
    p.push(95);
    p.push(105);
    p.push(100);
    p.push(32);
    p.push(61);
    p.push(32);
    proof {
        assert(p@ =~= user_id_key() + eq_sep() + user@.subrange(0, 0));
    }
    let mut i: usize = 0;
    while i < user.len()
        invariant
            0 <= i <= user@.len(),
            p@ == user_id_key() + eq_sep() + user@.subrange(0, i as int),
        decreases user@.len() - i,
    {
        p.push(user[i]);
        proof {
            assert(p@ =~= user_id_key() + eq_sep() + user@.subrange(0, i + 1 as int));
        }
        i = i + 1;
    }
    proof {
        assert(p@ =~= user_pred(user@));
    }
    Caveat { predicate: p }
}

/// Builds the purpose caveat `type = access`.
pub fn make_type_caveat() -> (r: Caveat)
    ensures
        r.predicate@ == type_pred(),
{
    let mut p: Vec<u8> = Vec::new();
    p.push(116);
    p.push(121);
    p.push(112);
    p.push(101);
    p.push(32);
    p.push(61);
    p.push(32);
    p.push(97);
    p.push(99);
    p.push(99);
    p.push(101);
    p.push(115);
    p.push(115);
    proof {
        assert(p@ =~= type_pred());
    }
    Caveat { predicate: p }
}

/// Builds the expiry caveat `time < <expiry>`.
pub fn make_time_caveat(expiry: u64) -> (r: Caveat)
    ensures
        r.predicate@ == time_pred(expiry as nat),
{
    let mut p: Vec<u8> = Vec::new();
    p.push(116);
    p.push(105);
    p.push(109);
    p.push(101);
    p.push(32);
    p.push(60);
    p.push(32);
    let digits = render_dec(expiry);
    proof {
        assert(p@ =~= time_key() + lt_sep() + digits@.subrange(0, 0));
    }
    let mut i: usize = 0;
    while i < digits.len()
        invariant
            0 <= i <= digits@.len(),
            digits@ == dec_of(expiry as nat),
            p@ == time_key() + lt_sep() + digits@.subrange(0, i as int),
        decreases digits@.len() - i,
    {
        p.push(digits[i]);
        proof {
            assert(p@ =~= time_key() + lt_sep() + digits@.subrange(0, i + 1 as int));
        }
        i = i + 1;
    }
    proof {
        assert(p@ =~= time_pred(expiry as nat));
    }
    Caveat { predicate: p }
}

/// Exact key bytes used when classifying a parsed caveat.
fn user_id_key_bytes() -> (r: Vec<u8>)
    ensures
        r@ == user_id_key(),
{
    let mut v: Vec<u8> = Vec::new();
    v.push(117);
    v.push(115);
    v.push(101);
    v.push(114);
    v.push(95);
    v.push(105);
    v.push(100);
    proof {
        assert(v@ =~= user_id_key());
    }
    v
}

fn type_key_bytes() -> (r: Vec<u8>)
    ensures
        r@ == type_key(),
{
    let mut v: Vec<u8> = Vec::new();
    v.push(116);
    v.push(121);
    v.push(112);
    v.push(101);
    proof {
        assert(v@ =~= type_key());
    }
    v
}

fn time_key_bytes() -> (r: Vec<u8>)
    ensures
        r@ == time_key(),
{
    let mut v: Vec<u8> = Vec::new();
    v.push(116);
    v.push(105);
    v.push(109);
    v.push(101);
    proof {
        assert(v@ =~= time_key());
    }
    v
}

/// Finds the leftmost separator of `pred`, matching `find_sep`.
fn find_sep_exec(pred: &Vec<u8>) -> (r: Option<usize>)
    ensures
        match r {
            Some(i) => find_sep(pred@) == Some(i as int) && is_sep_at(pred@, i as int),
            None => find_sep(pred@) is None,
        },
{
    let n = pred.len();
    if n < 3 {
        return None;
    }
    let mut i: usize = 0;
    while i <= n - 3
        invariant
            n == pred@.len(),
            3 <= n,
            0 <= i <= n - 2,
            find_sep(pred@) == find_sep_from(pred@, i as int),
        decreases n - i,
    {
        if pred[i] == 32 && (pred[i + 1] == 61 || pred[i + 1] == 60) && pred[i + 2] == 32 {
            return Some(i);
        }
        i = i + 1;
    }
    None
}

/// Evaluates one presented caveat against the context; unknown or malformed
/// caveats fail closed.
pub fn eval_caveat(pred: &Vec<u8>, context: &VerificationContext) -> (r: bool)
    ensures
        r == caveat_ok(
            pred@,
            encode_utf8(context.expected_user_id@),
            encode_utf8(context.expected_type@),
            context.now,
        ),
{
    let n = pred.len();
    let sep = find_sep_exec(pred);
    match sep {
        None => false,
        Some(i) => {
            assert(i + 3 <= n);
            let key = subvec(pred, 0, i);
            let op = pred[i + 1];
            let value = subvec(pred, i + 3, pred.len());
            proof {
                assert(key@ =~= pred@.take(i as int));
                assert(value@ =~= pred@.skip(i + 3));
            }
            let ukey = user_id_key_bytes();
            let tkey = type_key_bytes();
            let mkey = time_key_bytes();
            if ct_eq(&key, &ukey) && op == 61 {
                let expected = context.expected_user_id.as_str().as_bytes_vec();
                ct_eq(&value, &expected)
            } else if ct_eq(&key, &tkey) && op == 61 {
                let expected = context.expected_type.as_str().as_bytes_vec();
                ct_eq(&value, &expected)
            } else if ct_eq(&key, &mkey) && op == 60 {
                dec_exceeds(&value, context.now)
            } else {
                false
            }
        },
    }
}

} // verus!
