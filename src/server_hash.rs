//! The server hash a client and the session service agree on: the SHA-1 of
//! server id, shared secret and public key, read as a signed 160-bit
//! number and written in hex without leading zeros, with a minus sign when
//! negative.
use vstd::prelude::*;
use vstd::string::StringExecFns;
use crate::crypto::{sha1_digest, sha1_of};
use crate::text::hex_of;
use crate::wire::{be_bytes, be_value, pow256};

verus! {

/// Relies on rustc_serialize's ToHex for byte slices: two lower-case hex
/// digits per byte, high nibble first.
#[verifier::external_body]
fn to_hex(bytes: &[u8]) -> (r: String)
    ensures
        r@ == hex_of(bytes@),
{
    rustc_serialize::hex::ToHex::to_hex(bytes)
}

/// `s` without its leading `'0'` characters.
pub open spec fn trim_zeros(s: Seq<char>) -> Seq<char>
    decreases s.len(),
{
    if s.len() > 0 && s[0] == '0' {
        trim_zeros(s.drop_first())
    } else {
        s
    }
}

/// Relies on regex's `Regex::new("^0+")` and `replace` with an empty
/// replacement: the leading run of `'0'` is removed, nothing else changes.
#[verifier::external_body]
fn strip_leading_zeros(s: &str) -> (r: String)
    ensures
        r@ == trim_zeros(s@),
{
    regex::Regex::new("^0+").unwrap().replace(s, "").to_string()
}

/// The bytes of `-v` modulo `256^n`, where `v` is what `d` spells big-endian.
pub open spec fn negated(d: Seq<u8>) -> Seq<u8> {
    be_bytes(((pow256(d.len()) - be_value(d)) % (pow256(d.len()) as int)) as nat, d.len())
}

/// The signed hex form of a digest.
pub open spec fn signed_hex(d: Seq<u8>) -> Seq<char> {
    if d.len() > 0 && d[0] >= 128 {
        seq!['-'] + trim_zeros(hex_of(negated(d)))
    } else {
        trim_zeros(hex_of(d))
    }
}

/// The server hash of a login.
pub open spec fn server_hash_of(server_id: Seq<u8>, secret: Seq<u8>, public_der: Seq<u8>) -> Seq<
    char,
> {
    signed_hex(sha1_of(server_id + secret + public_der))
}

proof fn lemma_be_value_front(x: u8, t: Seq<u8>)
    ensures
        be_value(seq![x] + t) == x * pow256(t.len()) + be_value(t),
    decreases t.len(),
{
    let s = seq![x] + t;
    if t.len() == 0 {
        assert(s.drop_last() =~= Seq::<u8>::empty());
        assert(s.last() == x);
        assert(be_value(s) == be_value(s.drop_last()) * 256 + s.last());
        assert(pow256(0) == 1);
        assert(x * 1 == x);
    } else {
        assert(s.drop_last() =~= seq![x] + t.drop_last());
        lemma_be_value_front(x, t.drop_last());
        assert(x * pow256(t.len()) == x * (256 * pow256((t.len() - 1) as nat)));
        let p = pow256((t.len() - 1) as nat);
        let b = be_value(t.drop_last());
        assert(s.last() == t.last());
        assert((x * p + b) * 256 + t.last() == x * (256 * p) + (b * 256 + t.last()))
            by (nonlinear_arith);
        assert(be_value(s) == be_value(s.drop_last()) * 256 + s.last());
        assert(be_value(s.drop_last()) == x * p + b);
        assert(be_value(t) == b * 256 + t.last());
        assert(pow256(t.len()) == 256 * p);
    }
}

proof fn lemma_be_value_bound(s: Seq<u8>)
    ensures
        be_value(s) < pow256(s.len()),
    decreases s.len(),
{
    if s.len() > 0 {
        lemma_be_value_bound(s.drop_last());
        let p = pow256((s.len() - 1) as nat);
        let v = be_value(s.drop_last());
        assert(v * 256 + s.last() < 256 * p) by (nonlinear_arith)
            requires
                v < p,
                s.last() < 256,
        ;
    }
}

proof fn lemma_be_bytes_value(s: Seq<u8>)
    ensures
        be_bytes(be_value(s), s.len()) == s,
    decreases s.len(),
{
    if s.len() > 0 {
        let v = be_value(s);
        let init = s.drop_last();
        lemma_be_bytes_value(init);
        assert(v / 256 == be_value(init));
        assert(v % 256 == s.last());
        assert(s =~= init + seq![s.last()]);
    }
}

/// Negates the 20-byte number `bytes` in two's complement, in place.
fn two_complement(bytes: &mut [u8; 20])
    ensures
        final(bytes)@ == negated(old(bytes)@),
{
    let ghost d = old(bytes)@;
    let mut carry = true;
    let mut i: usize = 20;
    assert(d.skip(20) =~= Seq::<u8>::empty());
    while i > 0
        invariant
            i <= 20,
            d.len() == 20,
            bytes@.len() == 20,
            bytes@.take(i as int) == d.take(i as int),
            carry ==> be_value(bytes@.skip(i as int)) == 0 && be_value(d.skip(i as int)) == 0,
            !carry ==> be_value(bytes@.skip(i as int)) + be_value(d.skip(i as int)) == pow256(
                (20 - i) as nat,
            ),
        decreases i,
    {
        let ghost before = bytes@;
        i = i - 1;
        let x = bytes[i];
        assert(x == d[i as int]) by {
            assert(before.take(i + 1)[i as int] == d.take(i + 1)[i as int]);
        }
        let flipped: u8 = 255 - x;
        let ghost was_carry = carry;
        if carry {
            carry = x == 0;
            bytes[i] = if flipped == 255 {
                0
            } else {
                flipped + 1
            };
        } else {
            bytes[i] = flipped;
        }
        proof {
            let k = (20 - i - 1) as nat;
            let bs = bytes@.skip(i + 1);
            let ds = d.skip(i + 1);
            assert(bs =~= before.skip(i + 1));
            assert(bytes@.skip(i as int) =~= seq![bytes@[i as int]] + bs);
            assert(d.skip(i as int) =~= seq![x] + ds);
            lemma_be_value_front(bytes@[i as int], bs);
            lemma_be_value_front(x, ds);
            assert(pow256((k + 1) as nat) == 256 * pow256(k));
            let p = pow256(k);
            if was_carry {
                if x == 0 {
                    assert(bytes@[i as int] == 0);
                    assert(0 * p == 0);
                } else {
                    assert((256 - x) * p + x * p == 256 * p) by (nonlinear_arith);
                }
            } else {
                assert((255 - x) * p + x * p + p == 256 * p) by (nonlinear_arith);
            }
            assert(bytes@.take(i as int) =~= before.take(i as int));
            assert(before.take(i as int) =~= before.take(i + 1).take(i as int));
            assert(d.take(i as int) =~= d.take(i + 1).take(i as int));
        }
    }
    proof {
        assert(bytes@.skip(0) =~= bytes@);
        assert(d.skip(0) =~= d);
        lemma_be_value_bound(d);
        lemma_be_value_bound(bytes@);
        let n = pow256(20);
        if carry {
            assert((n - be_value(d)) % (n as int) == 0) by {
                vstd::arithmetic::div_mod::lemma_mod_self_0(n as int);
            }
        } else {
            assert((n - be_value(d)) % (n as int) == be_value(bytes@)) by {
                vstd::arithmetic::div_mod::lemma_small_mod(be_value(bytes@), n);
            }
        }
        lemma_be_bytes_value(bytes@);
    }
}

/// The signed hex form of a SHA-1 digest.
pub fn hex_digest(digest: [u8; 20]) -> (r: String)
    ensures
        r@ == signed_hex(digest@),
{
    let mut hex = digest;
    if hex[0] >= 0x80 {
        two_complement(&mut hex);
        let digits = to_hex(&hex);
        let trimmed = strip_leading_zeros(digits.as_str());
        proof {
            reveal_strlit("-");
        }
        let minus = <String as StringExecFns>::from_str("-");
        let out = minus.concat(trimmed.as_str());
        assert(out@ =~= seq!['-'] + trim_zeros(hex_of(negated(digest@))));
        out
    } else {
        let digits = to_hex(&hex);
        strip_leading_zeros(digits.as_str())
    }
}

/// The server hash of a login: the signed hex SHA-1 of the server id, the
/// shared secret and the public key, in that order.
pub fn server_hash(server_id: &[u8], secret: &[u8], public_der: &[u8]) -> (r: String)
    ensures
        r@ == server_hash_of(server_id@, secret@, public_der@),
{
    let mut all: Vec<u8> = Vec::new();
    append(&mut all, server_id);
    append(&mut all, secret);
    append(&mut all, public_der);
    let digest = sha1_digest(all.as_slice());
    assert(all@ =~= server_id@ + secret@ + public_der@);
    hex_digest(digest)
}

fn append(out: &mut Vec<u8>, src: &[u8])
    ensures
        final(out)@ == old(out)@ + src@,
{
    let mut i: usize = 0;
    while i < src.len()
        invariant
            i <= src@.len(),
            out@ == old(out)@ + src@.take(i as int),
        decreases src@.len() - i,
    {
        out.push(src[i]);
        i = i + 1;
        assert(out@ =~= old(out)@ + src@.take(i as int));
    }
    assert(src@.take(i as int) =~= src@);
}

} // verus!
