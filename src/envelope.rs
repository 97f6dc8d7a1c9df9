use vstd::prelude::*;

use crate::crypto::{
    sign_detached, signature_of, signature_valid, verify_detached, SECRET_KEY_LEN, SIGNATURE_LEN,
};
use crate::message::{
    decode, encode, encoded, lemma_encoded_well_formed, well_formed, EnvelopeError, RoutingMessage,
    HEADER_LEN,
};

verus! {

/// The envelope of `m` signed with `secret_key`: the signature of the message's wire form,
/// then the wire form.
pub open spec fn envelope_of(m: RoutingMessage, secret_key: Seq<u8>) -> Seq<u8> {
    signature_of(encoded(m), secret_key) + encoded(m)
}

/// Why the envelope `e` is refused under `public_key`, if it is.
pub open spec fn open_error(e: Seq<u8>, public_key: Seq<u8>) -> Option<EnvelopeError> {
    if e.len() < SIGNATURE_LEN {
        Some(EnvelopeError::DecodeError)
    } else if !signature_valid(e.take(SIGNATURE_LEN as int), e.skip(SIGNATURE_LEN as int), public_key) {
        Some(EnvelopeError::SignatureInvalid)
    } else if !well_formed(e.skip(SIGNATURE_LEN as int)) {
        Some(EnvelopeError::DecodeError)
    } else {
        None
    }
}

/// Signs the wire form of `m` with `secret_key`.
pub fn construct(m: &RoutingMessage, secret_key: &Vec<u8>) -> (r: Vec<u8>)
    requires
        secret_key@.len() == SECRET_KEY_LEN,
    ensures
        r@ == envelope_of(*m, secret_key@),
        signature_of(encoded(*m), secret_key@).len() == SIGNATURE_LEN,
{
    let body = encode(m);
    let mut out = sign_detached(body.as_slice(), secret_key.as_slice());
    let mut i: usize = 0;
    let ghost start = out@;
    while i < body.len()
        invariant
            i <= body@.len(),
            out@ == start + body@.subrange(0, i as int),
        decreases body@.len() - i,
    {
        out.push(body[i]);
        assert(body@.subrange(0, i + 1) =~= body@.subrange(0, i as int).push(body@[i as int]));
        i = i + 1;
    }
    assert(body@.subrange(0, body@.len() as int) =~= body@);
    out
}

/// Checks the signature of the envelope `e` against `public_key` and decodes its message.
pub fn open(e: &Vec<u8>, public_key: &Vec<u8>) -> (r: Result<RoutingMessage, EnvelopeError>)
    ensures
        r matches Err(x) ==> open_error(e@, public_key@) == Some(x),
        r matches Ok(m) ==> open_error(e@, public_key@) is None && m@ == e@.skip(SIGNATURE_LEN as int),
        r is Ok == open_error(e@, public_key@) is None,
{
    if e.len() < SIGNATURE_LEN {
        return Err(EnvelopeError::DecodeError);
    }
    let mut sig: Vec<u8> = Vec::new();
    let mut body: Vec<u8> = Vec::new();
    let mut i: usize = 0;
    while i < e.len()
        invariant
            i <= e@.len(),
            e@.len() >= SIGNATURE_LEN,
            i <= SIGNATURE_LEN ==> sig@ == e@.subrange(0, i as int) && body@.len() == 0,
            i > SIGNATURE_LEN ==> sig@ == e@.take(SIGNATURE_LEN as int) && body@ == e@.subrange(SIGNATURE_LEN as int, i as int),
        decreases e@.len() - i,
    {
        if i < SIGNATURE_LEN {
            sig.push(e[i]);
            assert(e@.subrange(0, i + 1) =~= e@.subrange(0, i as int).push(e@[i as int]));
        } else {
            body.push(e[i]);
            assert(e@.subrange(SIGNATURE_LEN as int, i + 1) =~= e@.subrange(SIGNATURE_LEN as int, i as int).push(e@[i as int]));
        }
        i = i + 1;
    }
    assert(sig@ =~= e@.take(SIGNATURE_LEN as int));
    assert(body@ =~= e@.skip(SIGNATURE_LEN as int));
    if !verify_detached(sig.as_slice(), body.as_slice(), public_key.as_slice()) {
        return Err(EnvelopeError::SignatureInvalid);
    }
    match decode(body.as_slice()) {
        Some(m) => Ok(m),
        None => Err(EnvelopeError::DecodeError),
    }
}

/// Opening an envelope under the public key that matches its signing key gives back the
/// message that was signed. Whether a key pair's signatures check is the signature scheme's
/// own correctness, taken here as the premise.
pub proof fn lemma_envelope_round_trip(m: RoutingMessage, secret_key: Seq<u8>, public_key: Seq<u8>)
    requires
        m.payload@.len() + HEADER_LEN <= u64::MAX,
        signature_of(encoded(m), secret_key).len() == SIGNATURE_LEN,
        signature_valid(signature_of(encoded(m), secret_key), encoded(m), public_key),
    ensures
        open_error(envelope_of(m, secret_key), public_key) is None,
        envelope_of(m, secret_key).skip(SIGNATURE_LEN as int) == encoded(m),
{
    let sig = signature_of(encoded(m), secret_key);
    let e = envelope_of(m, secret_key);
    assert(e.take(SIGNATURE_LEN as int) =~= sig);
    assert(e.skip(SIGNATURE_LEN as int) =~= encoded(m));
    lemma_encoded_well_formed(m);
}

} // verus!
