//! Transactions: the wire form, the validated form, signing and
//! verification.
//!
//! A transaction carries three RSA public keys (DER-encoded, then
//! base64 without padding), a free-form message, a transfer amount
//! written as a decimal token, and a PKCS#1 v1.5 signature over
//! `sender:message:transfer` hashed with SHA-256. Only those three
//! fields are covered by the signature; `buyer` and `seller` are not.

use vstd::prelude::*;

use crate::amount::{amount_cmp, amount_cmp_spec, amount_wf};
use crate::crypto::{
    b64_bytes_of, b64_decode, b64_encode, b64_of, b64_ok, rsa_can_sign, rsa_priv_ok,
    rsa_pub_key_ok, rsa_pub_of_priv, rsa_pub_ok, rsa_sig_of, rsa_sig_ok, rsa_sign_digest,
    rsa_verify_digest, sha256_digest, sha256_of,
};
use crate::errors::TransactionError;
use crate::strutil::{push_char, trim, trim_spec};

verus! {

/// Whether a string is a readable RSA public key: decodable base64
/// whose bytes parse as a PKCS#1 DER key.
pub open spec fn key_ok(s: Seq<char>) -> bool {
    b64_ok(s) && rsa_pub_ok(b64_bytes_of(s))
}

/// The string that a transaction signs: `sender:message:transfer`.
pub open spec fn payload_of(sender: Seq<char>, message: Seq<char>, transfer: Seq<char>) -> Seq<
    char,
> {
    sender + seq![':'] + message + seq![':'] + transfer
}

/// A transaction as it travels on the wire: raw strings, nothing
/// checked.
#[derive(Debug)]
#[verifier::ext_equal]
pub struct SerializedTransaction {
    pub sender: String,
    pub buyer: String,
    pub seller: String,
    pub message: String,
    pub transfer: String,
    pub signature: String,
}

impl SerializedTransaction {
    /// A fresh unsigned transaction; the key strings are trimmed.
    pub fn new(
        sender_base64: String,
        seller_base64: String,
        buyer_base64: String,
        message: String,
        transfer: String,
    ) -> (r: SerializedTransaction)
        ensures
            r.sender@ == trim_spec(sender_base64@),
            r.seller@ == trim_spec(seller_base64@),
            r.buyer@ == trim_spec(buyer_base64@),
            r.message@ == message@,
            r.transfer@ == transfer@,
            r.signature@ == Seq::<char>::empty(),
    {
        SerializedTransaction {
            sender: trim(sender_base64.as_str()),
            buyer: trim(buyer_base64.as_str()),
            seller: trim(seller_base64.as_str()),
            message,
            transfer,
            signature: String::new(),
        }
    }

    pub fn get_sender(&self) -> (r: String)
        ensures
            r@ == self.sender@,
    {
        self.sender.clone()
    }

    pub fn get_transfer(&self) -> (r: String)
        ensures
            r@ == self.transfer@,
    {
        self.transfer.clone()
    }
}

impl Clone for SerializedTransaction {
    fn clone(&self) -> (r: Self)
        ensures
            r == *self,
    {
        let r = SerializedTransaction {
            sender: self.sender.clone(),
            buyer: self.buyer.clone(),
            seller: self.seller.clone(),
            message: self.message.clone(),
            transfer: self.transfer.clone(),
            signature: self.signature.clone(),
        };
        assert(r =~= *self);
        r
    }
}

impl PartialEq for SerializedTransaction {
    /// As in the wire protocol's de-duplication: `buyer` and `seller`
    /// do not take part.
    fn eq(&self, other: &Self) -> (r: bool) {
        self.sender == other.sender && self.message == other.message && self.transfer
            == other.transfer && self.signature == other.signature
    }
}

impl vstd::std_specs::cmp::PartialEqSpecImpl for SerializedTransaction {
    open spec fn obeys_eq_spec() -> bool {
        true
    }

    open spec fn eq_spec(&self, other: &Self) -> bool {
        self.sender@ == other.sender@ && self.message@ == other.message@ && self.transfer@
            == other.transfer@ && self.signature@ == other.signature@
    }
}

impl PartialOrd for SerializedTransaction {
    /// Numeric order of the transfer tokens; malformed tokens tie.
    fn partial_cmp(&self, other: &Self) -> (r: Option<core::cmp::Ordering>) {
        let c = amount_cmp(self.transfer.as_str(), other.transfer.as_str());
        if c < 0 {
            Some(core::cmp::Ordering::Less)
        } else if c == 0 {
            Some(core::cmp::Ordering::Equal)
        } else {
            Some(core::cmp::Ordering::Greater)
        }
    }
}

impl vstd::std_specs::cmp::PartialOrdSpecImpl for SerializedTransaction {
    open spec fn obeys_partial_cmp_spec() -> bool {
        true
    }

    open spec fn partial_cmp_spec(&self, other: &Self) -> Option<core::cmp::Ordering> {
        if amount_cmp_spec(self.transfer@, other.transfer@) < 0 {
            Some(core::cmp::Ordering::Less)
        } else if amount_cmp_spec(self.transfer@, other.transfer@) == 0 {
            Some(core::cmp::Ordering::Equal)
        } else {
            Some(core::cmp::Ordering::Greater)
        }
    }
}

/// A transaction whose keys have been checked to parse and whose
/// transfer token is a plain decimal number.
#[derive(Debug)]
#[verifier::ext_equal]
pub struct Transaction {
    pub sender: String,
    pub buyer: String,
    pub seller: String,
    pub message: String,
    pub transfer: String,
    pub signature: String,
}

impl Transaction {
    /// All three keys readable and the transfer a decimal token.
    pub open spec fn wf(self) -> bool {
        &&& key_ok(self.sender@)
        &&& key_ok(self.buyer@)
        &&& key_ok(self.seller@)
        &&& amount_wf(self.transfer@)
    }

    pub open spec fn spec_sender(self) -> Seq<char> {
        self.sender@
    }

    pub open spec fn spec_message(self) -> Seq<char> {
        self.message@
    }

    pub open spec fn spec_transfer(self) -> Seq<char> {
        self.transfer@
    }

    pub open spec fn spec_signature(self) -> Seq<char> {
        self.signature@
    }

    /// The string this transaction signs.
    pub open spec fn payload(self) -> Seq<char> {
        payload_of(self.sender@, self.message@, self.transfer@)
    }

    /// Whether the carried signature verifies under the carried
    /// sender key.
    pub open spec fn sig_valid(self) -> bool {
        &&& b64_ok(self.sender@)
        &&& b64_ok(self.signature@)
        &&& rsa_sig_ok(
            b64_bytes_of(self.sender@),
            sha256_of(self.payload()),
            b64_bytes_of(self.signature@),
        )
    }

    /// The wire form of `self`, field for field.
    pub open spec fn serialize_spec(self) -> SerializedTransaction {
        SerializedTransaction {
            sender: self.sender,
            buyer: self.buyer,
            seller: self.seller,
            message: self.message,
            transfer: self.transfer,
            signature: self.signature,
        }
    }

    /// What checking a wire transaction yields: the same fields when
    /// every key parses and the transfer is a decimal token, else the
    /// first error found.
    pub open spec fn deserialize_spec(st: SerializedTransaction) -> Result<
        Transaction,
        TransactionError,
    > {
        if !(key_ok(st.sender@) && key_ok(st.buyer@) && key_ok(st.seller@)) {
            Err(TransactionError::BadKey)
        } else if !amount_wf(st.transfer@) {
            Err(TransactionError::BadAmount)
        } else {
            Ok(
                Transaction {
                    sender: st.sender,
                    buyer: st.buyer,
                    seller: st.seller,
                    message: st.message,
                    transfer: st.transfer,
                    signature: st.signature,
                },
            )
        }
    }

    /// An unsigned transaction from its parts.
    pub fn new(
        sender_base64: String,
        seller_base64: String,
        buyer_base64: String,
        message: String,
        transfer: String,
    ) -> (r: Transaction)
        requires
            key_ok(sender_base64@),
            key_ok(seller_base64@),
            key_ok(buyer_base64@),
            amount_wf(transfer@),
        ensures
            r.wf(),
            r.sender@ == sender_base64@,
            r.seller@ == seller_base64@,
            r.buyer@ == buyer_base64@,
            r.message@ == message@,
            r.transfer@ == transfer@,
            r.signature@ == Seq::<char>::empty(),
    {
        Transaction {
            sender: sender_base64,
            buyer: buyer_base64,
            seller: seller_base64,
            message,
            transfer,
            signature: String::new(),
        }
    }

    /// The wire form of this transaction.
    pub fn serialize(&self) -> (r: SerializedTransaction)
        ensures
            r == self.serialize_spec(),
    {
        let r = SerializedTransaction {
            sender: self.sender.clone(),
            buyer: self.buyer.clone(),
            seller: self.seller.clone(),
            message: self.message.clone(),
            transfer: self.transfer.clone(),
            signature: self.signature.clone(),
        };
        assert(r =~= self.serialize_spec());
        r
    }

    /// Checks a wire transaction: every key must parse and the
    /// transfer must be a decimal token.
    pub fn deserialize(st: SerializedTransaction) -> (r: Result<Transaction, TransactionError>)
        ensures
            r == Self::deserialize_spec(st),
    {
        if !check_key(st.sender.as_str()) || !check_key(st.buyer.as_str()) || !check_key(
            st.seller.as_str(),
        ) {
            return Err(TransactionError::BadKey);
        }
        if !crate::amount::amount_is_wf(st.transfer.as_str()) {
            return Err(TransactionError::BadAmount);
        }
        let t = Transaction {
            sender: st.sender,
            buyer: st.buyer,
            seller: st.seller,
            message: st.message,
            transfer: st.transfer,
            signature: st.signature,
        };
        assert(Ok::<Transaction, TransactionError>(t) =~= Self::deserialize_spec(
            t.serialize_spec(),
        ));
        Ok(t)
    }

    /// The string `sender:message:transfer` that the signature
    /// covers.
    pub fn signing_payload(&self) -> (r: String)
        ensures
            r@ == self.payload(),
    {
        let mut out = self.sender.clone();
        push_char(&mut out, ':');
        out.append(self.message.as_str());
        push_char(&mut out, ':');
        out.append(self.transfer.as_str());
        assert(out@ =~= self.payload());
        out
    }

    /// Signs the payload with a consistent PKCS#8 DER private key —
    /// one from key generation, since the underlying parser aborts on
    /// decodable bytes with nonsense components — and stores the
    /// base64 signature. Signing succeeds exactly when the key can
    /// sign the digest; when the stored sender key is the signing
    /// key's public half, the signature verifies.
    pub fn sign(&mut self, priv_der: &[u8]) -> (r: bool)
        requires
            rsa_priv_ok(priv_der@),
        ensures
            final(self).sender == old(self).sender,
            final(self).buyer == old(self).buyer,
            final(self).seller == old(self).seller,
            final(self).message == old(self).message,
            final(self).transfer == old(self).transfer,
            r == rsa_can_sign(priv_der@, sha256_of(old(self).payload())),
            !r ==> final(self).signature == old(self).signature,
            r ==> final(self).signature@ == b64_of(
                rsa_sig_of(priv_der@, sha256_of(old(self).payload())),
            ),
            r && b64_bytes_of(old(self).sender@) == rsa_pub_of_priv(priv_der@) && b64_ok(
                old(self).sender@,
            ) ==> final(self).sig_valid(),
    {
        let payload = self.signing_payload();
        let digest = sha256_digest(payload.as_str());
        match rsa_sign_digest(priv_der, digest.as_slice()) {
            Some(sig) => {
                self.signature = b64_encode(sig.as_slice());
                true
            },
            None => false,
        }
    }

    /// Whether the carried signature verifies under the carried
    /// sender key.
    pub fn verify(&self) -> (r: bool)
        ensures
            r == self.sig_valid(),
    {
        let sender_der = match b64_decode(self.sender.as_str()) {
            Some(der) => der,
            None => {
                return false;
            },
        };
        let sig = match b64_decode(self.signature.as_str()) {
            Some(sig) => sig,
            None => {
                return false;
            },
        };
        let payload = self.signing_payload();
        let digest = sha256_digest(payload.as_str());
        rsa_verify_digest(sender_der.as_slice(), digest.as_slice(), sig.as_slice())
    }

    pub fn get_sender(&self) -> (r: String)
        ensures
            r@ == self.sender@,
    {
        self.sender.clone()
    }

    pub fn get_transfer(&self) -> (r: String)
        ensures
            r@ == self.transfer@,
    {
        self.transfer.clone()
    }

    pub fn get_message(&self) -> (r: String)
        ensures
            r@ == self.message@,
    {
        self.message.clone()
    }
}

impl Clone for Transaction {
    fn clone(&self) -> (r: Self)
        ensures
            r == *self,
    {
        let r = Transaction {
            sender: self.sender.clone(),
            buyer: self.buyer.clone(),
            seller: self.seller.clone(),
            message: self.message.clone(),
            transfer: self.transfer.clone(),
            signature: self.signature.clone(),
        };
        assert(r =~= *self);
        r
    }
}

/// Whether a string is a readable RSA public key.
pub fn check_key(s: &str) -> (r: bool)
    ensures
        r == key_ok(s@),
{
    match b64_decode(s) {
        Some(der) => rsa_pub_key_ok(der.as_slice()),
        None => false,
    }
}

/// Checking a transaction's wire form gives the transaction back: the
/// two conversions invert each other on well-formed transactions.
pub proof fn lemma_transaction_round_trip(t: Transaction)
    requires
        t.wf(),
    ensures
        Transaction::deserialize_spec(t.serialize_spec()) == Ok::<Transaction, TransactionError>(
            t,
        ),
{
    assert(Transaction::deserialize_spec(t.serialize_spec()) =~= Ok::<
        Transaction,
        TransactionError,
    >(t));
}

} // verus!
