//! Key material: an RSA key pair held as DER bytes, and a balance.
//!
//! The wallet generates its pair once and signs transactions with the
//! private half. Reading and writing the wallet file is the business
//! of the surrounding process.

use vstd::prelude::*;

use crate::amount::{amount_body, amount_neg, amount_wf};
use crate::crypto::{
    b64_bytes_of, b64_encode, b64_of, b64_ok, rsa_generate_keypair, rsa_priv_ok, rsa_pub_of_priv,
    rsa_pub_ok,
};
use crate::transaction::Transaction;

verus! {

pub struct Wallet {
    pub private_key_der: Vec<u8>,
    pub public_key_der: Vec<u8>,
    pub amount: String,
}

impl Wallet {
    /// The private key is consistent, the public half belongs to it
    /// and parses on its own, and the balance is a plain decimal
    /// token. Only key generation establishes this: there is no
    /// runtime test for a consistent private key, so a wallet from
    /// elsewhere must not be handed to the signing functions.
    pub open spec fn wf(self) -> bool {
        &&& rsa_priv_ok(self.private_key_der@)
        &&& self.public_key_der@ == rsa_pub_of_priv(self.private_key_der@)
        &&& rsa_pub_ok(self.public_key_der@)
        &&& amount_wf(self.amount@)
    }

    /// A wallet with a fresh 2048-bit key pair and a zero balance.
    /// `None` when key generation failed.
    pub fn new() -> (r: Option<Wallet>)
        ensures
            (r matches Some(w) ==> w.wf()),
            (r matches Some(w) ==> w.amount@ == "0"@),
    {
        Wallet::with_key_bits(2048)
    }

    /// A wallet whose key pair has the given size; small keys serve
    /// throwaway identities.
    pub fn with_key_bits(bits: usize) -> (r: Option<Wallet>)
        requires
            64 <= bits <= 4096,
        ensures
            (r matches Some(w) ==> w.wf()),
            (r matches Some(w) ==> w.amount@ == "0"@),
    {
        match rsa_generate_keypair(bits) {
            Some(pair) => {
                let (private_key_der, public_key_der) = pair;
                let amount = zero_amount();
                Some(Wallet { private_key_der, public_key_der, amount })
            },
            None => None,
        }
    }

    /// The public key, DER-encoded then base64 without padding: the
    /// form that travels inside transactions. The text decodes back
    /// to the key bytes.
    pub fn get_public_key_string(&self) -> (r: String)
        ensures
            r@ == b64_of(self.public_key_der@),
            b64_ok(r@),
            b64_bytes_of(r@) == self.public_key_der@,
    {
        b64_encode(self.public_key_der.as_slice())
    }

    /// The private key as PKCS#8 DER bytes, for signing.
    pub fn get_private_key(&self) -> (r: &Vec<u8>)
        ensures
            r@ == self.private_key_der@,
    {
        &self.private_key_der
    }

    pub fn get_amount(&self) -> (r: String)
        ensures
            r@ == self.amount@,
    {
        self.amount.clone()
    }

    /// Replaces the balance; it must be a decimal token and not
    /// negative.
    pub fn set_amount(&mut self, amount: String)
        requires
            amount_wf(amount@),
            !amount_neg(amount@),
        ensures
            final(self).amount@ == amount@,
            final(self).private_key_der == old(self).private_key_der,
            final(self).public_key_der == old(self).public_key_der,
    {
        self.amount = amount;
    }

    /// Signs `tx` with this wallet's key. When the transaction's
    /// sender field is this wallet's public key, a successful
    /// signature verifies.
    pub fn sign_transaction(&self, tx: &mut Transaction) -> (r: bool)
        requires
            self.wf(),
        ensures
            final(tx).sender == old(tx).sender,
            final(tx).buyer == old(tx).buyer,
            final(tx).seller == old(tx).seller,
            final(tx).message == old(tx).message,
            final(tx).transfer == old(tx).transfer,
            !r ==> final(tx).signature == old(tx).signature,
            r && b64_ok(old(tx).sender@) && b64_bytes_of(old(tx).sender@)
                == self.public_key_der@ ==> final(tx).sig_valid(),
    {
        tx.sign(self.private_key_der.as_slice())
    }
}

/// What the operator console does for its transaction command: a
/// fresh wallet of the given key size builds a transaction to itself
/// over `message` and `transfer`, and signs it. `None` when the
/// transfer is not a decimal token, key generation failed, or the key
/// could not sign the digest.
pub fn create_signed_transaction(bits: usize, message: String, transfer: String) -> (r: Option<
    (Wallet, Transaction),
>)
    requires
        64 <= bits <= 4096,
    ensures
        (r matches Some(p) ==> {
            &&& p.0.wf()
            &&& p.1.wf()
            &&& p.1.sig_valid()
            &&& p.1.message@ == message@
            &&& p.1.transfer@ == transfer@
            &&& p.1.sender@ == b64_of(p.0.public_key_der@)
        }),
{
    if !crate::amount::amount_is_wf(transfer.as_str()) {
        return None;
    }
    let wallet = match Wallet::with_key_bits(bits) {
        Some(wallet) => wallet,
        None => {
            return None;
        },
    };
    let key = wallet.get_public_key_string();
    let mut tx = Transaction::new(key.clone(), key.clone(), key, message, transfer);
    if !wallet.sign_transaction(&mut tx) {
        return None;
    }
    Some((wallet, tx))
}

/// The token `"0"`.
pub fn zero_amount() -> (r: String)
    ensures
        r@ == "0"@,
        amount_wf(r@),
        !amount_neg(r@),
{
    proof {
        reveal_strlit("0");
        crate::amount::lemma_first_dot("0"@);
        crate::amount::lemma_first_dot_at("0"@, 1);
    }
    let r = String::from_str("0");
    assert(amount_wf(r@)) by {
        assert(r@.len() == 1);
        assert(r@[0] == '0');
        assert(amount_body(r@) =~= r@);
        assert(crate::amount::int_part(r@) =~= r@);
        assert(crate::digits::all_digits(r@));
    }
    r
}

} // verus!
