//! Token values exchanged with the host's ledger service.
//!
//! A token identifier is a byte string of the form `TICKER-rrrrrr`: a ticker
//! of three to ten uppercase alphanumeric characters, a dash, and six
//! lowercase hexadecimal characters. A payment names a token class, the
//! instance (nonce) within that class, and a quantity.

use vstd::prelude::*;

verus! {

/// One transferred token batch: the token class it belongs to, the specific
/// instance (nonce) within the class, and the amount carried.
#[derive(Debug)]
pub struct EsdtTokenPayment {
    /// Identifier of the token class.
    pub token_name: Vec<u8>,
    /// Instance of the class: distinct batches carry distinct nonces.
    pub token_nonce: u64,
    /// Quantity of tokens in the batch.
    pub amount: u128,
}

/// Sum of the amounts carried by a batch of payments.
pub open spec fn sum_amounts(s: Seq<EsdtTokenPayment>) -> int
    decreases s.len(),
{
    if s.len() == 0 {
        0
    } else {
        sum_amounts(s.drop_last()) + s.last().amount
    }
}

/// A sum of payment amounts is never negative.
pub proof fn lemma_sum_amounts_nonneg(s: Seq<EsdtTokenPayment>)
    ensures
        sum_amounts(s) >= 0,
    decreases s.len(),
{
    if s.len() > 0 {
        lemma_sum_amounts_nonneg(s.drop_last());
    }
}

/// A prefix of a batch never sums to more than the whole batch.
pub proof fn lemma_sum_amounts_take(s: Seq<EsdtTokenPayment>, k: int)
    requires
        0 <= k <= s.len(),
    ensures
        sum_amounts(s.take(k)) <= sum_amounts(s),
    decreases s.len() - k,
{
    if k == s.len() {
        assert(s.take(k) =~= s);
    } else {
        lemma_sum_amounts_take(s, k + 1);
        assert(s.take(k + 1).drop_last() =~= s.take(k));
        assert(s.take(k + 1).last() == s[k]);
    }
}

/// Whether two byte strings hold the same bytes.
pub fn bytes_eq(a: &Vec<u8>, b: &Vec<u8>) -> (r: bool)
    ensures
        r == (a@ == b@),
{
    if a.len() != b.len() {
        return false;
    }
    let mut i: usize = 0;
    while i < a.len()
        invariant
            a@.len() == b@.len(),
            0 <= i <= a@.len(),
            forall|j: int| 0 <= j < i ==> a@[j] == b@[j],
        decreases a@.len() - i,
    {
        if a[i] != b[i] {
            return false;
        }
        i = i + 1;
    }
    proof {
        assert(a@ =~= b@);
    }
    true
}

/// An uppercase letter or a digit, as a ticker may contain.
pub open spec fn is_ticker_char(c: u8) -> bool {
    (65 <= c <= 90) || (48 <= c <= 57)
}

/// A lowercase hexadecimal digit, as the random suffix consists of.
pub open spec fn is_random_char(c: u8) -> bool {
    (97 <= c <= 102) || (48 <= c <= 57)
}

/// A well-formed token identifier: `TICKER-rrrrrr`, with a ticker of 3 to 10
/// uppercase alphanumeric bytes and a suffix of exactly 6 lowercase
/// hexadecimal bytes.
pub open spec fn spec_is_valid_esdt_identifier(s: Seq<u8>) -> bool {
    &&& 10 <= s.len() <= 17
    &&& s[s.len() - 7] == 45
    &&& forall|i: int| 0 <= i < s.len() - 7 ==> is_ticker_char(#[trigger] s[i])
    &&& forall|i: int| s.len() - 6 <= i < s.len() ==> is_random_char(#[trigger] s[i])
}

/// Whether `token_id` is a well-formed token identifier.
pub fn is_valid_esdt_identifier(token_id: &Vec<u8>) -> (r: bool)
    ensures
        r == spec_is_valid_esdt_identifier(token_id@),
{
    let n: usize = token_id.len();
    if n < 10 || n > 17 {
        return false;
    }
    if token_id[n - 7] != 45 {
        return false;
    }
    let mut i: usize = 0;
    while i < n - 7
        invariant
            10 <= n <= 17,
            n == token_id@.len(),
            0 <= i <= n - 7,
            forall|j: int| 0 <= j < i ==> is_ticker_char(#[trigger] token_id@[j]),
        decreases n - 7 - i,
    {
        let c: u8 = token_id[i];
        if !((65 <= c && c <= 90) || (48 <= c && c <= 57)) {
            return false;
        }
        i = i + 1;
    }
    let mut k: usize = n - 6;
    while k < n
        invariant
            10 <= n <= 17,
            n == token_id@.len(),
            n - 6 <= k <= n,
            forall|j: int| n - 6 <= j < k ==> is_random_char(#[trigger] token_id@[j]),
        decreases n - k,
    {
        let c: u8 = token_id[k];
        if !((97 <= c && c <= 102) || (48 <= c && c <= 57)) {
            return false;
        }
        k = k + 1;
    }
    true
}

} // verus!
