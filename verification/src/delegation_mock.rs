//! A mock of the delegation service, for exercising the harvest workflow.
//!
//! The real service lives behind a remote call; this mock reproduces its
//! observable accounting. Minting a liquid-staking instance is modelled by a
//! strictly increasing nonce counter, as the host's token ledger assigns
//! fresh nonces. Transfers themselves (sending the minted tokens and the
//! reward back to the caller) are the host's work; the functions here
//! compute what to mint and send.

use vstd::prelude::*;

verus! {

use crate::errors::ScError;
use crate::tokens::EsdtTokenPayment;
use crate::tokens::bytes_eq;
use crate::tokens::is_valid_esdt_identifier;
use crate::tokens::spec_is_valid_esdt_identifier;
use crate::tokens::sum_amounts;
use crate::tokens::lemma_sum_amounts_nonneg;
use crate::tokens::lemma_sum_amounts_take;

/// The mock delegation contract: the token class it manages and the highest
/// instance nonce minted so far.
#[derive(Debug)]
pub struct DelegationMock {
    /// Identifier of the liquid staking token class this contract mints.
    pub liquid_staking_token_id: Vec<u8>,
    /// Highest nonce handed out; fresh instances get the next one.
    pub last_sft_nonce: u64,
}

impl DelegationMock {
    /// Deploys the mock. The liquid staking token identifier must be
    /// well-formed, else deployment is refused.
    pub fn init(liquid_staking_token_id: Vec<u8>) -> (r: Result<DelegationMock, ScError>)
        ensures
            spec_is_valid_esdt_identifier(liquid_staking_token_id@) ==> (r matches Ok(m) && {
                &&& m.liquid_staking_token_id@ == liquid_staking_token_id@
                &&& m.last_sft_nonce == 0
            }),
            !spec_is_valid_esdt_identifier(liquid_staking_token_id@) ==> r == Result::<
                DelegationMock,
                ScError,
            >::Err(ScError::InvalidLiquidStakingTokenId),
    {
        if !is_valid_esdt_identifier(&liquid_staking_token_id) {
            return Err(ScError::InvalidLiquidStakingTokenId);
        }
        Ok(DelegationMock { liquid_staking_token_id, last_sft_nonce: 0 })
    }

    /// Mints one liquid-staking instance carrying `_amount` of value: the
    /// host's ledger assigns the next nonce, which is returned.
    pub fn create_liquid_staking_sft(&mut self, _amount: u128) -> (r: u64)
        requires
            old(self).last_sft_nonce < u64::MAX,
        ensures
            r == old(self).last_sft_nonce + 1,
            final(self).last_sft_nonce == old(self).last_sft_nonce + 1,
            final(self).liquid_staking_token_id@ == old(self).liquid_staking_token_id@,
    {
        self.last_sft_nonce = self.last_sft_nonce + 1;
        self.last_sft_nonce
    }

    /// Accepts an EGLD stake: a positive payment mints one liquid-staking
    /// instance for the full amount, and the caller is owed that instance
    /// (the returned nonce). A zero payment is refused.
    pub fn stake(&mut self, payment_amount: u128) -> (r: Result<u64, ScError>)
        requires
            old(self).last_sft_nonce < u64::MAX,
        ensures
            payment_amount == 0 ==> r == Result::<u64, ScError>::Err(ScError::MustPayMoreThanZero)
                && *final(self) == *old(self),
            payment_amount > 0 ==> {
                &&& r == Result::<u64, ScError>::Ok((old(self).last_sft_nonce + 1) as u64)
                &&& final(self).last_sft_nonce == old(self).last_sft_nonce + 1
                &&& final(self).liquid_staking_token_id@ == old(self).liquid_staking_token_id@
            },
    {
        if payment_amount == 0 {
            return Err(ScError::MustPayMoreThanZero);
        }
        let sft_nonce: u64 = self.create_liquid_staking_sft(payment_amount);
        Ok(sft_nonce)
    }

    /// Harvests rewards for the transferred instances: every transferred
    /// batch must belong to the managed token class; each old instance is
    /// burnt and a fresh one minted for the same amount, in order; a tenth
    /// of the total transferred amount is owed to the caller as the EGLD
    /// reward. A foreign token refuses the whole call with nothing minted.
    pub fn claim_rewards(&mut self, transfers: &Vec<EsdtTokenPayment>) -> (r: Result<
        (Vec<EsdtTokenPayment>, u128),
        ScError,
    >)
        requires
            old(self).last_sft_nonce + transfers@.len() <= u64::MAX,
            sum_amounts(transfers@) <= u128::MAX,
        ensures
            final(self).liquid_staking_token_id@ == old(self).liquid_staking_token_id@,
            (exists|k: int| 0 <= k < transfers@.len() && #[trigger] transfers@[k].token_name@
                != old(self).liquid_staking_token_id@) ==> r == Result::<
                (Vec<EsdtTokenPayment>, u128),
                ScError,
            >::Err(ScError::InvalidToken) && *final(self) == *old(self),
            (forall|k: int| 0 <= k < transfers@.len() ==> #[trigger] transfers@[k].token_name@
                == old(self).liquid_staking_token_id@) ==> (r matches Ok(v) && {
                &&& v.0@.len() == transfers@.len()
                &&& forall|k: int| 0 <= k < transfers@.len() ==> {
                    &&& (#[trigger] v.0@[k]).token_nonce == old(self).last_sft_nonce + k + 1
                    &&& v.0@[k].amount == transfers@[k].amount
                    &&& v.0@[k].token_name@ == old(self).liquid_staking_token_id@
                }
                &&& v.1 == sum_amounts(transfers@) / 10
                &&& final(self).last_sft_nonce == old(self).last_sft_nonce + transfers@.len()
            }),
    {
        let ghost m0 = *self;
        let mut new_tokens: Vec<EsdtTokenPayment> = Vec::new();
        let mut total_amount: u128 = 0;
        let mut k: usize = 0;
        while k < transfers.len()
            invariant
                *self == m0,
                m0.last_sft_nonce + transfers@.len() <= u64::MAX,
                sum_amounts(transfers@) <= u128::MAX,
                0 <= k <= transfers@.len(),
                total_amount == sum_amounts(transfers@.take(k as int)),
                new_tokens@.len() == k,
                forall|j: int| 0 <= j < k ==> #[trigger] transfers@[j].token_name@
                    == m0.liquid_staking_token_id@,
                forall|j: int| 0 <= j < k ==> {
                    &&& (#[trigger] new_tokens@[j]).token_nonce == m0.last_sft_nonce + j + 1
                    &&& new_tokens@[j].amount == transfers@[j].amount
                    &&& new_tokens@[j].token_name@ == m0.liquid_staking_token_id@
                },
            decreases transfers@.len() - k,
        {
            let transfer: &EsdtTokenPayment = &transfers[k];
            if !bytes_eq(&transfer.token_name, &self.liquid_staking_token_id) {
                return Err(ScError::InvalidToken);
            }
            proof {
                lemma_sum_amounts_take(transfers@, k + 1);
                lemma_sum_amounts_nonneg(transfers@.take(k as int));
                assert(transfers@.take(k + 1).drop_last() =~= transfers@.take(k as int));
                assert(transfers@.take(k + 1).last() == transfers@[k as int]);
            }
            total_amount = total_amount + transfer.amount;
            let new_nonce: u64 = self.last_sft_nonce + (k as u64) + 1;
            let mut name_copy: Vec<u8> = Vec::new();
            let mut b: usize = 0;
            while b < self.liquid_staking_token_id.len()
                invariant
                    0 <= b <= self.liquid_staking_token_id@.len(),
                    name_copy@ == self.liquid_staking_token_id@.take(b as int),
                decreases self.liquid_staking_token_id@.len() - b,
            {
                let c: u8 = self.liquid_staking_token_id[b];
                name_copy.push(c);
                proof {
                    assert(self.liquid_staking_token_id@.take(b as int).push(c)
                        =~= self.liquid_staking_token_id@.take(b as int + 1));
                }
                b = b + 1;
            }
            proof {
                assert(self.liquid_staking_token_id@.take(
                    self.liquid_staking_token_id@.len() as int,
                ) =~= self.liquid_staking_token_id@);
            }
            new_tokens.push(EsdtTokenPayment {
                token_name: name_copy,
                token_nonce: new_nonce,
                amount: transfer.amount,
            });
            k = k + 1;
        }
        proof {
            assert(transfers@.take(transfers@.len() as int) =~= transfers@);
        }
        let rewards_amount: u128 = total_amount / 10;
        let minted: u64 = self.last_sft_nonce + (transfers.len() as u64);
        self.last_sft_nonce = minted;
        Ok((new_tokens, rewards_amount))
    }
}

} // verus!
