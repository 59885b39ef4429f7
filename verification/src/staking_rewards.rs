//! The staking-position ledger and the epoch-guarded reward-harvest workflow.
//!
//! Positions form a doubly-linked list held in an arena indexed by position
//! id. Id `0` is the synthetic head: it always exists, carries no collateral,
//! and its `next_pos_id` points at the true first element; `0` in a link
//! field means "no neighbor". Ids are assigned monotonically: a new position
//! always gets `last_valid_staking_position_id + 1`, so the list order is
//! also ascending id order, and `last_valid_staking_position_id` is always
//! the tail of the list. A cleared arena slot reads back as an all-zero
//! position, exactly as a cleared storage entry would.
//!
//! The asynchronous parts of the workflow (the batched transfer to the
//! delegation service and the swap at the venue) are performed by the host:
//! the endpoint functions here only validate the epoch checkpoints and
//! return what to send, and the callback functions apply a reply that the
//! host hands back. Between an endpoint and its callback nothing here
//! mutates the ledger.

use vstd::prelude::*;

verus! {

use crate::errors::ScError;
use crate::tokens::EsdtTokenPayment;

/// Call shape of the swap venue, a remote contract: swap a fixed input
/// amount of `token_in` for at least `amount_out_min` of `token_out`, and
/// deliver the output to the named continuation. The host routes the call;
/// the pool only decides its arguments (see
/// `convert_staking_token_to_stablecoin`).
pub trait Dex {
    /// Issue the swap; the venue pays the output to the continuation named
    /// in `opt_accept_funds_func`.
    fn swap_tokens_fixed_input(
        &mut self,
        token_in: Vec<u8>,
        amount_in: u128,
        token_out: Vec<u8>,
        amount_out_min: u128,
        opt_accept_funds_func: Option<Vec<u8>>,
    );
}

/// One borrower's pledged collateral batch, as stored in the ledger.
#[derive(Clone, Copy, Debug, PartialEq, Eq, Structural)]
pub struct StakingPosition {
    /// The staking-derivative instance currently representing this
    /// collateral's value; swapped in place on every harvest.
    pub liquid_staking_nonce: u64,
    /// Id of the previous position in the list; `0` means none (head).
    pub prev_pos_id: u64,
    /// Id of the next position in the list; `0` means none (tail).
    pub next_pos_id: u64,
}

/// What a cleared (or never written) arena slot reads back as.
pub open spec fn empty_position() -> StakingPosition {
    StakingPosition { liquid_staking_nonce: 0, prev_pos_id: 0, next_pos_id: 0 }
}

/// The pool's ledger of staking positions together with the aggregate
/// scalars and epoch checkpoints of the harvest workflow.
pub struct StakingRewardsModule {
    /// Arena of positions, indexed by position id; slot `0` is the synthetic
    /// head. Cleared slots hold the all-zero position.
    pub positions: Vec<StakingPosition>,
    /// The ids of the populated positions, in list (= insertion) order.
    pub order: Ghost<Seq<u64>>,
    /// Highest currently populated position id; also the tail of the list.
    pub last_valid_staking_position_id: u64,
    /// Epoch of the last completed rewards claim.
    pub last_staking_rewards_claim_epoch: u64,
    /// Epoch of the last completed conversion to stablecoin.
    pub last_staking_token_convert_epoch: u64,
    /// Epoch of the last rewards calculation.
    pub last_calculate_rewards_epoch: u64,
    /// Stablecoin reserve balance, grown by each confirmed conversion.
    pub stablecoin_reserves: u128,
    /// Address of the delegation service that claims accrue from.
    pub delegation_sc_address: u64,
    /// Address of the swap venue; the only caller the conversion
    /// confirmation accepts.
    pub dex_swap_sc_address: u64,
}

impl StakingRewardsModule {
    /// The ids of the populated positions, in list order.
    pub open spec fn order_seq(self) -> Seq<u64> {
        self.order@
    }

    /// Whether `pos_id` is a currently populated position.
    pub open spec fn live(self, pos_id: u64) -> bool {
        self.order_seq().contains(pos_id)
    }

    /// The arena slot of `pos_id` (meaningful for the head and live ids).
    pub open spec fn position_at(self, pos_id: u64) -> StakingPosition {
        self.positions@[pos_id as int]
    }

    /// Whether some populated position carries this instance nonce.
    pub open spec fn has_nonce(self, nonce: u64) -> bool {
        exists|id: u64| self.live(id) && #[trigger] self.position_at(id).liquid_staking_nonce
            == nonce
    }

    /// The id of the populated position carrying this nonce (well-defined
    /// when `has_nonce` holds, since live nonces are unique).
    pub open spec fn id_of_nonce(self, nonce: u64) -> u64 {
        choose|id: u64| self.live(id) && #[trigger] self.position_at(id).liquid_staking_nonce
            == nonce
    }

    /// Id of the first element of the list, `0` if the list is empty.
    pub open spec fn spec_first_position_id(self) -> u64 {
        if self.order_seq().len() == 0 {
            0u64
        } else {
            self.order_seq()[0]
        }
    }

    /// The links of the `k`-th populated position are right: its
    /// `prev_pos_id` names the populated position before it (`0` for the
    /// first) and its `next_pos_id` the one after it (`0` for the last).
    pub open spec fn wf_node(self, k: int) -> bool {
        let ps = self.positions@;
        let ord = self.order@;
        &&& ps[ord[k] as int].prev_pos_id == (if k == 0 { 0u64 } else { ord[k - 1] })
        &&& ps[ord[k] as int].next_pos_id == (if k == ord.len() - 1 { 0u64 } else { ord[k + 1] })
    }

    /// The ledger invariant.
    ///
    /// The populated ids are strictly ascending; the synthetic head points at
    /// the first of them; every populated position points at its neighbors
    /// in order (`0` at the ends); `last_valid_staking_position_id` is the
    /// tail; cleared slots read back all-zero; and no two populated
    /// positions share an instance nonce.
    pub closed spec fn well_formed(self) -> bool {
        let ps = self.positions@;
        let ord = self.order@;
        &&& 1 <= ps.len() <= u64::MAX
        &&& ps[0].prev_pos_id == 0
        &&& ps[0].liquid_staking_nonce == 0
        &&& ps[0].next_pos_id == (if ord.len() == 0 { 0u64 } else { ord[0] })
        &&& forall|k: int| 0 <= k < ord.len() ==> 1 <= #[trigger] ord[k] < ps.len()
        &&& forall|k: int, l: int| 0 <= k < l < ord.len() ==> #[trigger] ord[k] < #[trigger] ord[l]
        &&& forall|k: int| 0 <= k < ord.len() ==> #[trigger] self.wf_node(k)
        &&& self.last_valid_staking_position_id == (if ord.len() == 0 { 0u64 } else {
            ord[ord.len() - 1]
        })
        &&& forall|i: int| 1 <= i < ps.len() && !ord.contains(i as u64) ==> #[trigger] ps[i]
            == empty_position()
        &&& forall|k: int, l: int| 0 <= k < l < ord.len()
            ==> ps[#[trigger] ord[k] as int].liquid_staking_nonce
                != ps[#[trigger] ord[l] as int].liquid_staking_nonce
    }

    /// A fresh module: empty ledger, all checkpoints and balances zero.
    pub fn new(delegation_sc_address: u64, dex_swap_sc_address: u64) -> (r: StakingRewardsModule)
        ensures
            r.well_formed(),
            r.order_seq() == Seq::<u64>::empty(),
            r.last_valid_staking_position_id == 0,
            r.last_staking_rewards_claim_epoch == 0,
            r.last_staking_token_convert_epoch == 0,
            r.last_calculate_rewards_epoch == 0,
            r.stablecoin_reserves == 0,
            r.delegation_sc_address == delegation_sc_address,
            r.dex_swap_sc_address == dex_swap_sc_address,
    {
        let mut positions: Vec<StakingPosition> = Vec::new();
        positions.push(StakingPosition { liquid_staking_nonce: 0, prev_pos_id: 0, next_pos_id: 0 });
        StakingRewardsModule {
            positions,
            order: Ghost(Seq::empty()),
            last_valid_staking_position_id: 0,
            last_staking_rewards_claim_epoch: 0,
            last_staking_token_convert_epoch: 0,
            last_calculate_rewards_epoch: 0,
            stablecoin_reserves: 0,
            delegation_sc_address,
            dex_swap_sc_address,
        }
    }

    /// Whether `pos_id` is a currently populated position. A position is
    /// recognized by its back link: the slot its `prev_pos_id` names must
    /// point forward to it, which no cleared slot satisfies.
    pub fn is_live_pos(&self, pos_id: u64) -> (r: bool)
        requires
            self.well_formed(),
        ensures
            r == self.live(pos_id),
    {
        if pos_id == 0 {
            return false;
        }
        if pos_id >= self.positions.len() as u64 {
            assert(!self.live(pos_id));
            return false;
        }
        let p: StakingPosition = self.positions[pos_id as usize];
        proof {
            let ord = self.order@;
            if self.live(pos_id) {
                let k = choose|k: int| 0 <= k < ord.len() && ord[k] == pos_id;
                assert(self.wf_node(k));
                assert(p.prev_pos_id == (if k == 0 { 0u64 } else { ord[k - 1] }));
                if k > 0 {
                    assert(1 <= ord[k - 1] < self.positions@.len());
                }
            } else {
                assert(self.positions@[pos_id as int] == empty_position());
            }
        }
        let back: StakingPosition = self.positions[p.prev_pos_id as usize];
        proof {
            let ord = self.order@;
            if self.live(pos_id) {
                let k = choose|k: int| 0 <= k < ord.len() && ord[k] == pos_id;
                assert(self.wf_node(k));
                if k == 0 {
                    assert(self.positions@[0].next_pos_id == ord[0]);
                } else {
                    assert(self.wf_node(k - 1));
                    assert(self.positions@[ord[k - 1] as int].next_pos_id == ord[k]);
                }
            } else {
                if ord.len() > 0 {
                    assert(ord.contains(ord[0]));
                }
                assert(back.next_pos_id != pos_id);
            }
        }
        back.next_pos_id == pos_id
    }

    /// The doubly-linked structure is consistent: the traversal order holds
    /// each populated position exactly once, and from any populated
    /// position the links round-trip — its successor (if any) points back
    /// at it, its predecessor (if any) points forward at it, a missing
    /// successor means it is the tail (`last_valid_staking_position_id`),
    /// and a missing predecessor means it is the first element.
    pub proof fn lemma_list_links_consistent(self, pos_id: u64)
        requires
            self.well_formed(),
            self.live(pos_id),
        ensures
            self.order_seq().no_duplicates(),
            self.position_at(pos_id).next_pos_id != 0 ==> self.live(
                self.position_at(pos_id).next_pos_id,
            ) && self.position_at(self.position_at(pos_id).next_pos_id).prev_pos_id == pos_id,
            self.position_at(pos_id).next_pos_id == 0 ==> pos_id
                == self.last_valid_staking_position_id,
            self.position_at(pos_id).prev_pos_id != 0 ==> self.live(
                self.position_at(pos_id).prev_pos_id,
            ) && self.position_at(self.position_at(pos_id).prev_pos_id).next_pos_id == pos_id,
            self.position_at(pos_id).prev_pos_id == 0 ==> pos_id == self.spec_first_position_id(),
    {
        let ord = self.order@;
        assert forall|a: int, b: int| 0 <= a < ord.len() && 0 <= b < ord.len() && a != b
            implies ord[a] != ord[b] by {
            if a < b {
                assert(ord[a] < ord[b]);
            } else {
                assert(ord[b] < ord[a]);
            }
        }
        let k = choose|k: int| 0 <= k < ord.len() && ord[k] == pos_id;
        assert(self.wf_node(k));
        if k < ord.len() - 1 {
            assert(self.wf_node(k + 1));
            assert(ord.contains(ord[k + 1]));
            assert(1 <= ord[k + 1]);
        }
        if k > 0 {
            assert(self.wf_node(k - 1));
            assert(ord.contains(ord[k - 1]));
            assert(1 <= ord[k - 1]);
        }
    }

    /// The instance-to-position mapping is unique: two populated positions
    /// carrying the same instance nonce are the same position.
    pub proof fn lemma_live_nonce_unique(self, a: u64, b: u64)
        requires
            self.well_formed(),
            self.live(a),
            self.live(b),
            self.position_at(a).liquid_staking_nonce == self.position_at(b).liquid_staking_nonce,
        ensures
            a == b,
    {
        let ord = self.order@;
        let ka = choose|k: int| 0 <= k < ord.len() && ord[k] == a;
        let kb = choose|k: int| 0 <= k < ord.len() && ord[k] == b;
        if ka < kb {
            assert(self.positions@[ord[ka] as int].liquid_staking_nonce
                != self.positions@[ord[kb] as int].liquid_staking_nonce);
        } else if kb < ka {
            assert(self.positions@[ord[kb] as int].liquid_staking_nonce
                != self.positions@[ord[ka] as int].liquid_staking_nonce);
        }
    }

    /// Looks the secondary index up: the id of the populated position
    /// carrying `liquid_staking_nonce`, or `0` if there is none.
    pub fn staking_position_nonce_to_id(&self, liquid_staking_nonce: u64) -> (r: u64)
        requires
            self.well_formed(),
        ensures
            self.has_nonce(liquid_staking_nonce) ==> {
                &&& r == self.id_of_nonce(liquid_staking_nonce)
                &&& self.live(r)
                &&& self.position_at(r).liquid_staking_nonce == liquid_staking_nonce
            },
            !self.has_nonce(liquid_staking_nonce) ==> r == 0,
    {
        let ghost ord = self.order@;
        let mut cur: u64 = self.positions[0].next_pos_id;
        let ghost mut k: int = 0;
        while cur != 0
            invariant
                self.well_formed(),
                ord == self.order@,
                0 <= k <= ord.len(),
                cur == (if k < ord.len() { ord[k] } else { 0u64 }),
                forall|j: int| 0 <= j < k
                    ==> self.positions@[#[trigger] ord[j] as int].liquid_staking_nonce
                        != liquid_staking_nonce,
            decreases ord.len() - k,
        {
            proof {
                assert(k < ord.len());
                assert(1 <= ord[k] < self.positions@.len());
                assert(self.wf_node(k));
            }
            let n: usize = self.positions.len();
            let p: StakingPosition = self.positions[cur as usize];
            if p.liquid_staking_nonce == liquid_staking_nonce {
                proof {
                    assert(ord.contains(cur));
                    assert(self.position_at(cur).liquid_staking_nonce == liquid_staking_nonce);
                    assert(self.has_nonce(liquid_staking_nonce));
                    self.lemma_live_nonce_unique(
                        cur,
                        self.id_of_nonce(liquid_staking_nonce),
                    );
                }
                return cur;
            }
            cur = p.next_pos_id;
            proof {
                k = k + 1;
            }
        }
        proof {
            assert(k == ord.len());
            if self.has_nonce(liquid_staking_nonce) {
                let id = choose|id: u64|
                    self.live(id) && #[trigger] self.position_at(id).liquid_staking_nonce
                        == liquid_staking_nonce;
                let j = choose|j: int| 0 <= j < ord.len() && ord[j] == id;
                assert(self.positions@[ord[j] as int].liquid_staking_nonce
                    != liquid_staking_nonce);
            }
        }
        0
    }

    /// Registers pledged collateral: appends a new position for
    /// `liquid_staking_nonce` at the tail of the list and indexes it.
    ///
    /// Idempotent: if the nonce is already registered, the existing position
    /// id is returned and nothing changes, so registering the same collateral
    /// instance twice cannot duplicate it.
    pub fn add_staking_position(&mut self, liquid_staking_nonce: u64) -> (r: u64)
        requires
            old(self).well_formed(),
            old(self).last_valid_staking_position_id + 2 <= u64::MAX,
        ensures
            final(self).well_formed(),
            old(self).has_nonce(liquid_staking_nonce) ==> {
                &&& r == old(self).id_of_nonce(liquid_staking_nonce)
                &&& *final(self) == *old(self)
            },
            !old(self).has_nonce(liquid_staking_nonce) ==> {
                &&& r == old(self).last_valid_staking_position_id + 1
                &&& final(self).order_seq() == old(self).order_seq().push(r)
                &&& final(self).position_at(r) == (StakingPosition {
                    liquid_staking_nonce,
                    prev_pos_id: old(self).last_valid_staking_position_id,
                    next_pos_id: 0u64,
                })
                &&& final(self).last_valid_staking_position_id == r
                &&& forall|id: u64| old(self).live(id)
                    ==> final(self).position_at(id).liquid_staking_nonce == old(self).position_at(
                        id,
                    ).liquid_staking_nonce
            },
            final(self).live(r),
            final(self).id_of_nonce(liquid_staking_nonce) == r,
            final(self).position_at(r).liquid_staking_nonce == liquid_staking_nonce,
            final(self).last_staking_rewards_claim_epoch == old(
                self,
            ).last_staking_rewards_claim_epoch,
            final(self).last_staking_token_convert_epoch == old(
                self,
            ).last_staking_token_convert_epoch,
            final(self).last_calculate_rewards_epoch == old(self).last_calculate_rewards_epoch,
            final(self).stablecoin_reserves == old(self).stablecoin_reserves,
            final(self).delegation_sc_address == old(self).delegation_sc_address,
            final(self).dex_swap_sc_address == old(self).dex_swap_sc_address,
    {
        let ghost old_ord = self.order@;
        let ghost old_ps = self.positions@;
        let existing_id: u64 = self.staking_position_nonce_to_id(liquid_staking_nonce);
        if existing_id != 0 {
            return existing_id;
        }
        proof {
            if self.has_nonce(liquid_staking_nonce) {
                assert(self.live(0u64));
                let j = choose|j: int| 0 <= j < old_ord.len() && old_ord[j] == 0u64;
                assert(1 <= old_ord[j] < old_ps.len());
            }
            assert(!self.has_nonce(liquid_staking_nonce));
        }
        let prev_last_id: u64 = self.last_valid_staking_position_id;
        proof {
            if old_ord.len() > 0 {
                assert(1 <= old_ord[old_ord.len() - 1] < old_ps.len());
            }
        }
        let new_last_id: u64 = prev_last_id + 1;
        let n: usize = self.positions.len();
        let pidx: usize = prev_last_id as usize;
        let mut tail: StakingPosition = self.positions[pidx];
        tail.next_pos_id = new_last_id;
        self.positions.set(pidx, tail);
        let new_pos = StakingPosition {
            liquid_staking_nonce,
            prev_pos_id: prev_last_id,
            next_pos_id: 0,
        };
        proof {
            // every populated id, and so also the tail, lies below the new id
            assert forall|k: int| 0 <= k < old_ord.len() implies #[trigger] old_ord[k]
                <= prev_last_id by {
                if k < old_ord.len() - 1 {
                    assert(old_ord[k] < old_ord[old_ord.len() - 1]);
                }
            }
            assert(!old_ord.contains(new_last_id));
        }
        if new_last_id < self.positions.len() as u64 {
            self.positions.set(new_last_id as usize, new_pos);
        } else {
            proof {
                assert(new_last_id == self.positions@.len());
            }
            self.positions.push(new_pos);
        }
        self.last_valid_staking_position_id = new_last_id;
        self.order = Ghost(old_ord.push(new_last_id));
        proof {
            let ord = self.order@;
            let ps = self.positions@;
            assert(ord.len() == old_ord.len() + 1);
            assert(ord[old_ord.len() as int] == new_last_id);
            assert(ord.contains(new_last_id));
            if old_ord.len() > 0 {
                assert(ord[old_ord.len() - 1] == prev_last_id);
                assert(ord.contains(prev_last_id));
            }
            assert forall|k: int| 0 <= k < ord.len() implies 1 <= #[trigger] ord[k]
                < ps.len() by {
                if k < old_ord.len() {
                    assert(ord[k] == old_ord[k]);
                }
            }
            assert forall|i: int| 1 <= i < ps.len() && !ord.contains(i as u64)
                implies #[trigger] ps[i] == empty_position() by {
                assert(i != new_last_id);
                assert(i != prev_last_id || prev_last_id == 0);
                if !old_ord.contains(i as u64) {
                    assert(old_ps[i] == empty_position());
                } else {
                    let j = choose|j: int| 0 <= j < old_ord.len() && old_ord[j] == i as u64;
                    assert(ord[j] == i as u64);
                    assert(ord.contains(i as u64));
                }
            }
            assert forall|k: int| 0 <= k < ord.len() implies #[trigger] self.wf_node(k) by {
                if k < old_ord.len() {
                    assert(old(self).wf_node(k));
                    if k < old_ord.len() - 1 {
                        assert(old_ord[k] < old_ord[old_ord.len() - 1]);
                        assert(ps[ord[k] as int] == old_ps[old_ord[k] as int]);
                    } else {
                        assert(ord[k] == prev_last_id || prev_last_id == 0);
                    }
                } else {
                    assert(ord[k] == new_last_id);
                }
            }
            assert forall|k: int, l: int| 0 <= k < l < ord.len()
                implies ps[#[trigger] ord[k] as int].liquid_staking_nonce
                    != ps[#[trigger] ord[l] as int].liquid_staking_nonce by {
                if l < old_ord.len() {
                    assert(old_ps[old_ord[k] as int].liquid_staking_nonce
                        != old_ps[old_ord[l] as int].liquid_staking_nonce);
                } else {
                    assert(ord[l] == new_last_id);
                    assert(old_ord.contains(old_ord[k]));
                    assert(old(self).live(old_ord[k]));
                    assert(old(self).position_at(old_ord[k]).liquid_staking_nonce
                        != liquid_staking_nonce);
                }
            }
            assert(self.well_formed());
            assert(ord.contains(new_last_id));
            assert(self.live(new_last_id));
            assert(self.position_at(new_last_id).liquid_staking_nonce == liquid_staking_nonce);
            assert(self.has_nonce(liquid_staking_nonce));
            self.lemma_live_nonce_unique(new_last_id, self.id_of_nonce(liquid_staking_nonce));
            assert forall|id: u64| old(self).live(id) implies #[trigger] self.position_at(
                id,
            ).liquid_staking_nonce == old(self).position_at(id).liquid_staking_nonce by {
                let j = choose|j: int| 0 <= j < old_ord.len() && old_ord[j] == id;
                if id != prev_last_id {
                    assert(ps[id as int] == old_ps[id as int]);
                }
            }
        }
        new_last_id
    }

    /// Removing the `k0`-th populated position, rewiring its two neighbors
    /// around it, rewinding the tail pointer when the tail goes, and
    /// clearing its slot preserves the ledger invariant and shrinks the
    /// populated set by exactly that position.
    #[verifier::rlimit(100)]
    proof fn lemma_remove_rewires(
        pre: StakingRewardsModule,
        post: StakingRewardsModule,
        pos: StakingPosition,
        pos_id: u64,
        k0: int,
    )
        requires
            pre.well_formed(),
            0 <= k0 < pre.order@.len(),
            pre.order@[k0] == pos_id,
            pos == pre.positions@[pos_id as int],
            post.order@ == pre.order@.remove(k0),
            post.positions@.len() == pre.positions@.len(),
            post.last_valid_staking_position_id == (if k0 == pre.order@.len() - 1 {
                pos.prev_pos_id
            } else {
                pre.last_valid_staking_position_id
            }),
            post.positions@[pos_id as int] == empty_position(),
            post.positions@[pos.prev_pos_id as int].next_pos_id == pos.next_pos_id,
            post.positions@[pos.prev_pos_id as int].prev_pos_id == pre.positions@[pos.prev_pos_id as int].prev_pos_id,
            post.positions@[pos.prev_pos_id as int].liquid_staking_nonce == pre.positions@[pos.prev_pos_id as int].liquid_staking_nonce,
            pos.next_pos_id != 0 ==> {
                &&& post.positions@[pos.next_pos_id as int].prev_pos_id == pos.prev_pos_id
                &&& post.positions@[pos.next_pos_id as int].next_pos_id == pre.positions@[pos.next_pos_id as int].next_pos_id
                &&& post.positions@[pos.next_pos_id as int].liquid_staking_nonce == pre.positions@[pos.next_pos_id as int].liquid_staking_nonce
            },
            forall|i: int| 0 <= i < pre.positions@.len() && i != pos_id as int && i
                != pos.prev_pos_id as int && (pos.next_pos_id == 0 || i != pos.next_pos_id as int)
                ==> post.positions@[i] == pre.positions@[i],
        ensures
            post.well_formed(),
            !post.live(pos_id),
            forall|id: u64| post.live(id) <==> (pre.live(id) && id != pos_id),
            forall|id: u64| pre.live(id) && id != pos_id
                ==> post.position_at(id).liquid_staking_nonce == pre.position_at(
                    id,
                ).liquid_staking_nonce,
    {
        let old_ord = pre.order@;
        let old_ps = pre.positions@;
        let ord = post.order@;
        let ps = post.positions@;
        assert(pre.wf_node(k0));
        if pos.prev_pos_id != 0 {
            assert(k0 > 0);
            assert(1 <= old_ord[k0 - 1] < old_ps.len());
            assert(old_ord[k0 - 1] < old_ord[k0]);
            assert(old_ord.contains(pos.prev_pos_id));
        }
        if pos.next_pos_id != 0 {
            assert(k0 < old_ord.len() - 1);
            assert(1 <= old_ord[k0 + 1] < old_ps.len());
            assert(old_ord[k0] < old_ord[k0 + 1]);
            assert(old_ord.contains(pos.next_pos_id));
        }
        assert(ord.len() == old_ord.len() - 1);
        assert(forall|j: int| 0 <= j < k0 ==> #[trigger] ord[j] == old_ord[j]);
        assert(forall|j: int| k0 <= j < ord.len() ==> #[trigger] ord[j] == old_ord[j + 1]);
        // ids in the shrunk order differ from the removed one
        assert forall|j: int| 0 <= j < ord.len() implies #[trigger] ord[j] != pos_id && 1 <= ord[j]
            < ps.len() by {
            if j < k0 {
                assert(old_ord[j] < old_ord[k0]);
            } else {
                assert(old_ord[k0] < old_ord[j + 1]);
            }
        }
        assert(!ord.contains(pos_id));
        // links of every remaining node
        assert forall|j: int| 0 <= j < ord.len() implies #[trigger] post.wf_node(j) by {
            if j < k0 - 1 {
                assert(pre.wf_node(j));
                assert(old_ord[j] < old_ord[k0 - 1]);
                if k0 < old_ord.len() - 1 {
                    assert(old_ord[j] < old_ord[k0 + 1]);
                }
                assert(ps[ord[j] as int] == old_ps[old_ord[j] as int]);
            } else if j == k0 - 1 {
                assert(pre.wf_node(j));
                assert(ps[ord[j] as int].prev_pos_id == old_ps[old_ord[j] as int].prev_pos_id);
                assert(ps[ord[j] as int].next_pos_id == pos.next_pos_id);
                if j < ord.len() - 1 {
                    assert(ord[j + 1] == old_ord[k0 + 1]);
                }
            } else if j == k0 {
                // the node after the removed one; its back link was rewritten
                assert(pre.wf_node(j + 1));
                assert(old_ord[j + 1] == pos.next_pos_id);
                assert(ps[ord[j] as int].prev_pos_id == pos.prev_pos_id);
                if j > 0 {
                    assert(ord[j - 1] == old_ord[k0 - 1]);
                }
                if j < ord.len() - 1 {
                    assert(ord[j + 1] == old_ord[j + 2]);
                    assert(ps[ord[j] as int].next_pos_id
                        == old_ps[old_ord[j + 1] as int].next_pos_id);
                }
            } else {
                assert(pre.wf_node(j + 1));
                assert(old_ord[k0] < old_ord[j + 1]);
                if k0 > 0 {
                    assert(old_ord[k0 - 1] < old_ord[j + 1]);
                }
                if k0 < old_ord.len() - 1 && j + 1 != k0 + 1 {
                    assert(old_ord[k0 + 1] < old_ord[j + 1] || old_ord[j + 1] < old_ord[k0 + 1]);
                }
                assert(ps[ord[j] as int] == old_ps[old_ord[j + 1] as int]
                    || ps[ord[j] as int].prev_pos_id
                        == old_ps[old_ord[j + 1] as int].prev_pos_id);
                assert(ps[ord[j] as int].next_pos_id == old_ps[old_ord[j + 1] as int].next_pos_id);
                assert(ps[ord[j] as int].prev_pos_id == (if j == k0 {
                    pos.prev_pos_id
                } else {
                    old_ps[old_ord[j + 1] as int].prev_pos_id
                }));
            }
        }
        // cleared and untouched slots stay or become empty
        assert forall|i: int| 1 <= i < ps.len() && !ord.contains(i as u64) implies #[trigger] ps[i]
            == empty_position() by {
            if i == pos_id {
            } else if old_ord.contains(i as u64) {
                let j = choose|j: int| 0 <= j < old_ord.len() && old_ord[j] == i as u64;
                if j < k0 {
                    assert(ord[j] == i as u64);
                } else {
                    assert(j > k0);
                    assert(ord[j - 1] == i as u64);
                }
                assert(ord.contains(i as u64));
            } else {
                assert(old_ps[i] == empty_position());
                assert(i != pos.prev_pos_id as int || pos.prev_pos_id == 0);
                assert(pos.next_pos_id != 0 ==> i != pos.next_pos_id as int);
                assert(ps[i] == old_ps[i]);
            }
        }
        // nonces of the remaining nodes are untouched, hence still unique
        assert forall|j: int| 0 <= j < ord.len() implies #[trigger] ps[ord[j] as int].liquid_staking_nonce
            == old_ps[ord[j] as int].liquid_staking_nonce by {
            assert(ord[j] != pos_id);
        }
        assert forall|k: int, l: int| 0 <= k < l < ord.len()
            implies ps[#[trigger] ord[k] as int].liquid_staking_nonce
                != ps[#[trigger] ord[l] as int].liquid_staking_nonce by {
            if l < k0 {
                assert(old_ps[old_ord[k] as int].liquid_staking_nonce
                    != old_ps[old_ord[l] as int].liquid_staking_nonce);
            } else if k < k0 {
                assert(old_ps[old_ord[k] as int].liquid_staking_nonce
                    != old_ps[old_ord[l + 1] as int].liquid_staking_nonce);
            } else {
                assert(old_ps[old_ord[k + 1] as int].liquid_staking_nonce
                    != old_ps[old_ord[l + 1] as int].liquid_staking_nonce);
            }
        }
        assert(post.well_formed());
        // liveness moves over exactly: every id but the removed one
        assert forall|id: u64| post.live(id) <==> (pre.live(id) && id != pos_id) by {
            if post.live(id) {
                let j = choose|j: int| 0 <= j < ord.len() && ord[j] == id;
                if j < k0 {
                    assert(old_ord[j] == id);
                } else {
                    assert(old_ord[j + 1] == id);
                }
                assert(pre.live(id));
            }
            if pre.live(id) && id != pos_id {
                let j = choose|j: int| 0 <= j < old_ord.len() && old_ord[j] == id;
                if j < k0 {
                    assert(ord[j] == id);
                } else {
                    assert(j != k0);
                    assert(ord[j - 1] == id);
                }
                assert(post.live(id));
            }
        }
        assert forall|id: u64| pre.live(id) && id != pos_id
            implies #[trigger] post.position_at(id).liquid_staking_nonce == pre.position_at(
            id,
        ).liquid_staking_nonce by {
            assert(post.live(id));
        }
    }

    /// Releases collateral: unlinks the position from both neighbors, rewinds
    /// `last_valid_staking_position_id` when the tail is removed, and clears
    /// the slot. The secondary index cannot go stale on removal: it is the
    /// set of populated positions itself, so a removed instance can be
    /// registered anew.
    ///
    /// Removing id `0` or an id that is not populated is a no-op; it never
    /// corrupts unrelated positions.
    pub fn remove_staking_position(&mut self, pos_id: u64)
        requires
            old(self).well_formed(),
        ensures
            final(self).well_formed(),
            !old(self).live(pos_id) ==> *final(self) == *old(self),
            old(self).live(pos_id) ==> {
                &&& final(self).order_seq() == old(self).order_seq().remove(
                    old(self).order_seq().index_of(pos_id),
                )
                &&& !final(self).live(pos_id)
                &&& forall|id: u64| final(self).live(id) <==> (old(self).live(id) && id != pos_id)
                &&& forall|id: u64| old(self).live(id) && id != pos_id
                    ==> final(self).position_at(id).liquid_staking_nonce == old(self).position_at(
                        id,
                    ).liquid_staking_nonce
                &&& final(self).last_valid_staking_position_id == (if pos_id == old(
                    self,
                ).last_valid_staking_position_id {
                    old(self).position_at(pos_id).prev_pos_id
                } else {
                    old(self).last_valid_staking_position_id
                })
            },
            final(self).last_staking_rewards_claim_epoch == old(
                self,
            ).last_staking_rewards_claim_epoch,
            final(self).last_staking_token_convert_epoch == old(
                self,
            ).last_staking_token_convert_epoch,
            final(self).last_calculate_rewards_epoch == old(self).last_calculate_rewards_epoch,
            final(self).stablecoin_reserves == old(self).stablecoin_reserves,
            final(self).delegation_sc_address == old(self).delegation_sc_address,
            final(self).dex_swap_sc_address == old(self).dex_swap_sc_address,
    {
        if pos_id == 0 {
            return;
        }
        if !self.is_live_pos(pos_id) {
            return;
        }
        let ghost old_ord = self.order@;
        let ghost old_ps = self.positions@;
        let ghost k0 = old_ord.index_of(pos_id);
        let n: usize = self.positions.len();
        let pos: StakingPosition = self.positions[pos_id as usize];
        proof {
            assert(0 <= k0 < old_ord.len() && old_ord[k0] == pos_id);
            assert(self.wf_node(k0));
            if k0 > 0 {
                assert(1 <= old_ord[k0 - 1] < old_ps.len());
                assert(old_ord[k0 - 1] < old_ord[k0]);
            }
            if k0 < old_ord.len() - 1 {
                assert(1 <= old_ord[k0 + 1] < old_ps.len());
                assert(old_ord[k0] < old_ord[k0 + 1]);
            }
        }
        let pidx: usize = pos.prev_pos_id as usize;
        let mut prev: StakingPosition = self.positions[pidx];
        prev.next_pos_id = pos.next_pos_id;
        self.positions.set(pidx, prev);
        if pos.next_pos_id != 0 {
            proof {
                assert(k0 < old_ord.len() - 1);
            }
            let nidx: usize = pos.next_pos_id as usize;
            let mut nxt: StakingPosition = self.positions[nidx];
            nxt.prev_pos_id = pos.prev_pos_id;
            self.positions.set(nidx, nxt);
        }
        proof {
            if pos_id == self.last_valid_staking_position_id {
                assert(old_ord[k0] == old_ord[old_ord.len() - 1]);
                if k0 < old_ord.len() - 1 {
                    assert(old_ord[k0] < old_ord[old_ord.len() - 1]);
                }
                assert(k0 == old_ord.len() - 1);
            } else {
                assert(k0 != old_ord.len() - 1);
            }
        }
        if pos_id == self.last_valid_staking_position_id {
            self.last_valid_staking_position_id = pos.prev_pos_id;
        }
        self.positions.set(
            pos_id as usize,
            StakingPosition { liquid_staking_nonce: 0, prev_pos_id: 0, next_pos_id: 0 },
        );
        self.order = Ghost(old_ord.remove(k0));
        proof {
            assert forall|i: int|
                0 <= i < old_ps.len() && i != pos_id as int && i != pos.prev_pos_id as int && (
                pos.next_pos_id == 0 || i != pos.next_pos_id as int) implies self.positions@[i]
                == old_ps[i] by {}
            Self::lemma_remove_rewires(*old(self), *self, pos, pos_id, k0);
        }
    }

    /// All populated positions, in list order, found by following
    /// `next_pos_id` links from the head until `0`.
    pub fn traverse(&self) -> (r: Vec<StakingPosition>)
        requires
            self.well_formed(),
        ensures
            r@.len() == self.order_seq().len(),
            forall|j: int| 0 <= j < r@.len() ==> #[trigger] r@[j] == self.position_at(
                self.order_seq()[j],
            ),
    {
        let ghost ord = self.order@;
        let mut result: Vec<StakingPosition> = Vec::new();
        let mut cur: u64 = self.positions[0].next_pos_id;
        let ghost mut k: int = 0;
        while cur != 0
            invariant
                self.well_formed(),
                ord == self.order@,
                0 <= k <= ord.len(),
                cur == (if k < ord.len() { ord[k] } else { 0u64 }),
                result@.len() == k,
                forall|j: int| 0 <= j < k ==> #[trigger] result@[j] == self.position_at(ord[j]),
            decreases ord.len() - k,
        {
            proof {
                assert(1 <= ord[k] < self.positions@.len());
                assert(self.wf_node(k));
            }
            let n: usize = self.positions.len();
            let p: StakingPosition = self.positions[cur as usize];
            result.push(p);
            cur = p.next_pos_id;
            proof {
                k = k + 1;
            }
        }
        result
    }

    /// First phase of the harvest: checks the epoch guard and collects, in
    /// list order, the position ids and the instance nonces whose full
    /// balances the host must forward to the delegation service in one
    /// batched call, with the ids as correlation data for the callback.
    ///
    /// Nothing is mutated here: the ledger and the claim checkpoint change
    /// only when the reply reaches `claim_staking_rewards_callback`, so a
    /// failed remote call leaves a retry possible.
    pub fn claim_staking_rewards(&self, current_epoch: u64) -> (r: Result<
        (Vec<u64>, Vec<u64>),
        ScError,
    >)
        requires
            self.well_formed(),
        ensures
            current_epoch <= self.last_staking_rewards_claim_epoch ==> r == Result::<
                (Vec<u64>, Vec<u64>),
                ScError,
            >::Err(ScError::AlreadyClaimedThisEpoch),
            current_epoch > self.last_staking_rewards_claim_epoch && self.order_seq().len() == 0
                ==> r == Result::<(Vec<u64>, Vec<u64>), ScError>::Err(
                ScError::NoPositionsAvailable,
            ),
            current_epoch > self.last_staking_rewards_claim_epoch && self.order_seq().len() > 0
                ==> (r matches Ok(v) && {
                &&& v.0@ == self.order_seq()
                &&& v.1@.len() == self.order_seq().len()
                &&& forall|j: int| 0 <= j < v.1@.len() ==> #[trigger] v.1@[j]
                    == self.position_at(self.order_seq()[j]).liquid_staking_nonce
            }),
    {
        if current_epoch <= self.last_staking_rewards_claim_epoch {
            return Err(ScError::AlreadyClaimedThisEpoch);
        }
        let first_id: u64 = self.get_first_staking_position_id();
        if first_id == 0 {
            return Err(ScError::NoPositionsAvailable);
        }
        let ghost ord = self.order@;
        let mut callback_pos_ids: Vec<u64> = Vec::new();
        let mut transfer_nonces: Vec<u64> = Vec::new();
        let mut cur: u64 = first_id;
        let ghost mut k: int = 0;
        while cur != 0
            invariant
                self.well_formed(),
                ord == self.order@,
                0 <= k <= ord.len(),
                cur == (if k < ord.len() { ord[k] } else { 0u64 }),
                callback_pos_ids@ == ord.subrange(0, k),
                transfer_nonces@.len() == k,
                forall|j: int| 0 <= j < k ==> #[trigger] transfer_nonces@[j] == self.position_at(
                    ord[j],
                ).liquid_staking_nonce,
            decreases ord.len() - k,
        {
            proof {
                assert(1 <= ord[k] < self.positions@.len());
                assert(self.wf_node(k));
            }
            let n: usize = self.positions.len();
            let p: StakingPosition = self.positions[cur as usize];
            callback_pos_ids.push(cur);
            transfer_nonces.push(p.liquid_staking_nonce);
            proof {
                assert(ord.subrange(0, k).push(ord[k]) =~= ord.subrange(0, k + 1));
            }
            cur = p.next_pos_id;
            proof {
                k = k + 1;
            }
        }
        proof {
            assert(ord.subrange(0, ord.len() as int) =~= ord);
        }
        Ok((callback_pos_ids, transfer_nonces))
    }

    /// Applies the delegation service's reply to the claim: for every
    /// correlated position id, in order, the freshly minted instance nonce
    /// replaces the stored one (links untouched), and the claim checkpoint
    /// advances to the current epoch.
    ///
    /// A failed call leaves everything unchanged, as does a reply whose
    /// length does not match the correlation list: a partial or malformed
    /// reply must not partially update the ledger. A correlated id that is
    /// no longer populated is skipped, never invented.
    ///
    /// The freshness conditions mirror what the token system guarantees: the
    /// old instances were burnt and the new ones minted under nonces never
    /// seen before, so the new nonces are pairwise distinct and collide with
    /// no stored one; and the correlation ids stem from one traversal, so
    /// they hold no duplicates.
    pub fn claim_staking_rewards_callback(
        &mut self,
        success: bool,
        current_epoch: u64,
        pos_ids: &Vec<u64>,
        new_liquid_staking_tokens: &Vec<EsdtTokenPayment>,
    )
        requires
            old(self).well_formed(),
            success && pos_ids@.len() == new_liquid_staking_tokens@.len() ==> {
                &&& forall|a: int, b: int|
                    0 <= a < b < new_liquid_staking_tokens@.len()
                        ==> new_liquid_staking_tokens@[a].token_nonce
                        != new_liquid_staking_tokens@[b].token_nonce
                &&& forall|a: int| 0 <= a < new_liquid_staking_tokens@.len() ==> !old(
                    self,
                ).has_nonce(#[trigger] new_liquid_staking_tokens@[a].token_nonce)
                &&& pos_ids@.no_duplicates()
            },
        ensures
            final(self).well_formed(),
            !success ==> *final(self) == *old(self),
            success && pos_ids@.len() != new_liquid_staking_tokens@.len() ==> *final(self) == *old(
                self,
            ),
            success && pos_ids@.len() == new_liquid_staking_tokens@.len() ==> {
                &&& final(self).order_seq() == old(self).order_seq()
                &&& final(self).last_staking_rewards_claim_epoch == current_epoch
                &&& forall|j: int| 0 <= j < pos_ids@.len() && old(self).live(#[trigger] pos_ids@[j])
                    ==> final(self).position_at(pos_ids@[j]).liquid_staking_nonce
                        == new_liquid_staking_tokens@[j].token_nonce
                &&& forall|id: u64| old(self).live(id) && !pos_ids@.contains(id)
                    ==> final(self).position_at(id) == old(self).position_at(id)
                &&& forall|id: u64| old(self).live(id)
                    ==> final(self).position_at(id).prev_pos_id == old(self).position_at(
                        id,
                    ).prev_pos_id && final(self).position_at(id).next_pos_id == old(
                        self,
                    ).position_at(id).next_pos_id
                &&& final(self).last_valid_staking_position_id == old(
                    self,
                ).last_valid_staking_position_id
                &&& final(self).last_staking_token_convert_epoch == old(
                    self,
                ).last_staking_token_convert_epoch
                &&& final(self).last_calculate_rewards_epoch == old(
                    self,
                ).last_calculate_rewards_epoch
                &&& final(self).stablecoin_reserves == old(self).stablecoin_reserves
                &&& final(self).delegation_sc_address == old(self).delegation_sc_address
                &&& final(self).dex_swap_sc_address == old(self).dex_swap_sc_address
            },
    {
        if !success {
            return;
        }
        if pos_ids.len() != new_liquid_staking_tokens.len() {
            return;
        }
        let ghost m0 = *self;
        let mut j: usize = 0;
        while j < pos_ids.len()
            invariant
                self.well_formed(),
                pos_ids@.len() == new_liquid_staking_tokens@.len(),
                forall|a: int, b: int| 0 <= a < b < new_liquid_staking_tokens@.len()
                    ==> new_liquid_staking_tokens@[a].token_nonce
                        != new_liquid_staking_tokens@[b].token_nonce,
                forall|a: int| 0 <= a < new_liquid_staking_tokens@.len() ==> !m0.has_nonce(
                    #[trigger] new_liquid_staking_tokens@[a].token_nonce,
                ),
                pos_ids@.no_duplicates(),
                m0.well_formed(),
                0 <= j <= pos_ids@.len(),
                self.order@ == m0.order@,
                self.positions@.len() == m0.positions@.len(),
                self.last_valid_staking_position_id == m0.last_valid_staking_position_id,
                self.last_staking_rewards_claim_epoch == m0.last_staking_rewards_claim_epoch,
                self.last_staking_token_convert_epoch == m0.last_staking_token_convert_epoch,
                self.last_calculate_rewards_epoch == m0.last_calculate_rewards_epoch,
                self.stablecoin_reserves == m0.stablecoin_reserves,
                self.delegation_sc_address == m0.delegation_sc_address,
                self.dex_swap_sc_address == m0.dex_swap_sc_address,
                forall|i: int| 0 <= i < m0.positions@.len()
                    ==> (#[trigger] self.positions@[i]).prev_pos_id == m0.positions@[i].prev_pos_id
                        && self.positions@[i].next_pos_id == m0.positions@[i].next_pos_id,
                forall|i: int| 0 <= i < m0.positions@.len() && !m0.live(i as u64)
                    ==> #[trigger] self.positions@[i] == m0.positions@[i],
                forall|j2: int| 0 <= j2 < j && m0.live(#[trigger] pos_ids@[j2])
                    ==> self.positions@[pos_ids@[j2] as int].liquid_staking_nonce
                        == new_liquid_staking_tokens@[j2].token_nonce,
                forall|id: u64| m0.live(id) && !pos_ids@.subrange(0, j as int).contains(id)
                    ==> #[trigger] self.position_at(id) == m0.position_at(id),
            decreases pos_ids@.len() - j,
        {
            let ghost before = *self;
            let pos_id: u64 = pos_ids[j];
            if self.is_live_pos(pos_id) {
                proof {
                    let ord = self.order@;
                    let kx = choose|kx: int| 0 <= kx < ord.len() && ord[kx] == pos_id;
                    assert(1 <= ord[kx] < self.positions@.len());
                }
                let n: usize = self.positions.len();
                let idx: usize = pos_id as usize;
                let mut slot: StakingPosition = self.positions[idx];
                slot.liquid_staking_nonce = new_liquid_staking_tokens[j].token_nonce;
                self.positions.set(idx, slot);
                proof {
                    let ord = self.order@;
                    let ps = self.positions@;
                    assert(m0.live(pos_id));
                    assert forall|k: int| 0 <= k < ord.len() implies #[trigger] self.wf_node(
                        k,
                    ) by {
                        assert(before.wf_node(k));
                    }
                    assert forall|k: int, l: int| 0 <= k < l < ord.len()
                        implies ps[#[trigger] ord[k] as int].liquid_staking_nonce
                            != ps[#[trigger] ord[l] as int].liquid_staking_nonce by {
                        let idk = ord[k];
                        let idl = ord[l];
                        assert(ord.contains(idk));
                        assert(ord.contains(idl));
                        assert(before.positions@[idk as int].liquid_staking_nonce
                            != before.positions@[idl as int].liquid_staking_nonce);
                        assert(m0.live(idk) && m0.live(idl));
                        // each current nonce is the stored one or a fresh one
                        if idk != pos_id && idl != pos_id {
                            assert(ps[idk as int] == before.positions@[idk as int]);
                            assert(ps[idl as int] == before.positions@[idl as int]);
                        } else {
                            let other = if idk == pos_id { idl } else { idk };
                            assert(ps[other as int] == before.positions@[other as int]);
                            if !pos_ids@.subrange(0, j as int).contains(other) {
                                assert(before.position_at(other) == m0.position_at(other));
                                assert(m0.position_at(other).liquid_staking_nonce
                                    == m0.positions@[other as int].liquid_staking_nonce);
                                assert(!m0.has_nonce(
                                    new_liquid_staking_tokens@[j as int].token_nonce,
                                ));
                            } else {
                                let j2 = choose|j2: int|
                                    0 <= j2 < j && pos_ids@.subrange(0, j as int)[j2] == other;
                                assert(pos_ids@[j2] == other);
                                assert(before.positions@[other as int].liquid_staking_nonce
                                    == new_liquid_staking_tokens@[j2].token_nonce);
                                assert(new_liquid_staking_tokens@[j2].token_nonce
                                    != new_liquid_staking_tokens@[j as int].token_nonce);
                            }
                        }
                    }
                    assert(self.well_formed());
                }
            }
            j = j + 1;
            proof {
                assert forall|id: u64| m0.live(id) && !pos_ids@.subrange(0, j as int).contains(id)
                    implies #[trigger] self.position_at(id) == m0.position_at(id) by {
                    let sj = pos_ids@.subrange(0, j as int);
                    let sj1 = pos_ids@.subrange(0, j as int - 1);
                    assert(forall|j2: int| 0 <= j2 < j ==> #[trigger] pos_ids@[j2] == sj[j2]);
                    assert(forall|j2: int| 0 <= j2 < j - 1 ==> #[trigger] pos_ids@[j2] == sj1[j2]);
                    assert(forall|j2: int| 0 <= j2 < j ==> #[trigger] pos_ids@[j2] != id);
                    assert(!sj1.contains(id)) by {
                        if sj1.contains(id) {
                            let w = choose|w: int| 0 <= w < sj1.len() && sj1[w] == id;
                            assert(pos_ids@[w] == id);
                        }
                    }
                    assert(before.position_at(id) == m0.position_at(id));
                    assert(id != pos_ids@[j as int - 1]);
                    assert(self.position_at(id) == before.position_at(id));
                }
                assert forall|j2: int| 0 <= j2 < j && m0.live(#[trigger] pos_ids@[j2])
                    implies self.positions@[pos_ids@[j2] as int].liquid_staking_nonce
                        == new_liquid_staking_tokens@[j2].token_nonce by {
                    if j2 < j - 1 {
                        assert(pos_ids@[j2] != pos_ids@[j as int - 1]);
                    }
                }
            }
        }
        let ghost m2 = *self;
        self.last_staking_rewards_claim_epoch = current_epoch;
        proof {
            assert(pos_ids@.subrange(0, pos_ids@.len() as int) =~= pos_ids@);
            assert forall|k: int| 0 <= k < self.order@.len() implies #[trigger] self.wf_node(
                k,
            ) by {
                assert(m2.wf_node(k));
            }
            assert(self.well_formed());
            assert forall|id: u64| m0.live(id) && !pos_ids@.contains(id)
                implies #[trigger] self.position_at(id) == m0.position_at(id) by {
                assert(!pos_ids@.subrange(0, pos_ids@.len() as int).contains(id));
                assert(m2.position_at(id) == m0.position_at(id));
                assert(self.position_at(id) == m2.position_at(id));
            }
        }
    }

    /// Second phase of the harvest: checks that rewards were claimed in this
    /// very epoch and not yet converted, and returns the swap to issue: the
    /// full staking-token balance as input and a zero minimum output (the
    /// specified core carries no slippage protection; the checkpoint only
    /// advances in the confirmation).
    pub fn convert_staking_token_to_stablecoin(
        &self,
        current_epoch: u64,
        staking_token_balance: u128,
    ) -> (r: Result<(u128, u128), ScError>)
        requires
            self.well_formed(),
        ensures
            self.last_staking_rewards_claim_epoch != current_epoch ==> r == Result::<
                (u128, u128),
                ScError,
            >::Err(ScError::MustClaimFirst),
            self.last_staking_rewards_claim_epoch == current_epoch && current_epoch
                <= self.last_staking_token_convert_epoch ==> r == Result::<
                (u128, u128),
                ScError,
            >::Err(ScError::AlreadyConvertedThisEpoch),
            self.last_staking_rewards_claim_epoch == current_epoch && current_epoch
                > self.last_staking_token_convert_epoch ==> r == Result::<
                (u128, u128),
                ScError,
            >::Ok((staking_token_balance, 0u128)),
    {
        if self.last_staking_rewards_claim_epoch != current_epoch {
            return Err(ScError::MustClaimFirst);
        }
        if current_epoch <= self.last_staking_token_convert_epoch {
            return Err(ScError::AlreadyConvertedThisEpoch);
        }
        Ok((staking_token_balance, 0u128))
    }

    /// Confirmation of the swap: only the configured swap venue may call it
    /// (a replay and spoofing guard). On success the conversion checkpoint
    /// advances and the received stablecoin amount joins the reserve; an
    /// unauthorized caller changes nothing.
    pub fn convert_staking_token_to_stablecoin_callback(
        &mut self,
        caller: u64,
        current_epoch: u64,
        payment_amount: u128,
    ) -> (r: Result<(), ScError>)
        requires
            old(self).well_formed(),
            caller == old(self).dex_swap_sc_address ==> old(self).stablecoin_reserves
                + payment_amount <= u128::MAX,
        ensures
            final(self).well_formed(),
            caller != old(self).dex_swap_sc_address ==> r == Result::<(), ScError>::Err(
                ScError::UnauthorizedCaller,
            ) && *final(self) == *old(self),
            caller == old(self).dex_swap_sc_address ==> {
                &&& r == Result::<(), ScError>::Ok(())
                &&& final(self).last_staking_token_convert_epoch == current_epoch
                &&& final(self).stablecoin_reserves == old(self).stablecoin_reserves
                    + payment_amount
                &&& final(self).positions@ == old(self).positions@
                &&& final(self).order_seq() == old(self).order_seq()
                &&& final(self).last_valid_staking_position_id == old(
                    self,
                ).last_valid_staking_position_id
                &&& final(self).last_staking_rewards_claim_epoch == old(
                    self,
                ).last_staking_rewards_claim_epoch
                &&& final(self).last_calculate_rewards_epoch == old(
                    self,
                ).last_calculate_rewards_epoch
                &&& final(self).delegation_sc_address == old(self).delegation_sc_address
                &&& final(self).dex_swap_sc_address == old(self).dex_swap_sc_address
            },
    {
        if caller != self.dex_swap_sc_address {
            return Err(ScError::UnauthorizedCaller);
        }
        self.last_staking_token_convert_epoch = current_epoch;
        self.stablecoin_reserves = self.stablecoin_reserves + payment_amount;
        proof {
            assert forall|k: int| 0 <= k < self.order@.len() implies #[trigger] self.wf_node(
                k,
            ) by {
                assert(old(self).wf_node(k));
            }
            assert(self.well_formed());
        }
        Ok(())
    }

    /// Id of the first position in the list; `0` when the list is empty.
    pub fn get_first_staking_position_id(&self) -> (r: u64)
        requires
            self.well_formed(),
        ensures
            r == self.spec_first_position_id(),
    {
        self.positions[0].next_pos_id
    }

    /// The first position of the list, if the list is not empty.
    pub fn get_first_staking_position(&self) -> (r: Option<StakingPosition>)
        requires
            self.well_formed(),
        ensures
            self.order_seq().len() == 0 ==> r is None,
            self.order_seq().len() > 0 ==> r == Some(
                self.position_at(self.order_seq()[0]),
            ),
    {
        let first_id: u64 = self.get_first_staking_position_id();
        if first_id != 0 {
            let n: usize = self.positions.len();
            proof {
                assert(self.order@.len() > 0);
                assert(1 <= self.order@[0] < self.positions@.len());
            }
            Some(self.positions[first_id as usize])
        } else {
            None
        }
    }
}

} // verus!
