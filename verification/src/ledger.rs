//! The state that the event handlers read and update: floor price by
//! collection, profit-and-loss totals by wallet, ownership record by NFT.
//!
//! The ledger only stores. Reads of an absent floor price or wallet answer
//! with zero; writes create or replace. NFTs are also kept in the order in
//! which they were first acquired, which is the order in which a floor-price
//! update visits them.

use vstd::prelude::*;
use vstd::hash_map::StringHashMap;
use crate::nft::NftInfo;
use crate::nft::NftInfoView;
use crate::wallet::WalletPnL;

verus! {

/// What a ledger holds, as mathematical maps.
pub struct LedgerView {
    /// Current floor price of every collection that has had one set.
    pub floor_prices: Map<Seq<char>, i64>,
    /// Totals of every wallet that has been touched.
    pub wallet_pnl: Map<Seq<char>, WalletPnL>,
    /// The NFTs with an ownership record, in the order of their first acquisition.
    pub nft_order: Seq<Seq<char>>,
    /// Ownership record by NFT.
    pub nft_owners: Map<Seq<char>, NftInfoView>,
}

impl LedgerView {
    /// The ledger before any event.
    pub open spec fn empty() -> LedgerView {
        LedgerView {
            floor_prices: Map::empty(),
            wallet_pnl: Map::empty(),
            nft_order: Seq::empty(),
            nft_owners: Map::empty(),
        }
    }

    /// Every owned NFT stands exactly once in `nft_order` and has exactly
    /// one ownership record.
    pub open spec fn well_formed(self) -> bool {
        &&& self.nft_order.no_duplicates()
        &&& forall|nft: Seq<char>| #[trigger]
            self.nft_owners.contains_key(nft) <==> self.nft_order.contains(nft)
    }

    /// Every wallet on record as an owner has totals.
    pub open spec fn owners_have_totals(self) -> bool {
        forall|nft: Seq<char>| #[trigger]
            self.nft_owners.contains_key(nft) ==> self.wallet_pnl.contains_key(
                self.nft_owners[nft].wallet,
            )
    }

    /// Floor price of `collection`, zero where none was ever set.
    pub open spec fn floor_or_zero(self, collection: Seq<char>) -> i64 {
        if self.floor_prices.contains_key(collection) {
            self.floor_prices[collection]
        } else {
            0
        }
    }

    /// Totals of `wallet`, zero where it was never touched.
    pub open spec fn pnl_or_zero(self, wallet: Seq<char>) -> WalletPnL {
        if self.wallet_pnl.contains_key(wallet) {
            self.wallet_pnl[wallet]
        } else {
            WalletPnL::zero()
        }
    }

    /// The ledger with the floor price of `collection` set to `price`.
    pub open spec fn with_floor(self, collection: Seq<char>, price: i64) -> LedgerView {
        LedgerView { floor_prices: self.floor_prices.insert(collection, price), ..self }
    }

    /// The ledger with the totals of `wallet` set to `pnl`.
    pub open spec fn with_pnl(self, wallet: Seq<char>, pnl: WalletPnL) -> LedgerView {
        LedgerView { wallet_pnl: self.wallet_pnl.insert(wallet, pnl), ..self }
    }

    /// The ledger with `info` as the one ownership record of `nft`. An NFT
    /// seen for the first time goes to the end of `nft_order`; a known one
    /// keeps its place.
    pub open spec fn with_owner(self, nft: Seq<char>, info: NftInfoView) -> LedgerView {
        LedgerView {
            nft_order: if self.nft_owners.contains_key(nft) {
                self.nft_order
            } else {
                self.nft_order.push(nft)
            },
            nft_owners: self.nft_owners.insert(nft, info),
            ..self
        }
    }

    /// Setting an ownership record keeps a ledger well formed.
    pub proof fn lemma_with_owner_well_formed(self, nft: Seq<char>, info: NftInfoView)
        requires
            self.well_formed(),
        ensures
            self.with_owner(nft, info).well_formed(),
    {
        let next = self.with_owner(nft, info);
        if self.nft_owners.contains_key(nft) {
            assert(next.nft_order == self.nft_order);
            assert forall|k: Seq<char>| #[trigger]
                next.nft_owners.contains_key(k) <==> next.nft_order.contains(k) by {
                assert(self.nft_owners.contains_key(k) <==> self.nft_order.contains(k));
            }
        } else {
            assert(!self.nft_order.contains(nft));
            let n = self.nft_order.len() as int;
            assert forall|i: int, j: int|
                0 <= i < next.nft_order.len() && 0 <= j < next.nft_order.len() && i != j implies next.nft_order[i]
                != next.nft_order[j] by {
                if i < n {
                    assert(self.nft_order.contains(self.nft_order[i]));
                }
                if j < n {
                    assert(self.nft_order.contains(self.nft_order[j]));
                }
            }
            assert forall|k: Seq<char>| #[trigger]
                next.nft_owners.contains_key(k) <==> next.nft_order.contains(k) by {
                assert(self.nft_owners.contains_key(k) <==> self.nft_order.contains(k));
                if next.nft_order.contains(k) {
                    let i = choose|i: int| 0 <= i < next.nft_order.len() && next.nft_order[i] == k;
                    if i < n {
                        assert(self.nft_order[i] == k);
                        assert(self.nft_order.contains(k));
                    }
                }
                if self.nft_order.contains(k) {
                    let i = choose|i: int| 0 <= i < self.nft_order.len() && self.nft_order[i] == k;
                    assert(next.nft_order[i] == k);
                }
                if k == nft {
                    assert(next.nft_order[n] == k);
                }
            }
        }
    }
}

/// The store behind the event handlers.
pub struct Ledger {
    floor_prices: StringHashMap<i64>,
    wallet_pnl: StringHashMap<WalletPnL>,
    /// Position of each owned NFT in `nfts` and `infos`.
    slots: StringHashMap<usize>,
    nfts: Vec<String>,
    infos: Vec<NftInfo>,
}

impl View for Ledger {
    type V = LedgerView;

    closed spec fn view(&self) -> LedgerView {
        LedgerView {
            floor_prices: self.floor_prices@,
            wallet_pnl: self.wallet_pnl@,
            nft_order: Seq::new(self.nfts@.len(), |i: int| self.nfts@[i]@),
            nft_owners: Map::new(
                |k: Seq<char>| self.slots@.contains_key(k),
                |k: Seq<char>| self.infos@[self.slots@[k] as int]@,
            ),
        }
    }
}

impl Ledger {
    /// The index and the two lists agree.
    pub closed spec fn wf(&self) -> bool {
        &&& self.nfts@.len() == self.infos@.len()
        &&& forall|i: int|
            0 <= i < self.nfts@.len() ==> self.slots@.contains_key(#[trigger] self.nfts@[i]@)
                && self.slots@[self.nfts@[i]@] == i
        &&& forall|k: Seq<char>| #[trigger]
            self.slots@.contains_key(k) ==> self.slots@[k] < self.nfts@.len()
                && self.nfts@[self.slots@[k] as int]@ == k
    }

    /// A valid ledger holds every owned NFT once.
    pub proof fn lemma_view_well_formed(&self)
        requires
            self.wf(),
        ensures
            self@.well_formed(),
    {
        let v = self@;
        assert forall|nft: Seq<char>| #[trigger]
            v.nft_owners.contains_key(nft) <==> v.nft_order.contains(nft) by {
            if v.nft_owners.contains_key(nft) {
                assert(v.nft_order[self.slots@[nft] as int] == nft);
            }
        }
    }

    /// An empty ledger.
    pub fn new() -> (ledger: Ledger)
        ensures
            ledger.wf(),
            ledger@ == LedgerView::empty(),
    {
        let ledger = Ledger {
            floor_prices: StringHashMap::new(),
            wallet_pnl: StringHashMap::new(),
            slots: StringHashMap::new(),
            nfts: Vec::new(),
            infos: Vec::new(),
        };
        assert(ledger@.nft_order =~= Seq::empty());
        assert(ledger@.nft_owners =~= Map::empty());
        ledger
    }

    /// Floor price of `collection`, zero where none was ever set.
    pub fn floor_or_zero(&self, collection: &str) -> (price: i64)
        ensures
            price == self@.floor_or_zero(collection@),
    {
        match self.floor_prices.get(collection) {
            Some(price) => *price,
            None => 0,
        }
    }

    /// Sets the floor price of `collection`, known before or not.
    pub fn set_floor(&mut self, collection: String, price: i64)
        requires
            old(self).wf(),
        ensures
            final(self).wf(),
            final(self)@ == old(self)@.with_floor(collection@, price),
    {
        self.floor_prices.insert(collection, price);
    }

    /// Totals of `wallet`, if it was ever touched.
    pub fn pnl(&self, wallet: &str) -> (found: Option<WalletPnL>)
        ensures
            found == (if self@.wallet_pnl.contains_key(wallet@) {
                Some(self@.wallet_pnl[wallet@])
            } else {
                None
            }),
    {
        match self.wallet_pnl.get(wallet) {
            Some(pnl) => Some(*pnl),
            None => None,
        }
    }

    /// Totals of `wallet`, zero where it was never touched.
    pub fn pnl_or_zero(&self, wallet: &str) -> (pnl: WalletPnL)
        ensures
            pnl == self@.pnl_or_zero(wallet@),
    {
        match self.wallet_pnl.get(wallet) {
            Some(pnl) => *pnl,
            None => WalletPnL { realized: 0, unrealized: 0 },
        }
    }

    /// Sets the totals of `wallet`, known before or not.
    pub fn set_pnl(&mut self, wallet: String, pnl: WalletPnL)
        requires
            old(self).wf(),
        ensures
            final(self).wf(),
            final(self)@ == old(self)@.with_pnl(wallet@, pnl),
    {
        self.wallet_pnl.insert(wallet, pnl);
    }

    /// Ownership record of `nft`, if it has one.
    pub fn owner(&self, nft: &str) -> (found: Option<&NftInfo>)
        requires
            self.wf(),
        ensures
            match found {
                Some(info) => self@.nft_owners.contains_key(nft@) && info@
                    == self@.nft_owners[nft@],
                None => !self@.nft_owners.contains_key(nft@),
            },
    {
        match self.slots.get(nft) {
            Some(slot) => Some(&self.infos[*slot]),
            None => None,
        }
    }

    /// Makes `info` the one ownership record of `nft`.
    pub fn set_owner(&mut self, nft: String, info: NftInfo)
        requires
            old(self).wf(),
        ensures
            final(self).wf(),
            final(self)@ == old(self)@.with_owner(nft@, info@),
    {
        let known: Option<usize> = match self.slots.get(nft.as_str()) {
            Some(slot) => Some(*slot),
            None => None,
        };
        match known {
            Some(slot) => {
                self.infos[slot] = info;
                assert(self@.nft_order =~= old(self)@.nft_order);
                assert(self@.nft_owners =~= old(self)@.nft_owners.insert(nft@, info@));
            },
            None => {
                let slot: usize = self.nfts.len();
                self.slots.insert(nft.clone(), slot);
                self.nfts.push(nft);
                self.infos.push(info);
                assert(self@.nft_order =~= old(self)@.nft_order.push(nft@));
                assert(self@.nft_owners =~= old(self)@.nft_owners.insert(nft@, info@));
            },
        }
    }

    /// Number of NFTs with an ownership record.
    pub fn nft_count(&self) -> (n: usize)
        ensures
            n == self@.nft_order.len(),
    {
        self.nfts.len()
    }

    /// Ownership record of the NFT that was the `i`-th to be acquired for
    /// the first time.
    pub fn holding(&self, i: usize) -> (info: &NftInfo)
        requires
            self.wf(),
            i < self@.nft_order.len(),
        ensures
            self@.nft_owners.contains_key(self@.nft_order[i as int]),
            info@ == self@.nft_owners[self@.nft_order[i as int]],
    {
        &self.infos[i]
    }
}

} // verus!
