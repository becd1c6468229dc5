//! The ownership record kept for each NFT.

use vstd::prelude::*;

verus! {

/// The current holder of an NFT and the terms on which it was acquired.
///
/// Only the latest acquisition is remembered: a new trade of the same NFT
/// replaces the record.
#[derive(Clone, Debug, PartialEq, Eq)]
pub struct NftInfo {
    pub wallet: String,
    pub price: i64,
    pub collection: String,
}

/// An ownership record with its identifiers read as character sequences.
pub struct NftInfoView {
    pub wallet: Seq<char>,
    pub price: i64,
    pub collection: Seq<char>,
}

impl View for NftInfo {
    type V = NftInfoView;

    open spec fn view(&self) -> NftInfoView {
        NftInfoView { wallet: self.wallet@, price: self.price, collection: self.collection@ }
    }
}

} // verus!
