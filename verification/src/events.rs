//! The events that come in, the snapshots that go out, and the handlers
//! that turn one into the other against a ledger.

use vstd::prelude::*;
use crate::ledger::Ledger;
use crate::model::after_floor_price;
use crate::model::after_trade;
use crate::model::floor_price_snapshots;
use crate::model::fresh_run;
use crate::model::lemma_replay_next;
use crate::model::lemma_sweep_keeps_the_rest;
use crate::model::pnl_snapshots;
use crate::model::replay;
use crate::model::Run;
use crate::model::sweep;
use crate::model::sweep_snapshots;
use crate::model::trade_snapshots;
use crate::nft::NftInfo;
use crate::schedule::merge_from;
use crate::schedule::merge_order;
use crate::schedule::next_source;
use crate::schedule::Source;
use crate::wallet::WalletPnL;

verus! {

/// An NFT changed hands.
#[derive(Clone, Debug, PartialEq, Eq)]
pub struct IncomingAssetTradeEvent {
    pub time: u32,
    pub buyer: String,
    pub seller: String,
    pub nft: String,
    pub collection: String,
    pub price: i64,
}

/// The floor price of a collection was set.
#[derive(Clone, Debug, PartialEq, Eq)]
pub struct IncomingAssetCollectionFloorPriceEvent {
    pub time: u32,
    pub collection: String,
    pub new_floor_price: i64,
}

/// The totals of one wallet right after an event touched it.
#[derive(Clone, Debug, PartialEq, Eq)]
pub struct OutgoingWalletPnLEvent {
    pub time: u32,
    pub wallet: String,
    pub realized: i64,
    pub unrealized: i64,
}

/// A trade with its identifiers read as character sequences.
pub struct TradeView {
    pub time: u32,
    pub buyer: Seq<char>,
    pub seller: Seq<char>,
    pub nft: Seq<char>,
    pub collection: Seq<char>,
    pub price: i64,
}

/// A floor-price update with its collection read as a character sequence.
pub struct FloorPriceView {
    pub time: u32,
    pub collection: Seq<char>,
    pub new_floor_price: i64,
}

/// A snapshot with its wallet read as a character sequence.
pub struct SnapshotView {
    pub time: u32,
    pub wallet: Seq<char>,
    pub realized: i64,
    pub unrealized: i64,
}

impl View for IncomingAssetTradeEvent {
    type V = TradeView;

    open spec fn view(&self) -> TradeView {
        TradeView {
            time: self.time,
            buyer: self.buyer@,
            seller: self.seller@,
            nft: self.nft@,
            collection: self.collection@,
            price: self.price,
        }
    }
}

impl View for IncomingAssetCollectionFloorPriceEvent {
    type V = FloorPriceView;

    open spec fn view(&self) -> FloorPriceView {
        FloorPriceView {
            time: self.time,
            collection: self.collection@,
            new_floor_price: self.new_floor_price,
        }
    }
}

impl View for OutgoingWalletPnLEvent {
    type V = SnapshotView;

    open spec fn view(&self) -> SnapshotView {
        SnapshotView {
            time: self.time,
            wallet: self.wallet@,
            realized: self.realized,
            unrealized: self.unrealized,
        }
    }
}

/// The trades of a list, each by its view.
pub open spec fn trade_views(trades: Seq<IncomingAssetTradeEvent>) -> Seq<TradeView> {
    Seq::new(trades.len(), |i: int| trades[i]@)
}

/// The floor-price updates of a list, each by its view.
pub open spec fn floor_price_views(
    floor_prices: Seq<IncomingAssetCollectionFloorPriceEvent>,
) -> Seq<FloorPriceView> {
    Seq::new(floor_prices.len(), |i: int| floor_prices[i]@)
}

/// The snapshots of a list, each by its view.
pub open spec fn snapshot_views(snapshots: Seq<OutgoingWalletPnLEvent>) -> Seq<SnapshotView> {
    Seq::new(snapshots.len(), |i: int| snapshots[i]@)
}

/// Appends to `events` a snapshot of `wallet` with the totals `pnl`.
fn emit(events: &mut Vec<OutgoingWalletPnLEvent>, time: u32, wallet: &String, pnl: WalletPnL)
    ensures
        snapshot_views(final(events)@) == snapshot_views(old(events)@).push(
            SnapshotView {
                time,
                wallet: wallet@,
                realized: pnl.realized,
                unrealized: pnl.unrealized,
            },
        ),
{
    events.push(
        OutgoingWalletPnLEvent {
            time,
            wallet: wallet.clone(),
            realized: pnl.realized,
            unrealized: pnl.unrealized,
        },
    );
    assert(snapshot_views(events@) =~= snapshot_views(old(events)@).push(
        SnapshotView { time, wallet: wallet@, realized: pnl.realized, unrealized: pnl.unrealized },
    ));
}

/// Books one trade.
///
/// The buyer's new position is marked against the collection's floor price.
/// If the NFT had an owner on record, the position it was bought into is
/// closed on the seller's account. The NFT's ownership record is replaced.
/// A snapshot of the buyer is appended to `events`, and after it one of the
/// seller if the seller has totals on the ledger.
pub fn process_trade_event(
    trade_event: &IncomingAssetTradeEvent,
    ledger: &mut Ledger,
    events: &mut Vec<OutgoingWalletPnLEvent>,
)
    requires
        old(ledger).wf(),
    ensures
        final(ledger).wf(),
        final(ledger)@ == after_trade(old(ledger)@, trade_event@),
        snapshot_views(final(events)@) == snapshot_views(old(events)@) + trade_snapshots(
            old(ledger)@,
            trade_event@,
        ),
{
    let time: u32 = trade_event.time;
    let price: i64 = trade_event.price;
    let current_floor_price: i64 = ledger.floor_or_zero(trade_event.collection.as_str());

    let bought = ledger.pnl_or_zero(trade_event.buyer.as_str()).mark(
        current_floor_price.wrapping_sub(price),
    );
    ledger.set_pnl(trade_event.buyer.clone(), bought);

    let prior_price: Option<i64> = match ledger.owner(trade_event.nft.as_str()) {
        Some(owner_info) => Some(owner_info.price),
        None => None,
    };
    if let Some(buy_price) = prior_price {
        let sold = ledger.pnl_or_zero(trade_event.seller.as_str()).close(
            price.wrapping_sub(buy_price),
            current_floor_price.wrapping_sub(buy_price),
        );
        ledger.set_pnl(trade_event.seller.clone(), sold);
    }
    ledger.set_owner(
        trade_event.nft.clone(),
        NftInfo {
            wallet: trade_event.buyer.clone(),
            price,
            collection: trade_event.collection.clone(),
        },
    );

    if let Some(buyer_pnl) = ledger.pnl(trade_event.buyer.as_str()) {
        emit(events, time, &trade_event.buyer, buyer_pnl);
    }
    if let Some(seller_pnl) = ledger.pnl(trade_event.seller.as_str()) {
        emit(events, time, &trade_event.seller, seller_pnl);
    }
    assert(snapshot_views(events@) =~= snapshot_views(old(events)@) + trade_snapshots(
        old(ledger)@,
        trade_event@,
    ));
}

/// Books one floor-price update.
///
/// The collection gets its new floor price, whether it had one or not. Then
/// every NFT on the ledger is visited, in the order in which the NFTs were
/// first acquired. For each one of the collection, the change of floor price
/// is added to its owner's unrealized total and a snapshot of the owner is
/// appended to `events`: a wallet that holds several NFTs of the collection
/// is reported once for each.
pub fn process_floor_price_event(
    floor_price_event: &IncomingAssetCollectionFloorPriceEvent,
    ledger: &mut Ledger,
    events: &mut Vec<OutgoingWalletPnLEvent>,
)
    requires
        old(ledger).wf(),
    ensures
        final(ledger).wf(),
        final(ledger)@ == after_floor_price(old(ledger)@, floor_price_event@),
        snapshot_views(final(events)@) == snapshot_views(old(events)@) + floor_price_snapshots(
            old(ledger)@,
            floor_price_event@,
        ),
{
    let time: u32 = floor_price_event.time;
    let new_floor_price: i64 = floor_price_event.new_floor_price;
    let previous_floor_price: i64 = ledger.floor_or_zero(floor_price_event.collection.as_str());
    ledger.set_floor(floor_price_event.collection.clone(), new_floor_price);
    let delta: i64 = new_floor_price.wrapping_sub(previous_floor_price);

    let ghost start = ledger@;
    let ghost collection = floor_price_event.collection@;
    let count: usize = ledger.nft_count();
    let mut i: usize = 0;
    assert(snapshot_views(events@) =~= snapshot_views(old(events)@) + sweep_snapshots(
        start,
        collection,
        delta,
        time,
        0,
    ));
    while i < count
        invariant
            ledger.wf(),
            i <= count,
            count == start.nft_order.len(),
            collection == floor_price_event.collection@,
            ledger@ == sweep(start, collection, delta, i as nat),
            snapshot_views(events@) == snapshot_views(old(events)@) + sweep_snapshots(
                start,
                collection,
                delta,
                time,
                i as nat,
            ),
        decreases count - i,
    {
        proof {
            lemma_sweep_keeps_the_rest(start, collection, delta, i as nat);
        }
        let ghost earlier = snapshot_views(events@);
        let owner_info = ledger.holding(i);
        if owner_info.collection == floor_price_event.collection {
            let owner_wallet: String = owner_info.wallet.clone();
            let marked = ledger.pnl_or_zero(owner_wallet.as_str()).mark(delta);
            ledger.set_pnl(owner_wallet.clone(), marked);
            emit(events, time, &owner_wallet, marked);
        }
        i += 1;
        assert(snapshot_views(events@) =~= snapshot_views(old(events)@) + sweep_snapshots(
            start,
            collection,
            delta,
            time,
            i as nat,
        ));
    }
}

/// Computes the profit-and-loss snapshots of a whole run.
///
/// The two lists are merged into one processing order: the earlier event
/// first, and of a trade and a floor-price update with the same time the
/// trade. Each event is handed to its handler against one ledger that starts
/// empty, and the snapshots come back in the order in which they arose.
///
/// Each list is expected to be sorted by time. The lists are not sorted or
/// checked here: whatever their order, the events are taken as the two
/// cursors meet them, and only for sorted lists is that order chronological.
pub fn process_pnl(
    trade_events: Vec<IncomingAssetTradeEvent>,
    floor_price_events: Vec<IncomingAssetCollectionFloorPriceEvent>,
) -> (events: Vec<OutgoingWalletPnLEvent>)
    ensures
        snapshot_views(events@) == pnl_snapshots(
            trade_views(trade_events@),
            floor_price_views(floor_price_events@),
        ),
{
    let mut ledger = Ledger::new();
    let mut events: Vec<OutgoingWalletPnLEvent> = Vec::new();
    let mut trade_event_index: usize = 0;
    let mut floor_price_event_index: usize = 0;

    let ghost trades = trade_views(trade_events@);
    let ghost floor_prices = floor_price_views(floor_price_events@);
    assert(snapshot_views(events@) =~= Seq::empty());

    while trade_event_index < trade_events.len() || floor_price_event_index
        < floor_price_events.len()
        invariant
            ledger.wf(),
            trade_event_index <= trade_events.len(),
            floor_price_event_index <= floor_price_events.len(),
            trades == trade_views(trade_events@),
            floor_prices == floor_price_views(floor_price_events@),
            replay(
                Run { ledger: ledger@, events: snapshot_views(events@) },
                trades,
                floor_prices,
                merge_from(
                    trades,
                    floor_prices,
                    trade_event_index as nat,
                    floor_price_event_index as nat,
                ),
            ) == replay(fresh_run(), trades, floor_prices, merge_order(trades, floor_prices)),
        decreases
            (trade_events.len() - trade_event_index) + (floor_price_events.len()
                - floor_price_event_index),
    {
        proof {
            lemma_replay_next(
                Run { ledger: ledger@, events: snapshot_views(events@) },
                trades,
                floor_prices,
                trade_event_index as nat,
                floor_price_event_index as nat,
            );
        }
        match next_source(
            &trade_events,
            &floor_price_events,
            trade_event_index,
            floor_price_event_index,
        ) {
            Some(Source::FloorPrice) => {
                process_floor_price_event(
                    &floor_price_events[floor_price_event_index],
                    &mut ledger,
                    &mut events,
                );
                floor_price_event_index += 1;
            },
            Some(Source::Trade) => {
                process_trade_event(&trade_events[trade_event_index], &mut ledger, &mut events);
                trade_event_index += 1;
            },
            None => {},
        }
    }
    proof {
        lemma_replay_next(
            Run { ledger: ledger@, events: snapshot_views(events@) },
            trades,
            floor_prices,
            trade_event_index as nat,
            floor_price_event_index as nat,
        );
    }
    events
}

} // verus!
