//! What each event does to a ledger and which snapshots it yields, stated
//! on the ledger's mathematical view, and what a whole run yields.

use vstd::prelude::*;
use crate::events::FloorPriceView;
use crate::events::SnapshotView;
use crate::events::TradeView;
use crate::ledger::LedgerView;
use crate::nft::NftInfoView;
use crate::schedule::floor_price_slot;
use crate::schedule::merge_from;
use crate::schedule::merge_order;
use crate::schedule::next_source_at;
use crate::schedule::trade_slot;
use crate::schedule::Slot;
use crate::schedule::Source;
use crate::wallet::WalletPnL;

verus! {

/// The snapshot of `wallet` at `time` with the totals `pnl`.
pub open spec fn snapshot_of(time: u32, wallet: Seq<char>, pnl: WalletPnL) -> SnapshotView {
    SnapshotView { time, wallet, realized: pnl.realized, unrealized: pnl.unrealized }
}

/// The ledger once the buyer of `trade` has been charged: the new position
/// is worth the floor price and has cost the trade price.
pub open spec fn after_purchase(ledger: LedgerView, trade: TradeView) -> LedgerView {
    let floor = ledger.floor_or_zero(trade.collection);
    ledger.with_pnl(
        trade.buyer,
        ledger.pnl_or_zero(trade.buyer).marked(floor.wrapping_sub(trade.price)),
    )
}

/// The ledger once the seller's side of `trade` has been settled too.
///
/// With an owner on record, the seller realizes the trade price less the
/// recorded purchase price, and the paper gain of the recorded position,
/// floor price less purchase price, leaves the seller's unrealized total.
/// With none on record the seller's side changes nothing.
pub open spec fn after_settlement(ledger: LedgerView, trade: TradeView) -> LedgerView {
    let floor = ledger.floor_or_zero(trade.collection);
    let bought = after_purchase(ledger, trade);
    if ledger.nft_owners.contains_key(trade.nft) {
        let buy_price = ledger.nft_owners[trade.nft].price;
        bought.with_pnl(
            trade.seller,
            bought.pnl_or_zero(trade.seller).closed(
                trade.price.wrapping_sub(buy_price),
                floor.wrapping_sub(buy_price),
            ),
        )
    } else {
        bought
    }
}

/// The ledger after `trade`: both sides booked, and the buyer on record as
/// the owner of the NFT at the trade price.
pub open spec fn after_trade(ledger: LedgerView, trade: TradeView) -> LedgerView {
    after_settlement(ledger, trade).with_owner(
        trade.nft,
        NftInfoView { wallet: trade.buyer, price: trade.price, collection: trade.collection },
    )
}

/// The snapshots that `trade` yields: the buyer's, then the seller's if the
/// seller has totals on the ledger after the trade.
pub open spec fn trade_snapshots(ledger: LedgerView, trade: TradeView) -> Seq<SnapshotView> {
    let after = after_trade(ledger, trade);
    let buyer = seq![snapshot_of(trade.time, trade.buyer, after.wallet_pnl[trade.buyer])];
    if after.wallet_pnl.contains_key(trade.seller) {
        buyer.push(snapshot_of(trade.time, trade.seller, after.wallet_pnl[trade.seller]))
    } else {
        buyer
    }
}

/// The ledger after the first `n` NFTs, in the order of their first
/// acquisition, have been visited by a sweep for `collection`: the owner of
/// each visited NFT of that collection has had `delta` added to the
/// unrealized total, once per NFT.
pub open spec fn sweep(ledger: LedgerView, collection: Seq<char>, delta: i64, n: nat) -> LedgerView
    decreases n,
{
    if n == 0 {
        ledger
    } else {
        let before = sweep(ledger, collection, delta, (n - 1) as nat);
        let info = ledger.nft_owners[ledger.nft_order[n - 1]];
        if info.collection == collection {
            before.with_pnl(info.wallet, before.pnl_or_zero(info.wallet).marked(delta))
        } else {
            before
        }
    }
}

/// The snapshots that the first `n` visits of such a sweep yield: one per
/// visited NFT of `collection`, of its owner, with the totals right after
/// that visit.
pub open spec fn sweep_snapshots(
    ledger: LedgerView,
    collection: Seq<char>,
    delta: i64,
    time: u32,
    n: nat,
) -> Seq<SnapshotView>
    decreases n,
{
    if n == 0 {
        Seq::empty()
    } else {
        let earlier = sweep_snapshots(ledger, collection, delta, time, (n - 1) as nat);
        let info = ledger.nft_owners[ledger.nft_order[n - 1]];
        if info.collection == collection {
            earlier.push(
                snapshot_of(time, info.wallet, sweep(ledger, collection, delta, n).wallet_pnl[info.wallet]),
            )
        } else {
            earlier
        }
    }
}

/// The change of floor price that `update` brings to its collection.
pub open spec fn floor_price_delta(ledger: LedgerView, update: FloorPriceView) -> i64 {
    update.new_floor_price.wrapping_sub(ledger.floor_or_zero(update.collection))
}

/// The ledger after `update`: the collection has its new floor price, and
/// every NFT of the collection has moved its owner's unrealized total by the
/// change of floor price.
pub open spec fn after_floor_price(ledger: LedgerView, update: FloorPriceView) -> LedgerView {
    sweep(
        ledger.with_floor(update.collection, update.new_floor_price),
        update.collection,
        floor_price_delta(ledger, update),
        ledger.nft_order.len(),
    )
}

/// The snapshots that `update` yields: one per NFT of the collection, in the
/// order in which the NFTs were first acquired.
pub open spec fn floor_price_snapshots(ledger: LedgerView, update: FloorPriceView) -> Seq<
    SnapshotView,
> {
    sweep_snapshots(
        ledger.with_floor(update.collection, update.new_floor_price),
        update.collection,
        floor_price_delta(ledger, update),
        update.time,
        ledger.nft_order.len(),
    )
}

/// A sweep touches wallet totals only.
pub proof fn lemma_sweep_keeps_the_rest(
    ledger: LedgerView,
    collection: Seq<char>,
    delta: i64,
    n: nat,
)
    ensures
        sweep(ledger, collection, delta, n).floor_prices == ledger.floor_prices,
        sweep(ledger, collection, delta, n).nft_order == ledger.nft_order,
        sweep(ledger, collection, delta, n).nft_owners == ledger.nft_owners,
    decreases n,
{
    if n > 0 {
        lemma_sweep_keeps_the_rest(ledger, collection, delta, (n - 1) as nat);
    }
}

/// A ledger together with the snapshots yielded so far.
pub struct Run {
    pub ledger: LedgerView,
    pub events: Seq<SnapshotView>,
}

/// The start of every run: an empty ledger and no snapshot.
pub open spec fn fresh_run() -> Run {
    Run { ledger: LedgerView::empty(), events: Seq::empty() }
}

/// The run after the event at `slot` has been handed to its handler.
pub open spec fn dispatch(
    run: Run,
    trades: Seq<TradeView>,
    floor_prices: Seq<FloorPriceView>,
    slot: Slot,
) -> Run {
    match slot.source {
        Source::Trade => Run {
            ledger: after_trade(run.ledger, trades[slot.index]),
            events: run.events + trade_snapshots(run.ledger, trades[slot.index]),
        },
        Source::FloorPrice => Run {
            ledger: after_floor_price(run.ledger, floor_prices[slot.index]),
            events: run.events + floor_price_snapshots(run.ledger, floor_prices[slot.index]),
        },
    }
}

/// The run after the events of `order` have been dispatched one by one,
/// first to last.
pub open spec fn replay(
    run: Run,
    trades: Seq<TradeView>,
    floor_prices: Seq<FloorPriceView>,
    order: Seq<Slot>,
) -> Run
    decreases order.len(),
{
    if order.len() == 0 {
        run
    } else {
        replay(
            dispatch(run, trades, floor_prices, order[0]),
            trades,
            floor_prices,
            order.drop_first(),
        )
    }
}

/// The snapshots of a whole run: all events of the two lists, dispatched in
/// their processing order against a ledger that starts empty.
pub open spec fn pnl_snapshots(trades: Seq<TradeView>, floor_prices: Seq<FloorPriceView>) -> Seq<
    SnapshotView,
> {
    replay(fresh_run(), trades, floor_prices, merge_order(trades, floor_prices)).events
}

/// Replaying the order that is left from a pair of cursors is dispatching
/// the next event and replaying the order that is left after it.
pub proof fn lemma_replay_next(
    run: Run,
    trades: Seq<TradeView>,
    floor_prices: Seq<FloorPriceView>,
    i: nat,
    j: nat,
)
    ensures
        replay(run, trades, floor_prices, merge_from(trades, floor_prices, i, j)) == (
        match next_source_at(trades, floor_prices, i, j) {
            Some(Source::Trade) => replay(
                dispatch(run, trades, floor_prices, trade_slot(i as int)),
                trades,
                floor_prices,
                merge_from(trades, floor_prices, i + 1, j),
            ),
            Some(Source::FloorPrice) => replay(
                dispatch(run, trades, floor_prices, floor_price_slot(j as int)),
                trades,
                floor_prices,
                merge_from(trades, floor_prices, i, j + 1),
            ),
            None => run,
        }),
{
    let order = merge_from(trades, floor_prices, i, j);
    match next_source_at(trades, floor_prices, i, j) {
        Some(Source::Trade) => {
            assert(order.drop_first() =~= merge_from(trades, floor_prices, i + 1, j));
        },
        Some(Source::FloorPrice) => {
            assert(order.drop_first() =~= merge_from(trades, floor_prices, i, j + 1));
        },
        None => {},
    }
}

} // verus!
