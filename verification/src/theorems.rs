//! What follows from the definitions of the events' effects: how missing
//! floor prices and first trades are treated, what a floor-price update
//! reports, that snapshots come out in order of time, and what holds of
//! every ledger along a run.

use vstd::prelude::*;
use vstd::wrapping::i64_specs::signed_crop;
use crate::events::FloorPriceView;
use crate::events::SnapshotView;
use crate::events::TradeView;
use crate::ledger::LedgerView;
use crate::model::after_floor_price;
use crate::model::after_purchase;
use crate::model::after_settlement;
use crate::model::after_trade;
use crate::model::dispatch;
use crate::model::floor_price_delta;
use crate::model::floor_price_snapshots;
use crate::model::fresh_run;
use crate::model::lemma_sweep_keeps_the_rest;
use crate::model::pnl_snapshots;
use crate::model::replay;
use crate::model::snapshot_of;
use crate::model::sweep;
use crate::model::sweep_snapshots;
use crate::model::trade_snapshots;
use crate::model::Run;
use crate::nft::NftInfoView;
use crate::schedule::chronological;
use crate::schedule::floor_prices_sorted;
use crate::schedule::lemma_merge_order_chronological;
use crate::schedule::merge_order;
use crate::schedule::slot_time;
use crate::schedule::trades_sorted;
use crate::schedule::Slot;
use crate::schedule::Source;
use crate::wallet::WalletPnL;

verus! {

/// A trade in a collection whose floor price was never set is booked
/// exactly as on a ledger that holds a floor price of zero for it: the same
/// totals, the same ownership records, the same snapshots.
pub proof fn lemma_missing_floor_price_is_zero(ledger: LedgerView, trade: TradeView)
    requires
        !ledger.floor_prices.contains_key(trade.collection),
    ensures
        after_trade(ledger.with_floor(trade.collection, 0), trade) == after_trade(
            ledger,
            trade,
        ).with_floor(trade.collection, 0),
        trade_snapshots(ledger.with_floor(trade.collection, 0), trade) == trade_snapshots(
            ledger,
            trade,
        ),
{
}

/// The first trade on record of an NFT books the buyer's side only: the
/// seller's side leaves every wallet's totals as the purchase left them.
pub proof fn lemma_first_trade_books_buyer_only(ledger: LedgerView, trade: TradeView)
    requires
        !ledger.nft_owners.contains_key(trade.nft),
    ensures
        after_trade(ledger, trade).wallet_pnl == ledger.wallet_pnl.insert(
            trade.buyer,
            ledger.pnl_or_zero(trade.buyer).marked(
                ledger.floor_or_zero(trade.collection).wrapping_sub(trade.price),
            ),
        ),
{
}

/// The first trade on record of an NFT leaves the seller as it was, whoever
/// the seller is, as long as the seller is not also the buyer: a seller
/// without totals still has none and gets no snapshot, and a seller with
/// totals keeps them and is reported with them.
pub proof fn lemma_first_trade_spares_seller(ledger: LedgerView, trade: TradeView)
    requires
        !ledger.nft_owners.contains_key(trade.nft),
        trade.seller != trade.buyer,
    ensures
        after_trade(ledger, trade).wallet_pnl.contains_key(trade.seller)
            == ledger.wallet_pnl.contains_key(trade.seller),
        after_trade(ledger, trade).pnl_or_zero(trade.seller) == ledger.pnl_or_zero(trade.seller),
        !ledger.wallet_pnl.contains_key(trade.seller) ==> trade_snapshots(ledger, trade).len()
            == 1,
        ledger.wallet_pnl.contains_key(trade.seller) ==> trade_snapshots(ledger, trade).len() == 2
            && trade_snapshots(ledger, trade)[1] == snapshot_of(
            trade.time,
            trade.seller,
            ledger.wallet_pnl[trade.seller],
        ),
{
}

/// The owners of the NFTs of `collection` among the first `n` NFTs, in the
/// order in which the NFTs were first acquired. A wallet stands once for
/// each such NFT that it owns.
pub open spec fn holders(ledger: LedgerView, collection: Seq<char>, n: nat) -> Seq<Seq<char>>
    decreases n,
{
    if n == 0 {
        Seq::empty()
    } else {
        let earlier = holders(ledger, collection, (n - 1) as nat);
        let info = ledger.nft_owners[ledger.nft_order[n - 1]];
        if info.collection == collection {
            earlier.push(info.wallet)
        } else {
            earlier
        }
    }
}

/// A sweep yields one snapshot per visited NFT of the collection, of its
/// owner and with the time given, whatever the change of floor price.
pub proof fn lemma_sweep_reports_holders(
    ledger: LedgerView,
    collection: Seq<char>,
    delta: i64,
    time: u32,
    n: nat,
)
    ensures
        sweep_snapshots(ledger, collection, delta, time, n).len() == holders(
            ledger,
            collection,
            n,
        ).len(),
        forall|k: int|
            0 <= k < holders(ledger, collection, n).len() ==> (#[trigger] sweep_snapshots(
                ledger,
                collection,
                delta,
                time,
                n,
            )[k]).wallet == holders(ledger, collection, n)[k] && sweep_snapshots(
                ledger,
                collection,
                delta,
                time,
                n,
            )[k].time == time,
    decreases n,
{
    if n > 0 {
        lemma_sweep_reports_holders(ledger, collection, delta, time, (n - 1) as nat);
    }
}

/// A sweep with no change of floor price leaves the totals of every wallet
/// as they were, and each of its snapshots shows the totals that the wallet
/// had before.
pub proof fn lemma_sweep_by_zero(ledger: LedgerView, collection: Seq<char>, time: u32, n: nat)
    ensures
        forall|wallet: Seq<char>| #[trigger]
            sweep(ledger, collection, 0, n).pnl_or_zero(wallet) == ledger.pnl_or_zero(wallet),
        forall|k: int|
            0 <= k < holders(ledger, collection, n).len() ==> #[trigger] sweep_snapshots(
                ledger,
                collection,
                0,
                time,
                n,
            )[k] == snapshot_of(
                time,
                holders(ledger, collection, n)[k],
                ledger.pnl_or_zero(holders(ledger, collection, n)[k]),
            ),
    decreases n,
{
    lemma_sweep_reports_holders(ledger, collection, 0, time, n);
    if n > 0 {
        let m = (n - 1) as nat;
        lemma_sweep_by_zero(ledger, collection, time, m);
        lemma_sweep_reports_holders(ledger, collection, 0, time, m);
        let before = sweep(ledger, collection, 0, m);
        let info = ledger.nft_owners[ledger.nft_order[n - 1]];
        assert forall|wallet: Seq<char>| #[trigger]
            sweep(ledger, collection, 0, n).pnl_or_zero(wallet) == ledger.pnl_or_zero(
                wallet,
            ) by {
            assert(before.pnl_or_zero(wallet) == ledger.pnl_or_zero(wallet));
            assert(before.pnl_or_zero(info.wallet) == ledger.pnl_or_zero(info.wallet));
        }
        assert(sweep(ledger, collection, 0, n).pnl_or_zero(info.wallet) == ledger.pnl_or_zero(
            info.wallet,
        ));
    }
}

/// The owners that a floor-price update of `collection` reports on `ledger`,
/// in the order of their snapshots.
pub open spec fn collection_holders(ledger: LedgerView, collection: Seq<char>) -> Seq<Seq<char>> {
    holders(ledger, collection, ledger.nft_order.len())
}

/// Who holds what does not depend on floor prices or totals.
pub proof fn lemma_holders_of_same_holdings(
    ledger: LedgerView,
    other: LedgerView,
    collection: Seq<char>,
    n: nat,
)
    requires
        ledger.nft_order == other.nft_order,
        ledger.nft_owners == other.nft_owners,
    ensures
        holders(ledger, collection, n) == holders(other, collection, n),
    decreases n,
{
    if n > 0 {
        lemma_holders_of_same_holdings(ledger, other, collection, (n - 1) as nat);
    }
}

/// A floor-price update yields one snapshot per NFT of its collection, of
/// the NFT's owner and with the time of the update, and leaves floor prices
/// of other collections and all ownership records alone.
pub proof fn lemma_floor_price_reports_holders(ledger: LedgerView, update: FloorPriceView)
    ensures
        floor_price_snapshots(ledger, update).len() == collection_holders(
            ledger,
            update.collection,
        ).len(),
        forall|k: int|
            0 <= k < collection_holders(ledger, update.collection).len() ==> (
            #[trigger] floor_price_snapshots(ledger, update)[k]).wallet == collection_holders(
                ledger,
                update.collection,
            )[k] && floor_price_snapshots(ledger, update)[k].time == update.time,
        after_floor_price(ledger, update).floor_prices == ledger.floor_prices.insert(
            update.collection,
            update.new_floor_price,
        ),
        after_floor_price(ledger, update).nft_order == ledger.nft_order,
        after_floor_price(ledger, update).nft_owners == ledger.nft_owners,
{
    let repriced = ledger.with_floor(update.collection, update.new_floor_price);
    let n = ledger.nft_order.len();
    lemma_holders_of_same_holdings(repriced, ledger, update.collection, n);
    lemma_sweep_reports_holders(
        repriced,
        update.collection,
        floor_price_delta(ledger, update),
        update.time,
        n,
    );
    lemma_sweep_keeps_the_rest(repriced, update.collection, floor_price_delta(ledger, update), n);
}

/// How many of the first `n` NFTs are of `collection` and owned by
/// `wallet`.
pub open spec fn holdings_of(
    ledger: LedgerView,
    collection: Seq<char>,
    wallet: Seq<char>,
    n: nat,
) -> nat
    decreases n,
{
    if n == 0 {
        0
    } else {
        let earlier = holdings_of(ledger, collection, wallet, (n - 1) as nat);
        let info = ledger.nft_owners[ledger.nft_order[n - 1]];
        if info.collection == collection && info.wallet == wallet {
            earlier + 1
        } else {
            earlier
        }
    }
}

/// A sweep leaves realized totals alone and moves the unrealized total of
/// each wallet by the change of floor price times the number of visited NFTs
/// of the collection that the wallet owns; the result is taken into the
/// range of `i64` by a multiple of 2^64.
pub proof fn lemma_sweep_totals(
    ledger: LedgerView,
    collection: Seq<char>,
    delta: i64,
    wallet: Seq<char>,
    n: nat,
)
    ensures
        sweep(ledger, collection, delta, n).pnl_or_zero(wallet).realized == ledger.pnl_or_zero(
            wallet,
        ).realized,
        sweep(ledger, collection, delta, n).pnl_or_zero(wallet).unrealized == signed_crop(
            ledger.pnl_or_zero(wallet).unrealized + delta * holdings_of(
                ledger,
                collection,
                wallet,
                n,
            ),
        ),
    decreases n,
{
    let before_all = ledger.pnl_or_zero(wallet).unrealized;
    if n == 0 {
        assert(delta * 0 == 0) by (nonlinear_arith);
    } else {
        let m = (n - 1) as nat;
        lemma_sweep_totals(ledger, collection, delta, wallet, m);
        let held = holdings_of(ledger, collection, wallet, m);
        let before = sweep(ledger, collection, delta, m);
        let info = ledger.nft_owners[ledger.nft_order[n - 1]];
        assert(before.pnl_or_zero(wallet).unrealized == signed_crop(before_all + delta * held));
        if info.collection == collection && info.wallet == wallet {
            assert(delta * (held + 1) == delta * held + delta) by (nonlinear_arith);
            assert(signed_crop(before_all + delta * held).wrapping_add(delta) == signed_crop(
                before_all + delta * held + delta,
            ));
        }
    }
}

/// A floor-price update leaves realized totals alone and moves the
/// unrealized total of each wallet by the change of floor price times the
/// number of NFTs of the collection that the wallet owns; the result is
/// taken into the range of `i64` by a multiple of 2^64.
pub proof fn lemma_floor_price_totals(
    ledger: LedgerView,
    update: FloorPriceView,
    wallet: Seq<char>,
)
    ensures
        after_floor_price(ledger, update).pnl_or_zero(wallet).realized == ledger.pnl_or_zero(
            wallet,
        ).realized,
        after_floor_price(ledger, update).pnl_or_zero(wallet).unrealized == signed_crop(
            ledger.pnl_or_zero(wallet).unrealized + floor_price_delta(ledger, update)
                * holdings_of(ledger, update.collection, wallet, ledger.nft_order.len()),
        ),
{
    let repriced = ledger.with_floor(update.collection, update.new_floor_price);
    let n = ledger.nft_order.len();
    lemma_sweep_totals(repriced, update.collection, floor_price_delta(ledger, update), wallet, n);
    lemma_holdings_of_same_holdings(repriced, ledger, update.collection, wallet, n);
}

/// How many NFTs a wallet holds does not depend on floor prices or totals.
pub proof fn lemma_holdings_of_same_holdings(
    ledger: LedgerView,
    other: LedgerView,
    collection: Seq<char>,
    wallet: Seq<char>,
    n: nat,
)
    requires
        ledger.nft_order == other.nft_order,
        ledger.nft_owners == other.nft_owners,
    ensures
        holdings_of(ledger, collection, wallet, n) == holdings_of(other, collection, wallet, n),
    decreases n,
{
    if n > 0 {
        lemma_holdings_of_same_holdings(ledger, other, collection, wallet, (n - 1) as nat);
    }
}

/// A floor-price update that repeats the floor price in force, or sets zero
/// where none was set, changes the totals of no wallet, and still yields a
/// snapshot for every NFT of the collection: each shows the totals that the
/// owner had before.
pub proof fn lemma_same_floor_price_moves_nothing(ledger: LedgerView, update: FloorPriceView)
    requires
        update.new_floor_price == ledger.floor_or_zero(update.collection),
    ensures
        floor_price_delta(ledger, update) == 0,
        forall|wallet: Seq<char>| #[trigger]
            after_floor_price(ledger, update).pnl_or_zero(wallet) == ledger.pnl_or_zero(wallet),
        floor_price_snapshots(ledger, update).len() == collection_holders(
            ledger,
            update.collection,
        ).len(),
        forall|k: int|
            0 <= k < collection_holders(ledger, update.collection).len()
                ==> #[trigger] floor_price_snapshots(ledger, update)[k] == snapshot_of(
                update.time,
                collection_holders(ledger, update.collection)[k],
                ledger.pnl_or_zero(collection_holders(ledger, update.collection)[k]),
            ),
{
    let repriced = ledger.with_floor(update.collection, update.new_floor_price);
    let n = ledger.nft_order.len();
    lemma_holders_of_same_holdings(repriced, ledger, update.collection, n);
    lemma_sweep_by_zero(repriced, update.collection, update.time, n);
    lemma_sweep_reports_holders(repriced, update.collection, 0, update.time, n);
    assert forall|wallet: Seq<char>| #[trigger]
        after_floor_price(ledger, update).pnl_or_zero(wallet) == ledger.pnl_or_zero(wallet) by {
        assert(sweep(repriced, update.collection, 0, n).pnl_or_zero(wallet)
            == repriced.pnl_or_zero(wallet));
    }
    assert forall|k: int|
        0 <= k < collection_holders(ledger, update.collection).len()
            implies #[trigger] floor_price_snapshots(ledger, update)[k] == snapshot_of(
        update.time,
        collection_holders(ledger, update.collection)[k],
        ledger.pnl_or_zero(collection_holders(ledger, update.collection)[k]),
    ) by {
        let wallet = holders(repriced, update.collection, n)[k];
        assert(sweep_snapshots(repriced, update.collection, 0, update.time, n)[k] == snapshot_of(
            update.time,
            wallet,
            repriced.pnl_or_zero(wallet),
        ));
    }
}

/// The times along `events` never go down.
pub open spec fn times_never_go_down(events: Seq<SnapshotView>) -> bool {
    forall|a: int, b: int|
        #![trigger events[a], events[b]]
        0 <= a <= b < events.len() ==> events[a].time <= events[b].time
}

/// Every snapshot of `events` has the time `time`.
pub open spec fn all_at(events: Seq<SnapshotView>, time: u32) -> bool {
    forall|k: int| 0 <= k < events.len() ==> (#[trigger] events[k]).time == time
}

/// Dispatching an event keeps the snapshots yielded so far and appends
/// snapshots that all carry the time of that event.
pub proof fn lemma_dispatch_stamps(
    run: Run,
    trades: Seq<TradeView>,
    floor_prices: Seq<FloorPriceView>,
    slot: Slot,
)
    ensures
        run.events.len() <= dispatch(run, trades, floor_prices, slot).events.len(),
        dispatch(run, trades, floor_prices, slot).events.subrange(0, run.events.len() as int)
            == run.events,
        all_at(
            dispatch(run, trades, floor_prices, slot).events.subrange(
                run.events.len() as int,
                dispatch(run, trades, floor_prices, slot).events.len() as int,
            ),
            slot_time(trades, floor_prices, slot),
        ),
{
    let after = dispatch(run, trades, floor_prices, slot).events;
    let n = run.events.len() as int;
    match slot.source {
        Source::Trade => {
            let fresh = trade_snapshots(run.ledger, trades[slot.index]);
            assert(after.subrange(0, n) =~= run.events);
            assert(after.subrange(n, after.len() as int) =~= fresh);
        },
        Source::FloorPrice => {
            let fresh = floor_price_snapshots(run.ledger, floor_prices[slot.index]);
            lemma_floor_price_reports_holders(run.ledger, floor_prices[slot.index]);
            assert(after.subrange(0, n) =~= run.events);
            assert(after.subrange(n, after.len() as int) =~= fresh);
        },
    }
}

/// Replaying a chronological order, after snapshots that are themselves in
/// order of time and no later than any event still to come, yields
/// snapshots in order of time.
pub proof fn lemma_replay_chronological(
    run: Run,
    trades: Seq<TradeView>,
    floor_prices: Seq<FloorPriceView>,
    order: Seq<Slot>,
)
    requires
        chronological(order, trades, floor_prices),
        times_never_go_down(run.events),
        forall|e: int, k: int|
            #![trigger run.events[e], order[k]]
            0 <= e < run.events.len() && 0 <= k < order.len() ==> run.events[e].time <= slot_time(
                trades,
                floor_prices,
                order[k],
            ),
    ensures
        times_never_go_down(replay(run, trades, floor_prices, order).events),
    decreases order.len(),
{
    if order.len() > 0 {
        let next = dispatch(run, trades, floor_prices, order[0]);
        let rest = order.drop_first();
        let n = run.events.len() as int;
        let now = slot_time(trades, floor_prices, order[0]);
        lemma_dispatch_stamps(run, trades, floor_prices, order[0]);
        let fresh = next.events.subrange(n, next.events.len() as int);
        assert forall|e: int| 0 <= e < next.events.len() implies (if e < n {
            next.events[e] == run.events[e]
        } else {
            (#[trigger] next.events[e]).time == now
        }) by {
            if e < n {
                assert(next.events.subrange(0, n)[e] == next.events[e]);
            } else {
                assert(fresh[e - n] == next.events[e]);
            }
        }
        assert(times_never_go_down(next.events)) by {
            assert forall|a: int, b: int|
                #![trigger next.events[a], next.events[b]]
                0 <= a <= b < next.events.len() implies next.events[a].time
                <= next.events[b].time by {
                if a < n {
                    assert(next.events[a] == run.events[a]);
                    assert(run.events[a].time <= slot_time(trades, floor_prices, order[0]));
                    if b < n {
                        assert(next.events[b] == run.events[b]);
                    }
                }
            }
        }
        assert forall|a: int, b: int|
            #![trigger rest[a], rest[b]]
            0 <= a <= b < rest.len() implies slot_time(trades, floor_prices, rest[a])
            <= slot_time(trades, floor_prices, rest[b]) by {
            assert(rest[a] == order[a + 1]);
            assert(rest[b] == order[b + 1]);
        }
        assert forall|e: int, k: int|
            #![trigger next.events[e], rest[k]]
            0 <= e < next.events.len() && 0 <= k < rest.len() implies next.events[e].time
            <= slot_time(trades, floor_prices, rest[k]) by {
            assert(rest[k] == order[k + 1]);
            assert(now <= slot_time(trades, floor_prices, order[k + 1]));
            if e < n {
                assert(next.events[e] == run.events[e]);
                assert(run.events[e].time <= slot_time(trades, floor_prices, order[k + 1]));
            }
        }
        lemma_replay_chronological(next, trades, floor_prices, rest);
    }
}

/// For two lists that are each sorted by time, the snapshots of a whole run
/// come out in order of time.
pub proof fn lemma_pnl_snapshots_chronological(
    trades: Seq<TradeView>,
    floor_prices: Seq<FloorPriceView>,
)
    requires
        trades_sorted(trades),
        floor_prices_sorted(floor_prices),
    ensures
        times_never_go_down(pnl_snapshots(trades, floor_prices)),
{
    lemma_merge_order_chronological(trades, floor_prices);
    lemma_replay_chronological(
        fresh_run(),
        trades,
        floor_prices,
        merge_order(trades, floor_prices),
    );
}

/// What holds of every ledger that a run passes through: each owned NFT is
/// listed once, and each owner has totals.
pub open spec fn sound(ledger: LedgerView) -> bool {
    ledger.well_formed() && ledger.owners_have_totals()
}

/// A purchase in a collection whose floor price was never set takes exactly
/// the trade price out of the buyer's unrealized total.
pub proof fn lemma_purchase_without_floor_price(ledger: LedgerView, trade: TradeView)
    requires
        !ledger.floor_prices.contains_key(trade.collection),
    ensures
        after_purchase(ledger, trade).wallet_pnl[trade.buyer] == (WalletPnL {
            realized: ledger.pnl_or_zero(trade.buyer).realized,
            unrealized: ledger.pnl_or_zero(trade.buyer).unrealized.wrapping_sub(trade.price),
        }),
{
}

/// A sweep drops no wallet and gives totals to every owner it visits.
pub proof fn lemma_sweep_keeps_wallets(
    ledger: LedgerView,
    collection: Seq<char>,
    delta: i64,
    n: nat,
)
    ensures
        forall|wallet: Seq<char>| #[trigger]
            ledger.wallet_pnl.contains_key(wallet) ==> sweep(
                ledger,
                collection,
                delta,
                n,
            ).wallet_pnl.contains_key(wallet),
    decreases n,
{
    if n > 0 {
        lemma_sweep_keeps_wallets(ledger, collection, delta, (n - 1) as nat);
    }
}

/// A trade drops the totals of no wallet.
pub proof fn lemma_trade_keeps_wallets(ledger: LedgerView, trade: TradeView)
    ensures
        forall|wallet: Seq<char>| #[trigger]
            ledger.wallet_pnl.contains_key(wallet) ==> after_trade(
                ledger,
                trade,
            ).wallet_pnl.contains_key(wallet),
{
}

/// A floor-price update drops the totals of no wallet.
pub proof fn lemma_floor_price_keeps_wallets(ledger: LedgerView, update: FloorPriceView)
    ensures
        forall|wallet: Seq<char>| #[trigger]
            ledger.wallet_pnl.contains_key(wallet) ==> after_floor_price(
                ledger,
                update,
            ).wallet_pnl.contains_key(wallet),
{
    let repriced = ledger.with_floor(update.collection, update.new_floor_price);
    lemma_sweep_keeps_wallets(
        repriced,
        update.collection,
        floor_price_delta(ledger, update),
        ledger.nft_order.len(),
    );
    assert forall|wallet: Seq<char>| #[trigger]
        ledger.wallet_pnl.contains_key(wallet) implies after_floor_price(
        ledger,
        update,
    ).wallet_pnl.contains_key(wallet) by {
        assert(repriced.wallet_pnl.contains_key(wallet));
    }
}

/// A trade takes a sound ledger to a sound ledger.
pub proof fn lemma_trade_keeps_sound(ledger: LedgerView, trade: TradeView)
    requires
        sound(ledger),
    ensures
        sound(after_trade(ledger, trade)),
{
    let settled = after_settlement(ledger, trade);
    let info = NftInfoView {
        wallet: trade.buyer,
        price: trade.price,
        collection: trade.collection,
    };
    settled.lemma_with_owner_well_formed(trade.nft, info);
    let after = after_trade(ledger, trade);
    assert forall|nft: Seq<char>| #[trigger]
        after.nft_owners.contains_key(nft) implies after.wallet_pnl.contains_key(
        after.nft_owners[nft].wallet,
    ) by {
        if nft != trade.nft {
            assert(ledger.nft_owners.contains_key(nft));
        }
    }
}

/// A floor-price update takes a sound ledger to a sound ledger.
pub proof fn lemma_floor_price_keeps_sound(ledger: LedgerView, update: FloorPriceView)
    requires
        sound(ledger),
    ensures
        sound(after_floor_price(ledger, update)),
{
    lemma_floor_price_reports_holders(ledger, update);
    lemma_floor_price_keeps_wallets(ledger, update);
    let after = after_floor_price(ledger, update);
    assert forall|nft: Seq<char>| #[trigger]
        after.nft_owners.contains_key(nft) <==> after.nft_order.contains(nft) by {
        assert(ledger.nft_owners.contains_key(nft) <==> ledger.nft_order.contains(nft));
    }
    assert forall|nft: Seq<char>| #[trigger]
        after.nft_owners.contains_key(nft) implies after.wallet_pnl.contains_key(
        after.nft_owners[nft].wallet,
    ) by {
        assert(ledger.nft_owners.contains_key(nft));
    }
}

/// Replaying any order of events takes a sound ledger to a sound ledger. So
/// every ledger of a whole run, which starts empty, is sound.
pub proof fn lemma_replay_keeps_sound(
    run: Run,
    trades: Seq<TradeView>,
    floor_prices: Seq<FloorPriceView>,
    order: Seq<Slot>,
)
    requires
        sound(run.ledger),
    ensures
        sound(replay(run, trades, floor_prices, order).ledger),
        sound(fresh_run().ledger),
    decreases order.len(),
{
    if order.len() > 0 {
        match order[0].source {
            Source::Trade => lemma_trade_keeps_sound(run.ledger, trades[order[0].index]),
            Source::FloorPrice => lemma_floor_price_keeps_sound(
                run.ledger,
                floor_prices[order[0].index],
            ),
        }
        lemma_replay_keeps_sound(
            dispatch(run, trades, floor_prices, order[0]),
            trades,
            floor_prices,
            order.drop_first(),
        );
    }
}

/// On a sound ledger a sweep with no change of floor price changes nothing.
pub proof fn lemma_sweep_by_zero_on_sound(ledger: LedgerView, collection: Seq<char>, n: nat)
    requires
        sound(ledger),
        n <= ledger.nft_order.len(),
    ensures
        sweep(ledger, collection, 0, n) == ledger,
    decreases n,
{
    if n > 0 {
        lemma_sweep_by_zero_on_sound(ledger, collection, (n - 1) as nat);
        let nft = ledger.nft_order[n - 1];
        assert(ledger.nft_order.contains(nft));
        assert(ledger.nft_owners.contains_key(nft));
        let info = ledger.nft_owners[nft];
        assert(ledger.wallet_pnl.insert(info.wallet, ledger.wallet_pnl[info.wallet])
            =~= ledger.wallet_pnl);
    }
}

/// On a sound ledger, a floor-price update that repeats the floor price in
/// force, or sets zero where none was set, does no more than put that floor
/// price on record.
pub proof fn lemma_same_floor_price_on_sound(ledger: LedgerView, update: FloorPriceView)
    requires
        sound(ledger),
        update.new_floor_price == ledger.floor_or_zero(update.collection),
    ensures
        after_floor_price(ledger, update) == ledger.with_floor(
            update.collection,
            update.new_floor_price,
        ),
{
    lemma_sweep_by_zero_on_sound(
        ledger.with_floor(update.collection, update.new_floor_price),
        update.collection,
        ledger.nft_order.len(),
    );
}

} // verus!
