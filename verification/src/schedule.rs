//! The order in which the events of two time-sorted lists are processed.
//!
//! One cursor runs over each list. The floor-price update under its cursor
//! goes next if no trade is left or if it is strictly earlier than the trade
//! under the other cursor; otherwise the trade goes next. So of a trade and
//! a floor-price update with the same time, the trade comes first.
//!
//! The lists are taken as they are. The order is chronological only if each
//! list is sorted by time; nothing here sorts or checks them.

use vstd::prelude::*;
use crate::events::floor_price_views;
use crate::events::trade_views;
use crate::events::FloorPriceView;
use crate::events::IncomingAssetCollectionFloorPriceEvent;
use crate::events::IncomingAssetTradeEvent;
use crate::events::TradeView;

verus! {

/// The list that an event is taken from.
#[derive(Clone, Copy, Debug, PartialEq, Eq, Structural)]
pub enum Source {
    Trade,
    FloorPrice,
}

/// One place in the processing order: the event at `index` of the list
/// `source`.
pub struct Slot {
    pub source: Source,
    pub index: int,
}

/// The times of `trades` never go down.
pub open spec fn trades_sorted(trades: Seq<TradeView>) -> bool {
    forall|a: int, b: int| 0 <= a <= b < trades.len() ==> trades[a].time <= trades[b].time
}

/// The times of `floor_prices` never go down.
pub open spec fn floor_prices_sorted(floor_prices: Seq<FloorPriceView>) -> bool {
    forall|a: int, b: int|
        0 <= a <= b < floor_prices.len() ==> floor_prices[a].time <= floor_prices[b].time
}

/// The list to take the next event from, with `i` trades and `j`
/// floor-price updates already taken; `None` when both lists are used up.
pub open spec fn next_source_at(
    trades: Seq<TradeView>,
    floor_prices: Seq<FloorPriceView>,
    i: nat,
    j: nat,
) -> Option<Source> {
    if j < floor_prices.len() && (i >= trades.len() || floor_prices[j as int].time
        < trades[i as int].time) {
        Some(Source::FloorPrice)
    } else if i < trades.len() {
        Some(Source::Trade)
    } else {
        None
    }
}

/// How many events are left with `i` trades and `j` floor-price updates
/// already taken.
pub open spec fn events_left(
    trades: Seq<TradeView>,
    floor_prices: Seq<FloorPriceView>,
    i: nat,
    j: nat,
) -> nat {
    let trades_left = if i <= trades.len() {
        trades.len() - i
    } else {
        0
    };
    let floor_prices_left = if j <= floor_prices.len() {
        floor_prices.len() - j
    } else {
        0
    };
    (trades_left + floor_prices_left) as nat
}

/// The processing order of the events that are left with `i` trades and `j`
/// floor-price updates already taken.
pub open spec fn merge_from(
    trades: Seq<TradeView>,
    floor_prices: Seq<FloorPriceView>,
    i: nat,
    j: nat,
) -> Seq<Slot>
    decreases events_left(trades, floor_prices, i, j),
{
    match next_source_at(trades, floor_prices, i, j) {
        Some(Source::FloorPrice) => seq![Slot { source: Source::FloorPrice, index: j as int }]
            + merge_from(trades, floor_prices, i, j + 1),
        Some(Source::Trade) => seq![Slot { source: Source::Trade, index: i as int }] + merge_from(
            trades,
            floor_prices,
            i + 1,
            j,
        ),
        None => Seq::empty(),
    }
}

/// The processing order of all events of the two lists.
pub open spec fn merge_order(trades: Seq<TradeView>, floor_prices: Seq<FloorPriceView>) -> Seq<
    Slot,
> {
    merge_from(trades, floor_prices, 0, 0)
}

/// The time of the event that stands at `slot`.
pub open spec fn slot_time(
    trades: Seq<TradeView>,
    floor_prices: Seq<FloorPriceView>,
    slot: Slot,
) -> u32 {
    match slot.source {
        Source::Trade => trades[slot.index].time,
        Source::FloorPrice => floor_prices[slot.index].time,
    }
}

/// `slot` names an event that is still to come with `i` trades and `j`
/// floor-price updates already taken.
pub open spec fn slot_pending(
    trades: Seq<TradeView>,
    floor_prices: Seq<FloorPriceView>,
    i: nat,
    j: nat,
    slot: Slot,
) -> bool {
    match slot.source {
        Source::Trade => i <= slot.index < trades.len(),
        Source::FloorPrice => j <= slot.index < floor_prices.len(),
    }
}

/// Tells which list the next event comes from, with `trade_index` trades
/// and `floor_price_index` floor-price updates already taken. A cursor at or
/// past the end of its list stands for a list that is used up.
pub fn next_source(
    trade_events: &Vec<IncomingAssetTradeEvent>,
    floor_price_events: &Vec<IncomingAssetCollectionFloorPriceEvent>,
    trade_index: usize,
    floor_price_index: usize,
) -> (next: Option<Source>)
    ensures
        next == next_source_at(
            trade_views(trade_events@),
            floor_price_views(floor_price_events@),
            trade_index as nat,
            floor_price_index as nat,
        ),
{
    if floor_price_index < floor_price_events.len() && (trade_index >= trade_events.len()
        || floor_price_events[floor_price_index].time < trade_events[trade_index].time) {
        Some(Source::FloorPrice)
    } else if trade_index < trade_events.len() {
        Some(Source::Trade)
    } else {
        None
    }
}

/// The place of the trade at `index` of its list.
pub open spec fn trade_slot(index: int) -> Slot {
    Slot { source: Source::Trade, index }
}

/// The place of the floor-price update at `index` of its list.
pub open spec fn floor_price_slot(index: int) -> Slot {
    Slot { source: Source::FloorPrice, index }
}

/// `order` holds exactly the events that are still to come with `i` trades
/// and `j` floor-price updates already taken, each of them once, and those
/// of each list in the order of that list.
pub open spec fn covers(
    order: Seq<Slot>,
    trades: Seq<TradeView>,
    floor_prices: Seq<FloorPriceView>,
    i: nat,
    j: nat,
) -> bool {
    &&& order.len() == (trades.len() - i) + (floor_prices.len() - j)
    &&& forall|k: int|
        0 <= k < order.len() ==> slot_pending(trades, floor_prices, i, j, #[trigger] order[k])
    &&& forall|t: int| i <= t < trades.len() ==> order.contains(#[trigger] trade_slot(t))
    &&& forall|f: int|
        j <= f < floor_prices.len() ==> order.contains(#[trigger] floor_price_slot(f))
    &&& forall|a: int, b: int|
        #![trigger order[a], order[b]]
        0 <= a < b < order.len() && order[a].source == order[b].source ==> order[a].index
            < order[b].index
}

/// The times along `order` never go down.
pub open spec fn chronological(
    order: Seq<Slot>,
    trades: Seq<TradeView>,
    floor_prices: Seq<FloorPriceView>,
) -> bool {
    forall|a: int, b: int|
        #![trigger order[a], order[b]]
        0 <= a <= b < order.len() ==> slot_time(trades, floor_prices, order[a]) <= slot_time(
            trades,
            floor_prices,
            order[b],
        )
}

/// Wherever a trade and a floor-price update of `order` have the same time,
/// the trade stands first.
pub open spec fn trades_first_on_ties(
    order: Seq<Slot>,
    trades: Seq<TradeView>,
    floor_prices: Seq<FloorPriceView>,
) -> bool {
    forall|a: int, b: int|
        #![trigger order[a], order[b]]
        0 <= a < order.len() && 0 <= b < order.len() && order[a].source == Source::Trade
            && order[b].source == Source::FloorPrice && slot_time(trades, floor_prices, order[a])
            == slot_time(trades, floor_prices, order[b]) ==> a < b
}

/// The order from a pair of cursors on holds every event that is left, once,
/// and keeps the events of each list in the order of that list. This needs
/// no sorted input.
pub proof fn lemma_merge_from_covers(
    trades: Seq<TradeView>,
    floor_prices: Seq<FloorPriceView>,
    i: nat,
    j: nat,
)
    requires
        i <= trades.len(),
        j <= floor_prices.len(),
    ensures
        covers(merge_from(trades, floor_prices, i, j), trades, floor_prices, i, j),
    decreases events_left(trades, floor_prices, i, j),
{
    let order = merge_from(trades, floor_prices, i, j);
    let next = next_source_at(trades, floor_prices, i, j);
    if next is Some {
        let i2: nat = if next == Some(Source::Trade) {
            i + 1
        } else {
            i
        };
        let j2: nat = if next == Some(Source::Trade) {
            j
        } else {
            j + 1
        };
        let rest = merge_from(trades, floor_prices, i2, j2);
        lemma_merge_from_covers(trades, floor_prices, i2, j2);
        let head = order[0];
        assert(order =~= seq![head] + rest);
        assert forall|k: int| 0 <= k < order.len() implies slot_pending(
            trades,
            floor_prices,
            i,
            j,
            #[trigger] order[k],
        ) by {
            if k > 0 {
                assert(order[k] == rest[k - 1]);
            }
        }
        assert forall|t: int| i <= t < trades.len() implies order.contains(
            #[trigger] trade_slot(t),
        ) by {
            if t >= i2 {
                assert(rest.contains(trade_slot(t)));
                let k = choose|k: int| 0 <= k < rest.len() && rest[k] == trade_slot(t);
                assert(order[k + 1] == trade_slot(t));
            } else {
                assert(order[0] == trade_slot(t));
            }
        }
        assert forall|f: int| j <= f < floor_prices.len() implies order.contains(
            #[trigger] floor_price_slot(f),
        ) by {
            if f >= j2 {
                assert(rest.contains(floor_price_slot(f)));
                let k = choose|k: int| 0 <= k < rest.len() && rest[k] == floor_price_slot(f);
                assert(order[k + 1] == floor_price_slot(f));
            } else {
                assert(order[0] == floor_price_slot(f));
            }
        }
        assert forall|a: int, b: int|
            #![trigger order[a], order[b]]
            0 <= a < b < order.len() && order[a].source == order[b].source implies order[a].index
            < order[b].index by {
            assert(order[b] == rest[b - 1]);
            if a > 0 {
                assert(order[a] == rest[a - 1]);
            }
        }
    }
}

/// Every event of either list stands in the processing order, none of them
/// twice, and the events of each list stand in the order of that list. This
/// needs no sorted input.
pub proof fn lemma_merge_order_covers(trades: Seq<TradeView>, floor_prices: Seq<FloorPriceView>)
    ensures
        covers(merge_order(trades, floor_prices), trades, floor_prices, 0, 0),
        merge_order(trades, floor_prices).len() == trades.len() + floor_prices.len(),
        merge_order(trades, floor_prices).no_duplicates(),
{
    lemma_merge_from_covers(trades, floor_prices, 0, 0);
    let order = merge_order(trades, floor_prices);
    assert forall|a: int, b: int|
        0 <= a < order.len() && 0 <= b < order.len() && a != b implies order[a] != order[b] by {
        if a < b {
            assert(order[a].source == order[b].source ==> order[a].index < order[b].index);
        } else {
            assert(order[b].source == order[a].source ==> order[b].index < order[a].index);
        }
    }
}

/// With both lists sorted by time, the order from a pair of cursors on is
/// chronological, and a trade stands before every floor-price update of the
/// same time.
pub proof fn lemma_merge_from_chronological(
    trades: Seq<TradeView>,
    floor_prices: Seq<FloorPriceView>,
    i: nat,
    j: nat,
)
    requires
        trades_sorted(trades),
        floor_prices_sorted(floor_prices),
        i <= trades.len(),
        j <= floor_prices.len(),
    ensures
        chronological(merge_from(trades, floor_prices, i, j), trades, floor_prices),
        trades_first_on_ties(merge_from(trades, floor_prices, i, j), trades, floor_prices),
    decreases events_left(trades, floor_prices, i, j),
{
    let order = merge_from(trades, floor_prices, i, j);
    let next = next_source_at(trades, floor_prices, i, j);
    if next is Some {
        let i2: nat = if next == Some(Source::Trade) {
            i + 1
        } else {
            i
        };
        let j2: nat = if next == Some(Source::Trade) {
            j
        } else {
            j + 1
        };
        let rest = merge_from(trades, floor_prices, i2, j2);
        lemma_merge_from_chronological(trades, floor_prices, i2, j2);
        lemma_merge_from_covers(trades, floor_prices, i2, j2);
        let head = order[0];
        assert(order =~= seq![head] + rest);
        assert forall|a: int, b: int|
            #![trigger order[a], order[b]]
            0 <= a <= b < order.len() implies slot_time(trades, floor_prices, order[a])
            <= slot_time(trades, floor_prices, order[b]) by {
            if b > 0 {
                assert(order[b] == rest[b - 1]);
                assert(slot_pending(trades, floor_prices, i2, j2, rest[b - 1]));
                if a > 0 {
                    assert(order[a] == rest[a - 1]);
                }
            }
        }
        assert forall|a: int, b: int|
            #![trigger order[a], order[b]]
            0 <= a < order.len() && 0 <= b < order.len() && order[a].source == Source::Trade
                && order[b].source == Source::FloorPrice && slot_time(
                trades,
                floor_prices,
                order[a],
            ) == slot_time(trades, floor_prices, order[b]) implies a < b by {
            if a > 0 {
                assert(order[a] == rest[a - 1]);
                assert(slot_pending(trades, floor_prices, i2, j2, rest[a - 1]));
                if b > 0 {
                    assert(order[b] == rest[b - 1]);
                }
            }
        }
    }
}

/// For two lists that are each sorted by time, the processing order never
/// steps back in time, and of a trade and a floor-price update with the same
/// time the trade is processed first.
pub proof fn lemma_merge_order_chronological(
    trades: Seq<TradeView>,
    floor_prices: Seq<FloorPriceView>,
)
    requires
        trades_sorted(trades),
        floor_prices_sorted(floor_prices),
    ensures
        chronological(merge_order(trades, floor_prices), trades, floor_prices),
        trades_first_on_ties(merge_order(trades, floor_prices), trades, floor_prices),
{
    lemma_merge_from_chronological(trades, floor_prices, 0, 0);
}

} // verus!
