use nft_pnl::events::process_pnl;
use nft_pnl::events::IncomingAssetCollectionFloorPriceEvent;
use nft_pnl::events::IncomingAssetTradeEvent;
use nft_pnl::events::OutgoingWalletPnLEvent;

fn trade(
    time: u32,
    buyer: &str,
    seller: &str,
    nft: &str,
    collection: &str,
    price: i64,
) -> IncomingAssetTradeEvent {
    IncomingAssetTradeEvent {
        time,
        buyer: String::from(buyer),
        seller: String::from(seller),
        nft: String::from(nft),
        collection: String::from(collection),
        price,
    }
}

fn floor(time: u32, collection: &str, new_floor_price: i64) -> IncomingAssetCollectionFloorPriceEvent {
    IncomingAssetCollectionFloorPriceEvent {
        time,
        collection: String::from(collection),
        new_floor_price,
    }
}

fn snapshot(time: u32, wallet: &str, realized: i64, unrealized: i64) -> OutgoingWalletPnLEvent {
    OutgoingWalletPnLEvent { time, wallet: String::from(wallet), realized, unrealized }
}

#[test]
fn no_events_give_no_snapshots() {
    assert_eq!(process_pnl(vec![], vec![]), vec![]);
}

#[test]
fn floor_prices_alone_give_no_snapshots() {
    let out = process_pnl(vec![], vec![floor(1, "C", 10), floor(2, "D", 20), floor(3, "C", 30)]);
    assert_eq!(out, vec![]);
}

#[test]
fn buy_mark_and_sell() {
    let out = process_pnl(
        vec![trade(1, "A", "X", "N1", "C", 100), trade(3, "B", "A", "N1", "C", 150)],
        vec![floor(2, "C", 120)],
    );
    assert_eq!(
        out,
        vec![
            snapshot(1, "A", 0, -100),
            snapshot(2, "A", 0, 20),
            snapshot(3, "B", 0, -30),
            snapshot(3, "A", 50, 0),
        ]
    );
}

#[test]
fn trade_goes_before_floor_price_of_the_same_time() {
    let out = process_pnl(vec![trade(2, "A", "X", "N1", "C", 100)], vec![floor(2, "C", 120)]);
    assert_eq!(out, vec![snapshot(2, "A", 0, -100), snapshot(2, "A", 0, 20)]);
}

#[test]
fn earlier_floor_price_goes_before_trade() {
    let out = process_pnl(vec![trade(2, "A", "X", "N1", "C", 100)], vec![floor(1, "C", 120)]);
    assert_eq!(out, vec![snapshot(2, "A", 0, 20)]);
}

#[test]
fn snapshot_times_never_go_down_for_sorted_lists() {
    let out = process_pnl(
        vec![
            trade(1, "A", "X", "N1", "C", 10),
            trade(4, "B", "X", "N2", "C", 20),
            trade(4, "A", "B", "N2", "C", 25),
            trade(9, "B", "A", "N1", "C", 5),
        ],
        vec![floor(0, "C", 1), floor(4, "C", 2), floor(5, "C", 3), floor(9, "C", 4), floor(12, "C", 5)],
    );
    for pair in out.windows(2) {
        assert!(pair[0].time <= pair[1].time);
    }
    assert_eq!(
        out,
        vec![
            snapshot(1, "A", 0, -9),
            snapshot(4, "B", 0, -19),
            snapshot(4, "A", 0, -33),
            snapshot(4, "B", 5, 0),
            snapshot(4, "A", 0, -32),
            snapshot(4, "A", 0, -31),
            snapshot(5, "A", 0, -30),
            snapshot(5, "A", 0, -29),
            snapshot(9, "B", 5, -2),
            snapshot(9, "A", -5, -22),
            snapshot(9, "B", 5, -1),
            snapshot(9, "A", -5, -21),
            snapshot(12, "B", 5, 0),
            snapshot(12, "A", -5, -20),
        ]
    );
}

#[test]
fn unknown_collection_counts_as_floor_price_zero() {
    let implicit = process_pnl(vec![trade(5, "A", "X", "N1", "C", 70)], vec![]);
    let explicit = process_pnl(vec![trade(5, "A", "X", "N1", "C", 70)], vec![floor(1, "C", 0)]);
    assert_eq!(implicit, vec![snapshot(5, "A", 0, -70)]);
    assert_eq!(explicit, implicit);
}

#[test]
fn first_trade_of_an_nft_reports_no_unknown_seller() {
    let out = process_pnl(vec![trade(1, "A", "X", "N1", "C", 100)], vec![]);
    assert_eq!(out, vec![snapshot(1, "A", 0, -100)]);
}

#[test]
fn first_trade_of_an_nft_reports_a_known_seller_unchanged() {
    let out = process_pnl(
        vec![trade(1, "S", "X", "N0", "C", 5), trade(2, "A", "S", "N1", "C", 100)],
        vec![],
    );
    assert_eq!(out, vec![snapshot(1, "S", 0, -5), snapshot(2, "A", 0, -100), snapshot(2, "S", 0, -5)]);
}

#[test]
fn seller_is_settled_even_if_not_the_owner_on_record() {
    let out = process_pnl(
        vec![trade(1, "A", "X", "N1", "C", 100), trade(2, "B", "M", "N1", "C", 130)],
        vec![],
    );
    assert_eq!(out, vec![snapshot(1, "A", 0, -100), snapshot(2, "B", 0, -130), snapshot(2, "M", 30, 100)]);
}

#[test]
fn wallet_trading_with_itself_is_reported_twice() {
    let out = process_pnl(
        vec![trade(1, "A", "A", "N1", "C", 100), trade(2, "A", "A", "N1", "C", 130)],
        vec![floor(1, "C", 110)],
    );
    assert_eq!(
        out,
        vec![
            snapshot(1, "A", 0, -100),
            snapshot(1, "A", 0, -100),
            snapshot(1, "A", 0, 10),
            snapshot(2, "A", 30, -20),
            snapshot(2, "A", 30, -20),
        ]
    );
}

#[test]
fn repeated_floor_price_moves_nothing_but_reports_every_nft() {
    let out = process_pnl(
        vec![trade(1, "A", "X", "N1", "C", 100), trade(1, "A", "X", "N2", "C", 50)],
        vec![floor(2, "C", 0), floor(3, "C", 7), floor(4, "C", 7)],
    );
    assert_eq!(
        out,
        vec![
            snapshot(1, "A", 0, -100),
            snapshot(1, "A", 0, -150),
            snapshot(2, "A", 0, -150),
            snapshot(2, "A", 0, -150),
            snapshot(3, "A", 0, -143),
            snapshot(3, "A", 0, -136),
            snapshot(4, "A", 0, -136),
            snapshot(4, "A", 0, -136),
        ]
    );
}

#[test]
fn floor_price_visits_nfts_in_order_of_first_acquisition() {
    let out = process_pnl(
        vec![
            trade(1, "A", "X", "N1", "C", 10),
            trade(2, "B", "X", "N2", "C", 20),
            trade(3, "A", "X", "N3", "C", 30),
            trade(4, "Z", "X", "N4", "D", 40),
            trade(5, "B", "A", "N1", "C", 15),
        ],
        vec![floor(6, "C", 10), floor(7, "C", 25)],
    );
    assert_eq!(
        out,
        vec![
            snapshot(1, "A", 0, -10),
            snapshot(2, "B", 0, -20),
            snapshot(3, "A", 0, -40),
            snapshot(4, "Z", 0, -40),
            snapshot(5, "B", 0, -35),
            snapshot(5, "A", 5, -30),
            snapshot(6, "B", 0, -25),
            snapshot(6, "B", 0, -15),
            snapshot(6, "A", 5, -20),
            snapshot(7, "B", 0, 0),
            snapshot(7, "B", 0, 15),
            snapshot(7, "A", 5, -5),
        ]
    );
}

#[test]
fn floor_price_of_another_collection_reports_nobody() {
    let out = process_pnl(vec![trade(1, "A", "X", "N1", "C", 10)], vec![floor(2, "D", 99)]);
    assert_eq!(out, vec![snapshot(1, "A", 0, -10)]);
}

#[test]
fn negative_amounts_flow_through() {
    let out = process_pnl(
        vec![trade(1, "A", "X", "N1", "C", -5), trade(2, "B", "A", "N1", "C", -8)],
        vec![floor(1, "C", -3)],
    );
    assert_eq!(
        out,
        vec![snapshot(1, "A", 0, 5), snapshot(1, "A", 0, 2), snapshot(2, "B", 0, 5), snapshot(2, "A", -3, 0)]
    );
}

#[test]
fn sums_wrap_around() {
    let out = process_pnl(
        vec![trade(1, "A", "X", "N1", "C", i64::MIN), trade(2, "A", "X", "N2", "C", 1)],
        vec![],
    );
    assert_eq!(out, vec![snapshot(1, "A", 0, i64::MIN), snapshot(2, "A", 0, i64::MAX)]);
    let out = process_pnl(
        vec![
            trade(1, "A", "X", "N1", "C", i64::MAX),
            trade(2, "A", "X", "N2", "C", i64::MAX),
            trade(3, "A", "X", "N3", "C", 2),
        ],
        vec![],
    );
    assert_eq!(out, vec![snapshot(1, "A", 0, -i64::MAX), snapshot(2, "A", 0, 2), snapshot(3, "A", 0, 0)]);
}

#[test]
fn unsorted_lists_are_taken_as_they_come() {
    let out = process_pnl(
        vec![trade(5, "A", "X", "N1", "C", 100), trade(1, "B", "A", "N1", "C", 70)],
        vec![floor(3, "C", 50), floor(2, "C", 80)],
    );
    assert_eq!(out, vec![snapshot(5, "A", 0, -20), snapshot(1, "B", 0, 10), snapshot(1, "A", -30, 0)]);
}
