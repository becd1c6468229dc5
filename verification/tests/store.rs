use nft_pnl::events::IncomingAssetCollectionFloorPriceEvent;
use nft_pnl::events::IncomingAssetTradeEvent;
use nft_pnl::ledger::Ledger;
use nft_pnl::nft::NftInfo;
use nft_pnl::schedule::next_source;
use nft_pnl::schedule::Source;
use nft_pnl::wallet::WalletPnL;

fn record(wallet: &str, price: i64, collection: &str) -> NftInfo {
    NftInfo { wallet: String::from(wallet), price, collection: String::from(collection) }
}

fn trade_at(time: u32) -> IncomingAssetTradeEvent {
    IncomingAssetTradeEvent {
        time,
        buyer: String::from("A"),
        seller: String::from("B"),
        nft: String::from("N"),
        collection: String::from("C"),
        price: 1,
    }
}

fn floor_at(time: u32) -> IncomingAssetCollectionFloorPriceEvent {
    IncomingAssetCollectionFloorPriceEvent { time, collection: String::from("C"), new_floor_price: 1 }
}

#[test]
fn wallet_totals_start_at_zero() {
    assert_eq!(WalletPnL::default(), WalletPnL { realized: 0, unrealized: 0 });
}

#[test]
fn mark_adds_to_unrealized_only() {
    let pnl = WalletPnL { realized: 5, unrealized: -3 };
    assert_eq!(pnl.mark(10), WalletPnL { realized: 5, unrealized: 7 });
    assert_eq!(pnl.mark(-10), WalletPnL { realized: 5, unrealized: -13 });
    assert_eq!(pnl.mark(0), pnl);
}

#[test]
fn close_adds_gain_and_releases_paper_gain() {
    let pnl = WalletPnL { realized: 5, unrealized: 20 };
    assert_eq!(pnl.close(50, 20), WalletPnL { realized: 55, unrealized: 0 });
    assert_eq!(pnl.close(-7, -4), WalletPnL { realized: -2, unrealized: 24 });
}

#[test]
fn mark_and_close_wrap_around() {
    let pnl = WalletPnL { realized: i64::MAX, unrealized: i64::MAX };
    assert_eq!(pnl.mark(1), WalletPnL { realized: i64::MAX, unrealized: i64::MIN });
    assert_eq!(pnl.close(1, -1), WalletPnL { realized: i64::MIN, unrealized: i64::MIN });
}

#[test]
fn new_ledger_is_empty() {
    let ledger = Ledger::new();
    assert_eq!(ledger.nft_count(), 0);
    assert_eq!(ledger.floor_or_zero("C"), 0);
    assert_eq!(ledger.pnl("A"), None);
    assert_eq!(ledger.pnl_or_zero("A"), WalletPnL { realized: 0, unrealized: 0 });
    assert_eq!(ledger.owner("N"), None);
}

#[test]
fn floor_price_is_kept_per_collection_and_replaced() {
    let mut ledger = Ledger::new();
    ledger.set_floor(String::from("C"), 5);
    ledger.set_floor(String::from("D"), -6);
    assert_eq!(ledger.floor_or_zero("C"), 5);
    assert_eq!(ledger.floor_or_zero("D"), -6);
    assert_eq!(ledger.floor_or_zero("E"), 0);
    ledger.set_floor(String::from("C"), 9);
    assert_eq!(ledger.floor_or_zero("C"), 9);
    assert_eq!(ledger.floor_or_zero("D"), -6);
}

#[test]
fn totals_are_kept_per_wallet_and_replaced() {
    let mut ledger = Ledger::new();
    ledger.set_pnl(String::from("A"), WalletPnL { realized: 1, unrealized: 2 });
    ledger.set_pnl(String::from("B"), WalletPnL { realized: 0, unrealized: 0 });
    assert_eq!(ledger.pnl("A"), Some(WalletPnL { realized: 1, unrealized: 2 }));
    assert_eq!(ledger.pnl("B"), Some(WalletPnL { realized: 0, unrealized: 0 }));
    assert_eq!(ledger.pnl("C"), None);
    ledger.set_pnl(String::from("A"), WalletPnL { realized: 3, unrealized: 4 });
    assert_eq!(ledger.pnl_or_zero("A"), WalletPnL { realized: 3, unrealized: 4 });
}

#[test]
fn nft_has_one_record_and_keeps_its_place() {
    let mut ledger = Ledger::new();
    ledger.set_owner(String::from("N1"), record("A", 10, "C"));
    ledger.set_owner(String::from("N2"), record("B", 20, "D"));
    ledger.set_owner(String::from("N1"), record("Z", 30, "E"));
    assert_eq!(ledger.nft_count(), 2);
    assert_eq!(ledger.owner("N1"), Some(&record("Z", 30, "E")));
    assert_eq!(ledger.owner("N2"), Some(&record("B", 20, "D")));
    assert_eq!(ledger.owner("N3"), None);
    assert_eq!(ledger.holding(0), &record("Z", 30, "E"));
    assert_eq!(ledger.holding(1), &record("B", 20, "D"));
}

#[test]
fn next_source_prefers_trade_unless_floor_price_is_earlier() {
    let trades = vec![trade_at(5), trade_at(7)];
    let floors = vec![floor_at(4), floor_at(5), floor_at(9)];
    assert_eq!(next_source(&trades, &floors, 0, 0), Some(Source::FloorPrice));
    assert_eq!(next_source(&trades, &floors, 0, 1), Some(Source::Trade));
    assert_eq!(next_source(&trades, &floors, 1, 1), Some(Source::FloorPrice));
    assert_eq!(next_source(&trades, &floors, 1, 2), Some(Source::Trade));
}

#[test]
fn next_source_drains_the_list_that_is_left() {
    let trades = vec![trade_at(5), trade_at(7)];
    let floors = vec![floor_at(4), floor_at(5), floor_at(9)];
    assert_eq!(next_source(&trades, &floors, 2, 2), Some(Source::FloorPrice));
    assert_eq!(next_source(&trades, &floors, 1, 3), Some(Source::Trade));
    assert_eq!(next_source(&trades, &floors, 2, 3), None);
    assert_eq!(next_source(&trades, &floors, 9, 9), None);
    assert_eq!(next_source(&Vec::new(), &Vec::new(), 0, 0), None);
}
