use nft_pnl::events::process_floor_price_event;
use nft_pnl::events::process_trade_event;
use nft_pnl::events::IncomingAssetCollectionFloorPriceEvent;
use nft_pnl::events::IncomingAssetTradeEvent;
use nft_pnl::events::OutgoingWalletPnLEvent;
use nft_pnl::ledger::Ledger;
use nft_pnl::nft::NftInfo;
use nft_pnl::wallet::WalletPnL;

fn buy(time: u32, buyer: &str, seller: &str, nft: &str, collection: &str, price: i64) -> IncomingAssetTradeEvent {
    IncomingAssetTradeEvent {
        time,
        buyer: String::from(buyer),
        seller: String::from(seller),
        nft: String::from(nft),
        collection: String::from(collection),
        price,
    }
}

fn reprice(time: u32, collection: &str, new_floor_price: i64) -> IncomingAssetCollectionFloorPriceEvent {
    IncomingAssetCollectionFloorPriceEvent { time, collection: String::from(collection), new_floor_price }
}

fn shot(time: u32, wallet: &str, realized: i64, unrealized: i64) -> OutgoingWalletPnLEvent {
    OutgoingWalletPnLEvent { time, wallet: String::from(wallet), realized, unrealized }
}

fn info(wallet: &str, price: i64, collection: &str) -> NftInfo {
    NftInfo { wallet: String::from(wallet), price, collection: String::from(collection) }
}

#[test]
fn trade_marks_buyer_against_floor_price() {
    let mut ledger = Ledger::new();
    let mut events = Vec::new();
    ledger.set_floor(String::from("C"), 120);
    ledger.set_pnl(String::from("A"), WalletPnL { realized: 7, unrealized: 4 });
    process_trade_event(&buy(9, "A", "X", "N1", "C", 150), &mut ledger, &mut events);
    assert_eq!(events, vec![shot(9, "A", 7, -26)]);
    assert_eq!(ledger.pnl("A"), Some(WalletPnL { realized: 7, unrealized: -26 }));
    assert_eq!(ledger.pnl("X"), None);
    assert_eq!(ledger.owner("N1"), Some(&info("A", 150, "C")));
    assert_eq!(ledger.floor_or_zero("C"), 120);
    assert_eq!(ledger.nft_count(), 1);
}

#[test]
fn trade_closes_the_recorded_position_on_the_seller() {
    let mut ledger = Ledger::new();
    let mut events = Vec::new();
    ledger.set_floor(String::from("C"), 120);
    ledger.set_owner(String::from("N1"), info("S", 100, "C"));
    ledger.set_pnl(String::from("S"), WalletPnL { realized: 1, unrealized: 20 });
    process_trade_event(&buy(3, "B", "S", "N1", "C", 150), &mut ledger, &mut events);
    assert_eq!(events, vec![shot(3, "B", 0, -30), shot(3, "S", 51, 0)]);
    assert_eq!(ledger.owner("N1"), Some(&info("B", 150, "C")));
    assert_eq!(ledger.nft_count(), 1);
}

#[test]
fn trade_keeps_earlier_snapshots() {
    let mut ledger = Ledger::new();
    let mut events = vec![shot(0, "Q", 1, 2)];
    process_trade_event(&buy(1, "A", "X", "N1", "C", 10), &mut ledger, &mut events);
    assert_eq!(events, vec![shot(0, "Q", 1, 2), shot(1, "A", 0, -10)]);
}

#[test]
fn trade_uses_the_floor_price_of_the_traded_collection() {
    let mut ledger = Ledger::new();
    let mut events = Vec::new();
    ledger.set_floor(String::from("C"), 120);
    ledger.set_floor(String::from("D"), 500);
    ledger.set_owner(String::from("N1"), info("S", 100, "D"));
    process_trade_event(&buy(3, "B", "S", "N1", "C", 150), &mut ledger, &mut events);
    assert_eq!(events, vec![shot(3, "B", 0, -30), shot(3, "S", 50, -20)]);
    assert_eq!(ledger.owner("N1"), Some(&info("B", 150, "C")));
}

#[test]
fn floor_price_moves_each_holding_by_the_change() {
    let mut ledger = Ledger::new();
    let mut events = Vec::new();
    ledger.set_floor(String::from("C"), 100);
    ledger.set_owner(String::from("N1"), info("A", 90, "C"));
    ledger.set_owner(String::from("N2"), info("B", 95, "D"));
    ledger.set_owner(String::from("N3"), info("A", 80, "C"));
    ledger.set_pnl(String::from("A"), WalletPnL { realized: 3, unrealized: 30 });
    process_floor_price_event(&reprice(8, "C", 130), &mut ledger, &mut events);
    assert_eq!(events, vec![shot(8, "A", 3, 60), shot(8, "A", 3, 90)]);
    assert_eq!(ledger.floor_or_zero("C"), 130);
    assert_eq!(ledger.floor_or_zero("D"), 0);
    assert_eq!(ledger.pnl("A"), Some(WalletPnL { realized: 3, unrealized: 90 }));
    assert_eq!(ledger.pnl("B"), None);
}

#[test]
fn floor_price_drop_lowers_unrealized() {
    let mut ledger = Ledger::new();
    let mut events = Vec::new();
    ledger.set_floor(String::from("C"), 100);
    ledger.set_owner(String::from("N1"), info("A", 90, "C"));
    process_floor_price_event(&reprice(8, "C", 60), &mut ledger, &mut events);
    assert_eq!(events, vec![shot(8, "A", 0, -40)]);
}

#[test]
fn floor_price_is_set_for_a_collection_nobody_holds() {
    let mut ledger = Ledger::new();
    let mut events = vec![shot(0, "Q", 1, 2)];
    process_floor_price_event(&reprice(8, "C", 60), &mut ledger, &mut events);
    assert_eq!(events, vec![shot(0, "Q", 1, 2)]);
    assert_eq!(ledger.floor_or_zero("C"), 60);
}

#[test]
fn same_floor_price_reports_unchanged_totals() {
    let mut ledger = Ledger::new();
    let mut events = Vec::new();
    ledger.set_floor(String::from("C"), 100);
    ledger.set_owner(String::from("N1"), info("A", 90, "C"));
    ledger.set_owner(String::from("N2"), info("B", 90, "C"));
    ledger.set_pnl(String::from("A"), WalletPnL { realized: 3, unrealized: 30 });
    process_floor_price_event(&reprice(8, "C", 100), &mut ledger, &mut events);
    assert_eq!(events, vec![shot(8, "A", 3, 30), shot(8, "B", 0, 0)]);
    assert_eq!(ledger.pnl_or_zero("A"), WalletPnL { realized: 3, unrealized: 30 });
    assert_eq!(ledger.pnl_or_zero("B"), WalletPnL { realized: 0, unrealized: 0 });
}
