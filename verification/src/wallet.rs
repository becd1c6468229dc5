//! The profit-and-loss totals kept for each wallet.

use vstd::prelude::*;

verus! {

/// Running profit-and-loss totals of one wallet.
///
/// `realized` is what completed sales have locked in; `unrealized` is the
/// paper gain or loss of the positions still held, marked against the floor
/// price of their collections.
#[derive(Clone, Copy, Debug, PartialEq, Eq)]
pub struct WalletPnL {
    pub realized: i64,
    pub unrealized: i64,
}

impl WalletPnL {
    /// The totals of a wallet that has seen no activity.
    pub open spec fn zero() -> WalletPnL {
        WalletPnL { realized: 0, unrealized: 0 }
    }

    /// The totals after the wallet's open positions gained `delta` on paper.
    pub open spec fn marked(self, delta: i64) -> WalletPnL {
        WalletPnL {
            realized: self.realized,
            unrealized: self.unrealized.wrapping_add(delta),
        }
    }

    /// The totals after a position was closed: `gain` is locked in and the
    /// paper gain `released`, which that position had carried, is taken out.
    pub open spec fn closed(self, gain: i64, released: i64) -> WalletPnL {
        WalletPnL {
            realized: self.realized.wrapping_add(gain),
            unrealized: self.unrealized.wrapping_sub(released),
        }
    }

    /// Where the sum fits in an `i64`, marking is plain addition.
    pub proof fn lemma_marked_in_range(self, delta: i64)
        requires
            i64::MIN <= self.unrealized + delta <= i64::MAX,
        ensures
            self.marked(delta).unrealized == self.unrealized + delta,
            self.marked(delta).realized == self.realized,
    {
    }

    /// Where both results fit in an `i64`, closing is plain addition and
    /// subtraction.
    pub proof fn lemma_closed_in_range(self, gain: i64, released: i64)
        requires
            i64::MIN <= self.realized + gain <= i64::MAX,
            i64::MIN <= self.unrealized - released <= i64::MAX,
        ensures
            self.closed(gain, released).realized == self.realized + gain,
            self.closed(gain, released).unrealized == self.unrealized - released,
    {
    }

    /// Adds `delta` to the unrealized total.
    pub fn mark(self, delta: i64) -> (r: WalletPnL)
        ensures
            r == self.marked(delta),
    {
        WalletPnL { realized: self.realized, unrealized: self.unrealized.wrapping_add(delta) }
    }

    /// Books a sale: adds `gain` to the realized total and takes `released`
    /// out of the unrealized one.
    pub fn close(self, gain: i64, released: i64) -> (r: WalletPnL)
        ensures
            r == self.closed(gain, released),
    {
        WalletPnL {
            realized: self.realized.wrapping_add(gain),
            unrealized: self.unrealized.wrapping_sub(released),
        }
    }
}

impl Default for WalletPnL {
    fn default() -> (r: WalletPnL)
        ensures
            r == WalletPnL::zero(),
    {
        WalletPnL { realized: 0, unrealized: 0 }
    }
}

} // verus!
