use vstd::prelude::*;
use crate::chains::{chain_size_of, hotel_chain_size};
use crate::types::{Hotel, PlayerShares, Slot};

verus! {

/// Price of one share of a hotel of each tier before its chain grows.
pub open spec fn base_price_of(h: Hotel) -> int {
    match h {
        Hotel::Tower | Hotel::Luxor => 200,
        Hotel::American | Hotel::Worldwide | Hotel::Festival => 300,
        Hotel::Imperial | Hotel::Continental => 400,
    }
}

/// Price level of a chain of `n` slots. A hotel without a formed chain
/// (fewer than two slots) is priced at its base.
pub open spec fn level_of(n: int) -> int {
    if n <= 2 {
        0
    } else if n == 3 {
        1
    } else if n == 4 {
        2
    } else if n == 5 {
        3
    } else if n <= 10 {
        4
    } else if n <= 20 {
        5
    } else if n <= 30 {
        6
    } else if n <= 40 {
        7
    } else {
        8
    }
}

/// Price of one share of `h` when its chain has `n` slots.
pub open spec fn price_of(h: Hotel, n: int) -> int {
    base_price_of(h) + 100 * level_of(n)
}

/// What a share of the optional hotel costs on the board `slots`.
pub open spec fn cost_of(slots: Seq<Slot>, h: Option<Hotel>) -> int {
    match h {
        Some(h) => price_of(h, chain_size_of(slots, h) as int),
        None => 0,
    }
}

/// The count of shares of `h` in `s`.
pub open spec fn share_count(s: PlayerShares, h: Hotel) -> u8 {
    match h {
        Hotel::Luxor => s.luxor,
        Hotel::Tower => s.tower,
        Hotel::American => s.american,
        Hotel::Festival => s.festival,
        Hotel::Worldwide => s.worldwide,
        Hotel::Continental => s.continental,
        Hotel::Imperial => s.imperial,
    }
}

/// `s` with one more share of `h` (the count must stay below 256).
pub open spec fn with_share(s: PlayerShares, h: Hotel) -> PlayerShares {
    let c = (share_count(s, h) + 1) as u8;
    match h {
        Hotel::Luxor => PlayerShares { luxor: c, ..s },
        Hotel::Tower => PlayerShares { tower: c, ..s },
        Hotel::American => PlayerShares { american: c, ..s },
        Hotel::Festival => PlayerShares { festival: c, ..s },
        Hotel::Worldwide => PlayerShares { worldwide: c, ..s },
        Hotel::Continental => PlayerShares { continental: c, ..s },
        Hotel::Imperial => PlayerShares { imperial: c, ..s },
    }
}

/// Base price of one share of `hotel`: 200, 300 or 400 by tier.
pub fn base_price(hotel: Hotel) -> (r: i32)
    ensures
        r == base_price_of(hotel),
{
    let cheap: i32 = 200;
    let medium: i32 = 300;
    let spendy: i32 = 400;
    match hotel {
        Hotel::Tower => cheap,
        Hotel::Luxor => cheap,
        Hotel::American => medium,
        Hotel::Worldwide => medium,
        Hotel::Festival => medium,
        Hotel::Imperial => spendy,
        Hotel::Continental => spendy,
    }
}

/// Price level of a chain of `num_tiles` slots.
pub fn price_level(num_tiles: u8) -> (r: u8)
    ensures
        r == level_of(num_tiles as int),
{
    if num_tiles <= 2 {
        0
    } else if num_tiles == 3 {
        1
    } else if num_tiles == 4 {
        2
    } else if num_tiles == 5 {
        3
    } else if num_tiles <= 10 {
        4
    } else if num_tiles <= 20 {
        5
    } else if num_tiles <= 30 {
        6
    } else if num_tiles <= 40 {
        7
    } else {
        8
    }
}

/// Price of one share of `hotel` when its chain has `num_tiles` slots.
pub fn stock_price(hotel: Hotel, num_tiles: u8) -> (r: i32)
    ensures
        r == price_of(hotel, num_tiles as int),
        200 <= r <= 1200,
{
    base_price(hotel) + 100 * price_level(num_tiles) as i32
}

/// Price of one share of the optional hotel on a board laid out as
/// `slots`; nothing is bought for `None`.
pub fn share_price(slots: &Vec<Slot>, hotel: Option<Hotel>) -> (r: i32)
    ensures
        r == cost_of(slots@, hotel),
        0 <= r <= 1200,
{
    match hotel {
        Some(h) => {
            let n = hotel_chain_size(slots, h);
            if n > 255 {
                // every chain this large is priced at the top level
                stock_price(h, 255)
            } else {
                stock_price(h, n as u8)
            }
        },
        None => 0,
    }
}

/// `shares` with one more share of `hotel`.
pub fn add_share(shares: PlayerShares, hotel: Hotel) -> (r: PlayerShares)
    requires
        share_count(shares, hotel) < 255,
    ensures
        r == with_share(shares, hotel),
{
    let mut new_shares = shares;
    match hotel {
        Hotel::Tower => new_shares.tower = new_shares.tower + 1,
        Hotel::Luxor => new_shares.luxor = new_shares.luxor + 1,
        Hotel::American => new_shares.american = new_shares.american + 1,
        Hotel::Worldwide => new_shares.worldwide = new_shares.worldwide + 1,
        Hotel::Festival => new_shares.festival = new_shares.festival + 1,
        Hotel::Imperial => new_shares.imperial = new_shares.imperial + 1,
        Hotel::Continental => new_shares.continental = new_shares.continental + 1,
    }
    new_shares
}

/// The count of shares of `hotel` in `shares`.
pub fn shares_of(shares: &PlayerShares, hotel: Hotel) -> (r: u8)
    ensures
        r == share_count(*shares, hotel),
{
    match hotel {
        Hotel::Luxor => shares.luxor,
        Hotel::Tower => shares.tower,
        Hotel::American => shares.american,
        Hotel::Festival => shares.festival,
        Hotel::Worldwide => shares.worldwide,
        Hotel::Continental => shares.continental,
        Hotel::Imperial => shares.imperial,
    }
}

} // verus!
