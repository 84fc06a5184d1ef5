//! The account as the exchanges report it.

use crate::failure::{Failure, Reason};
use crate::json::{amount_or, either_amount, either_number, number, number_or, render, rendered, Json};
use crate::models::{OrderExecution, PositionLeg};
use crate::num::constants::{EPSILON, ONE, ZERO};
use crate::num::double::of_int;
use crate::num::sums::{sum, total};
use crate::num::Double;
use crate::text::{join, join3, same};
use vstd::prelude::*;

verus! {

/// What an account is worth.
#[derive(Clone, Copy, Debug, PartialEq, Eq, Structural)]
pub struct AccountBalance {
    pub equity: Double,
    pub available: Double,
    pub unrealized_pnl: Double,
}

impl Default for AccountBalance {
    fn default() -> (r: Self)
        ensures
            r == (AccountBalance {
                equity: Double { bits: ZERO },
                available: Double { bits: ZERO },
                unrealized_pnl: Double { bits: ZERO },
            }),
    {
        AccountBalance {
            equity: Double { bits: ZERO },
            available: Double { bits: ZERO },
            unrealized_pnl: Double { bits: ZERO },
        }
    }
}

/// The name that a leg is kept under.
pub open spec fn key(symbol: Seq<char>, side: Seq<char>, market: Seq<char>) -> Seq<char> {
    market + ":"@ + symbol + ":"@ + side
}

/// The name that a leg is kept under.
pub fn position_key(symbol: &str, side: &str, market: &str) -> (r: String)
    ensures
        r@ == key(symbol@, side@, market@),
{
    join3(market, symbol, side, ":")
}

/// The name of a leg.
pub open spec fn key_of(leg: PositionLeg) -> Seq<char> {
    key(leg.symbol@, leg.side@, leg.market@)
}

/// The place of a leg.
pub open spec fn leg_at(legs: Seq<PositionLeg>, name: Seq<char>) -> Option<int>
    decreases legs.len(),
{
    if legs.len() == 0 {
        None
    } else if key_of(legs[0]) == name {
        Some(0)
    } else {
        match leg_at(legs.drop_first(), name) {
            Some(i) => Some(i + 1),
            None => None,
        }
    }
}

fn find_leg(legs: &Vec<PositionLeg>, name: &str) -> (r: Option<usize>)
    ensures
        match r {
            Some(i) => i < legs@.len() && leg_at(legs@, name@) == Some(i as int),
            None => leg_at(legs@, name@) is None,
        },
{
    let mut i: usize = 0;
    proof {
        assert(legs@.skip(0) =~= legs@);
    }
    while i < legs.len()
        invariant
            i <= legs@.len(),
            leg_at(legs@, name@) == match leg_at(legs@.skip(i as int), name@) {
                Some(j) => Some(j + i),
                None => None,
            },
        decreases legs@.len() - i,
    {
        proof {
            assert(legs@.skip(i as int)[0] == legs@[i as int]);
            assert(legs@.skip(i as int).drop_first() =~= legs@.skip(i as int + 1));
        }
        let own = position_key(legs[i].symbol.as_str(), legs[i].side.as_str(), legs[i].market.as_str());
        if same(own.as_str(), name) {
            return Some(i);
        }
        i = i + 1;
    }
    None
}

/// The legs with one put in: in the place of the one of its name, or at the end.
pub open spec fn put(legs: Seq<PositionLeg>, leg: PositionLeg) -> Seq<PositionLeg> {
    match leg_at(legs, key_of(leg)) {
        Some(i) => legs.update(i, leg),
        None => legs.push(leg),
    }
}

fn put_leg(legs: &mut Vec<PositionLeg>, leg: PositionLeg)
    ensures
        final(legs)@ == put(old(legs)@, leg),
{
    let name = position_key(leg.symbol.as_str(), leg.side.as_str(), leg.market.as_str());
    match find_leg(legs, name.as_str()) {
        Some(i) => {
            legs.set(i, leg);
        },
        None => {
            legs.push(leg);
        },
    }
}

/// The legs without the one of a name.
pub open spec fn without(legs: Seq<PositionLeg>, name: Seq<char>) -> Seq<PositionLeg> {
    match leg_at(legs, name) {
        Some(i) => legs.remove(i),
        None => legs,
    }
}

fn drop_leg(legs: &mut Vec<PositionLeg>, name: &str)
    ensures
        final(legs)@ == without(old(legs)@, name@),
{
    if let Some(i) = find_leg(legs, name) {
        legs.remove(i);
    }
}

/// Whether no two legs have one name.
pub open spec fn distinct(legs: Seq<PositionLeg>) -> bool {
    forall|i: int, j: int| 0 <= i < j < legs.len() ==> key_of(#[trigger] legs[i]) != key_of(#[trigger] legs[j])
}

proof fn lemma_leg_at(legs: Seq<PositionLeg>, name: Seq<char>)
    ensures
        match leg_at(legs, name) {
            Some(i) => {
                &&& 0 <= i < legs.len()
                &&& key_of(legs[i]) == name
                &&& forall|j: int| 0 <= j < i ==> key_of(#[trigger] legs[j]) != name
            },
            None => forall|j: int| 0 <= j < legs.len() ==> key_of(#[trigger] legs[j]) != name,
        },
    decreases legs.len(),
{
    if legs.len() > 0 {
        let rest = legs.drop_first();
        lemma_leg_at(rest, name);
        if key_of(legs[0]) != name {
            match leg_at(rest, name) {
                Some(i) => {
                    assert(legs[i + 1] == rest[i]);
                    assert forall|j: int| 0 <= j < i + 1 implies key_of(#[trigger] legs[j]) != name by {
                        if j > 0 {
                            assert(legs[j] == rest[j - 1]);
                        }
                    }
                },
                None => {
                    assert forall|j: int| 0 <= j < legs.len() implies key_of(#[trigger] legs[j]) != name by {
                        if j > 0 {
                            assert(legs[j] == rest[j - 1]);
                        }
                    }
                },
            }
        }
    }
}

/// What is held under a name.
pub open spec fn held(legs: Seq<PositionLeg>, name: Seq<char>) -> Option<PositionLeg> {
    match leg_at(legs, name) {
        Some(i) => Some(legs[i]),
        None => None,
    }
}

proof fn lemma_held_is_first(legs: Seq<PositionLeg>, name: Seq<char>, i: int)
    requires
        distinct(legs),
        0 <= i < legs.len(),
        key_of(legs[i]) == name,
    ensures
        held(legs, name) == Some(legs[i]),
{
    lemma_leg_at(legs, name);
    let k = leg_at(legs, name)->0;
    if k < i {
        assert(key_of(legs[k]) != key_of(legs[i]));
    } else if i < k {
        assert(key_of(legs[i]) != name);
    }
}

/// A leg that is put in is what its name then stands for; what every other name
/// stands for is unchanged, and no two legs have one name.
pub proof fn lemma_put_touches_only_its_leg(legs: Seq<PositionLeg>, leg: PositionLeg, name: Seq<char>)
    requires
        distinct(legs),
    ensures
        distinct(put(legs, leg)),
        held(put(legs, leg), key_of(leg)) == Some(leg),
        name != key_of(leg) ==> held(put(legs, leg), name) == held(legs, name),
{
    let own = key_of(leg);
    let new = put(legs, leg);
    lemma_leg_at(legs, own);
    let at = match leg_at(legs, own) {
        Some(i) => i,
        None => legs.len() as int,
    };
    assert(new[at] == leg);
    assert forall|i: int, j: int| 0 <= i < j < new.len() implies key_of(#[trigger] new[i]) != key_of(
        #[trigger] new[j],
    ) by {
        if i != at && j != at {
            assert(new[i] == legs[i] && new[j] == legs[j]);
        } else if i == at {
            assert(new[j] == legs[j]);
            assert(key_of(legs[at]) == own);
            assert(key_of(legs[i]) != key_of(legs[j]));
        } else {
            assert(new[i] == legs[i]);
            if leg_at(legs, own) is Some {
                assert(key_of(legs[i]) != key_of(legs[j]));
            }
        }
    }
    lemma_held_is_first(new, own, at);
    if name != own {
        lemma_leg_at(legs, name);
        lemma_leg_at(new, name);
        match leg_at(legs, name) {
            Some(k) => {
                assert(new[k] == legs[k]);
                lemma_held_is_first(new, name, k);
            },
            None => {
                if leg_at(new, name) is Some {
                    let k = leg_at(new, name)->0;
                    assert(new[k] == legs[k]);
                }
            },
        }
    }
}

/// Removing a leg leaves nothing under its name, and what every other name
/// stands for is unchanged.
pub proof fn lemma_without_touches_only_its_leg(legs: Seq<PositionLeg>, gone: Seq<char>, name: Seq<char>)
    requires
        distinct(legs),
    ensures
        distinct(without(legs, gone)),
        held(without(legs, gone), gone) is None,
        name != gone ==> held(without(legs, gone), name) == held(legs, name),
{
    let new = without(legs, gone);
    lemma_leg_at(legs, gone);
    if leg_at(legs, gone) is Some {
        let at = leg_at(legs, gone)->0;
        assert forall|i: int, j: int| 0 <= i < j < new.len() implies key_of(#[trigger] new[i]) != key_of(
            #[trigger] new[j],
        ) by {
            let a = if i < at {
                i
            } else {
                i + 1
            };
            let b = if j < at {
                j
            } else {
                j + 1
            };
            assert(new[i] == legs[a] && new[j] == legs[b]);
        }
        lemma_leg_at(new, gone);
        if leg_at(new, gone) is Some {
            let k = leg_at(new, gone)->0;
            let a = if k < at {
                k
            } else {
                k + 1
            };
            assert(new[k] == legs[a]);
            if a < at {
                assert(key_of(legs[a]) != key_of(legs[at]));
            } else {
                assert(key_of(legs[at]) != key_of(legs[a]));
            }
        }
        if name != gone {
            lemma_leg_at(legs, name);
            lemma_leg_at(new, name);
            match leg_at(legs, name) {
                Some(k) => {
                    let b = if k < at {
                        k
                    } else {
                        k - 1
                    };
                    assert(new[b] == legs[k]);
                    lemma_held_is_first(new, name, b);
                },
                None => {
                    if leg_at(new, name) is Some {
                        let k = leg_at(new, name)->0;
                        let a = if k < at {
                            k
                        } else {
                            k + 1
                        };
                        assert(new[k] == legs[a]);
                    }
                },
            }
        }
    }
}

/// The legs of a list by their names: of several with one name the last counts.
pub open spec fn keyed(positions: Seq<PositionLeg>) -> Seq<PositionLeg>
    decreases positions.len(),
{
    if positions.len() == 0 {
        Seq::empty()
    } else {
        put(keyed(positions.drop_last()), positions.last())
    }
}

/// The legs of a list by their names.
pub fn position_map(positions: Vec<PositionLeg>) -> (legs: Vec<PositionLeg>)
    ensures
        legs@ == keyed(positions@),
        distinct(legs@),
{
    let mut legs: Vec<PositionLeg> = Vec::new();
    let mut i: usize = 0;
    proof {
        assert(positions@.take(0) =~= Seq::<PositionLeg>::empty());
    }
    while i < positions.len()
        invariant
            i <= positions@.len(),
            legs@ == keyed(positions@.take(i as int)),
            distinct(legs@),
        decreases positions@.len() - i,
    {
        proof {
            assert(positions@.take(i as int + 1).drop_last() =~= positions@.take(i as int));
            lemma_put_touches_only_its_leg(legs@, positions@[i as int], key_of(positions@[i as int]));
        }
        put_leg(&mut legs, positions[i].clone());
        i = i + 1;
    }
    proof {
        assert(positions@.take(positions@.len() as int) =~= positions@);
    }
    legs
}

/// A list in which no two legs have one name is kept as it is.
pub proof fn lemma_seed_reads_back(positions: Seq<PositionLeg>)
    requires
        distinct(positions),
    ensures
        keyed(positions) == positions,
    decreases positions.len(),
{
    if positions.len() > 0 {
        let front = positions.drop_last();
        assert forall|i: int, j: int| 0 <= i < j < front.len() implies key_of(#[trigger] front[i]) != key_of(
            #[trigger] front[j],
        ) by {
            assert(front[i] == positions[i] && front[j] == positions[j]);
        }
        lemma_seed_reads_back(front);
        lemma_leg_at(front, key_of(positions.last()));
        if leg_at(front, key_of(positions.last())) is Some {
            let k = leg_at(front, key_of(positions.last()))->0;
            assert(front[k] == positions[k]);
            assert(key_of(positions[k]) != key_of(positions[positions.len() - 1]));
        }
        assert(front.push(positions.last()) =~= positions);
    } else {
        assert(positions =~= Seq::<PositionLeg>::empty());
    }
}

/// What is known of the account on one exchange.
pub struct ExchangeAccount {
    pub connected: bool,
    pub initialized: bool,
    pub balance: AccountBalance,
    pub positions: Vec<PositionLeg>,
}

/// The gains and losses of legs that are not settled.
pub open spec fn pnls(legs: Seq<PositionLeg>) -> Seq<Double> {
    Seq::new(legs.len(), |i: int| legs[i].unrealized_pnl)
}

/// What the legs of a list have gained that is not settled.
pub fn unrealized(legs: &Vec<PositionLeg>) -> (r: Double)
    ensures
        r == total(pnls(legs@)),
{
    let mut values: Vec<Double> = Vec::new();
    let mut i: usize = 0;
    while i < legs.len()
        invariant
            i <= legs@.len(),
            values@.len() == i,
            forall|k: int| 0 <= k < i ==> #[trigger] values@[k] == legs@[k].unrealized_pnl,
        decreases legs@.len() - i,
    {
        values.push(legs[i].unrealized_pnl);
        i = i + 1;
    }
    proof {
        assert(values@ =~= pnls(legs@));
    }
    sum(&values)
}

/// The margin that a leg ties up.
pub open spec fn initial_margin(leg: PositionLeg) -> Double {
    leg.quantity.mul_spec(leg.entry_price).div_spec(
        of_int(
            if leg.leverage == 0 {
                1
            } else {
                leg.leverage as int
            },
        ),
    )
}

/// The margins that the perpetual legs tie up.
pub open spec fn margins(legs: Seq<PositionLeg>) -> Seq<Double>
    decreases legs.len(),
{
    if legs.len() == 0 {
        Seq::empty()
    } else {
        let before = margins(legs.drop_last());
        if legs.last().market@ == "perpetual"@ {
            before.push(initial_margin(legs.last()))
        } else {
            before
        }
    }
}

fn tied_margin(legs: &Vec<PositionLeg>) -> (r: Double)
    ensures
        r == total(margins(legs@)),
{
    let mut values: Vec<Double> = Vec::new();
    let mut i: usize = 0;
    proof {
        assert(legs@.take(0) =~= Seq::<PositionLeg>::empty());
    }
    while i < legs.len()
        invariant
            i <= legs@.len(),
            values@ == margins(legs@.take(i as int)),
        decreases legs@.len() - i,
    {
        proof {
            assert(legs@.take(i as int + 1).drop_last() =~= legs@.take(i as int));
        }
        let leg = &legs[i];
        if same(leg.market.as_str(), "perpetual") {
            let leverage: i64 = if leg.leverage == 0 {
                1
            } else {
                leg.leverage as i64
            };
            values.push(leg.quantity.mul(leg.entry_price).div(Double::from_int(leverage)));
        }
        i = i + 1;
    }
    proof {
        assert(legs@.take(legs@.len() as int) =~= legs@);
    }
    sum(&values)
}

/// The place of a remembered leverage.
pub open spec fn hint_at(hints: Seq<(String, u8)>, name: Seq<char>) -> Option<int>
    decreases hints.len(),
{
    if hints.len() == 0 {
        None
    } else if hints[0].0@ == name {
        Some(0)
    } else {
        match hint_at(hints.drop_first(), name) {
            Some(i) => Some(i + 1),
            None => None,
        }
    }
}

fn find_hint(hints: &Vec<(String, u8)>, name: &str) -> (r: Option<usize>)
    ensures
        match r {
            Some(i) => i < hints@.len() && hint_at(hints@, name@) == Some(i as int),
            None => hint_at(hints@, name@) is None,
        },
{
    let mut i: usize = 0;
    proof {
        assert(hints@.skip(0) =~= hints@);
    }
    while i < hints.len()
        invariant
            i <= hints@.len(),
            hint_at(hints@, name@) == match hint_at(hints@.skip(i as int), name@) {
                Some(j) => Some(j + i),
                None => None,
            },
        decreases hints@.len() - i,
    {
        proof {
            assert(hints@.skip(i as int)[0] == hints@[i as int]);
            assert(hints@.skip(i as int).drop_first() =~= hints@.skip(i as int + 1));
        }
        if same(hints[i].0.as_str(), name) {
            return Some(i);
        }
        i = i + 1;
    }
    None
}

/// The leverage that is remembered under a name.
pub open spec fn hinted(hints: Seq<(String, u8)>, name: Seq<char>) -> Option<u8> {
    match hint_at(hints, name) {
        Some(i) => Some(hints[i].1),
        None => None,
    }
}

/// Whether a list of remembered leverages is another one with one set.
pub open spec fn hint_set(new: Seq<(String, u8)>, old: Seq<(String, u8)>, name: Seq<char>, leverage: u8) -> bool {
    match hint_at(old, name) {
        Some(i) => {
            &&& new.len() == old.len()
            &&& new[i].0@ == name
            &&& new[i].1 == leverage
            &&& forall|j: int| 0 <= j < old.len() && j != i ==> #[trigger] new[j] == old[j]
        },
        None => {
            &&& new.len() == old.len() + 1
            &&& new.drop_last() == old
            &&& new.last().0@ == name
            &&& new.last().1 == leverage
        },
    }
}

fn set_hint(hints: &mut Vec<(String, u8)>, name: String, leverage: u8)
    ensures
        hint_set(final(hints)@, old(hints)@, name@, leverage),
{
    let ghost before = hints@;
    match find_hint(hints, name.as_str()) {
        Some(i) => {
            hints.set(i, (name, leverage));
        },
        None => {
            hints.push((name, leverage));
            proof {
                assert(hints@.drop_last() =~= before);
            }
        },
    }
}

/// Whether a list of remembered leverages is another one with those of legs
/// set, one after the other.
pub open spec fn hints_set(
    new: Seq<(String, u8)>,
    old: Seq<(String, u8)>,
    exchange: Seq<char>,
    legs: Seq<PositionLeg>,
) -> bool
    decreases legs.len(),
{
    if legs.len() == 0 {
        new == old
    } else {
        exists|mid: Seq<(String, u8)>|
            hints_set(mid, old, exchange, legs.drop_last()) && #[trigger] hint_set(
                new,
                mid,
                exchange + ":"@ + legs.last().symbol@,
                legs.last().leverage,
            )
    }
}

/// Whether an order can change no more.
pub open spec fn terminal(status: Seq<char>) -> bool {
    ||| status == "FILLED"@
    ||| status == "CANCELED"@
    ||| status == "EXPIRED"@
    ||| status == "REJECTED"@
    ||| status == "Filled"@
    ||| status == "Cancelled"@
    ||| status == "Rejected"@
    ||| status == "Deactivated"@
}

/// Whether an order can change no more.
pub fn is_terminal_order_status(status: &str) -> (b: bool)
    ensures
        b == terminal(status@),
{
    same(status, "FILLED") || same(status, "CANCELED") || same(status, "EXPIRED") || same(
        status,
        "REJECTED",
    ) || same(status, "Filled") || same(status, "Cancelled") || same(status, "Rejected") || same(
        status,
        "Deactivated",
    )
}

/// Whether an order is the one that Binance reports.
pub open spec fn is_binance_order(order: OrderExecution, value: Json) -> bool {
    let o = value.member("o"@);
    &&& order.exchange@ == "Binance"@
    &&& o.member("c"@).is_text(order.client_order_id@)
    &&& order.order_id@ == rendered(o.member("i"@))
    &&& o.member("X"@).is_text(order.status@)
    &&& order.executed_quantity == amount_or(o.member("z"@), ZERO)
    &&& order.average_price == amount_or(o.member("ap"@), ZERO)
}

/// The order that Binance reports, if its report names one.
pub fn binance_order_update(value: &Json) -> (r: Option<OrderExecution>)
    ensures
        match r {
            Some(order) => is_binance_order(order, *value),
            None => value.member("o"@).member("c"@).string() is None || value.member("o"@).member(
                "X"@,
            ).string() is None,
        },
{
    let order = value.get("o");
    let client_order_id = match order.get("c").as_str() {
        Some(s) => s.to_owned(),
        None => return None,
    };
    let status = match order.get("X").as_str() {
        Some(s) => s.to_owned(),
        None => return None,
    };
    Some(
        OrderExecution {
            exchange: "Binance".to_owned(),
            client_order_id,
            order_id: render(order.get("i")),
            status,
            executed_quantity: number_or(order.get("z"), Double { bits: ZERO }),
            average_price: number_or(order.get("ap"), Double { bits: ZERO }),
        },
    )
}

/// The status that Bybit reports for an order.
pub open spec fn bybit_status(value: Json) -> Seq<char> {
    match value.member("orderStatus"@).string() {
        Some(s) => s,
        None => match value.member("execType"@).string() {
            Some(s) => s,
            None => "Unknown"@,
        },
    }
}

/// Whether an order is the one that Bybit reports.
pub open spec fn is_bybit_order(order: OrderExecution, value: Json) -> bool {
    &&& order.exchange@ == "Bybit"@
    &&& value.member("orderLinkId"@).is_text(order.client_order_id@)
    &&& order.order_id@ == (match value.member("orderId"@).string() {
        Some(s) => s,
        None => ""@,
    })
    &&& order.status@ == bybit_status(value)
    &&& order.executed_quantity == either_amount(value.member("cumExecQty"@), value.member("execQty"@))
    &&& order.average_price == either_amount(value.member("avgPrice"@), value.member("execPrice"@))
}

/// The order that Bybit reports, if its report names one.
pub fn bybit_order_update(value: &Json) -> (r: Option<OrderExecution>)
    ensures
        match r {
            Some(order) => is_bybit_order(order, *value),
            None => value.member("orderLinkId"@).string() is None,
        },
{
    let client_order_id = match value.get("orderLinkId").as_str() {
        Some(s) => s.to_owned(),
        None => return None,
    };
    let status = match value.get("orderStatus").as_str() {
        Some(s) => s.to_owned(),
        None => match value.get("execType").as_str() {
            Some(s) => s.to_owned(),
            None => "Unknown".to_owned(),
        },
    };
    let order_id = match value.get("orderId").as_str() {
        Some(s) => s.to_owned(),
        None => "".to_owned(),
    };
    Some(
        OrderExecution {
            exchange: "Bybit".to_owned(),
            client_order_id,
            order_id,
            status,
            executed_quantity: either_number(value.get("cumExecQty"), value.get("execQty")),
            average_price: either_number(value.get("avgPrice"), value.get("execPrice")),
        },
    )
}

/// The place of an order.
pub open spec fn order_at(orders: Seq<OrderExecution>, client_order_id: Seq<char>) -> Option<int>
    decreases orders.len(),
{
    if orders.len() == 0 {
        None
    } else if orders[0].client_order_id@ == client_order_id {
        Some(0)
    } else {
        match order_at(orders.drop_first(), client_order_id) {
            Some(i) => Some(i + 1),
            None => None,
        }
    }
}

fn find_order(orders: &Vec<OrderExecution>, client_order_id: &str) -> (r: Option<usize>)
    ensures
        match r {
            Some(i) => i < orders@.len() && order_at(orders@, client_order_id@) == Some(i as int),
            None => order_at(orders@, client_order_id@) is None,
        },
{
    let mut i: usize = 0;
    proof {
        assert(orders@.skip(0) =~= orders@);
    }
    while i < orders.len()
        invariant
            i <= orders@.len(),
            order_at(orders@, client_order_id@) == match order_at(
                orders@.skip(i as int),
                client_order_id@,
            ) {
                Some(j) => Some(j + i),
                None => None,
            },
        decreases orders@.len() - i,
    {
        proof {
            assert(orders@.skip(i as int)[0] == orders@[i as int]);
            assert(orders@.skip(i as int).drop_first() =~= orders@.skip(i as int + 1));
        }
        if same(orders[i].client_order_id.as_str(), client_order_id) {
            return Some(i);
        }
        i = i + 1;
    }
    None
}

/// The orders with one recorded: in the place of the one with its identifier,
/// or at the end.
pub open spec fn recorded(orders: Seq<OrderExecution>, order: OrderExecution) -> Seq<OrderExecution> {
    match order_at(orders, order.client_order_id@) {
        Some(i) => orders.update(i, order),
        None => orders.push(order),
    }
}

/// The order that is waited for, once it can change no more.
pub open spec fn settled(orders: Seq<OrderExecution>, client_order_id: Seq<char>) -> Option<OrderExecution> {
    match order_at(orders, client_order_id) {
        Some(i) => if terminal(orders[i].status@) {
            Some(orders[i])
        } else {
            None
        },
        None => None,
    }
}

/// An order that was recorded is found again under its identifier as soon as
/// it can change no more.
pub proof fn lemma_recorded_order_is_found(orders: Seq<OrderExecution>, order: OrderExecution)
    requires
        terminal(order.status@),
    ensures
        settled(recorded(orders, order), order.client_order_id@) == Some(order),
    decreases orders.len(),
{
    let id = order.client_order_id@;
    let new = recorded(orders, order);
    if orders.len() == 0 {
        assert(orders.push(order)[0] == order);
    } else if orders[0].client_order_id@ == id {
        assert(new[0] == order);
    } else {
        let rest = orders.drop_first();
        lemma_order_at_in_range(rest, id);
        lemma_recorded_order_is_found(rest, order);
        let inner = recorded(rest, order);
        assert(new.drop_first() =~= inner);
        assert(new[0] == orders[0]);
        let i = order_at(inner, id)->0;
        lemma_order_at_in_range(inner, id);
        assert(new[i + 1] == inner[i]);
    }
}

proof fn lemma_order_at_in_range(orders: Seq<OrderExecution>, id: Seq<char>)
    ensures
        order_at(orders, id) matches Some(i) ==> 0 <= i < orders.len(),
    decreases orders.len(),
{
    if orders.len() > 0 {
        lemma_order_at_in_range(orders.drop_first(), id);
    }
}

/// The side of a leg that Binance reports.
pub open spec fn binance_side(item: Json) -> Seq<char> {
    let declared = match item.member("ps"@).string() {
        Some(s) => s,
        None => "BOTH"@,
    };
    if declared == "LONG"@ || (declared == "BOTH"@ && (Double { bits: ZERO }).lt_spec(
        amount_or(item.member("pa"@), ZERO),
    )) {
        "long"@
    } else {
        "short"@
    }
}

/// The leverage of a leg that Binance reports: that of the leg that is held, or
/// the one that is remembered for the symbol, or one.
pub open spec fn binance_leverage(legs: Seq<PositionLeg>, hints: Seq<(String, u8)>, symbol: Seq<char>, side: Seq<char>) -> u8 {
    match held(legs, key(symbol, side, "perpetual"@)) {
        Some(leg) => leg.leverage,
        None => match hinted(hints, "Binance"@ + ":"@ + symbol) {
            Some(leverage) => leverage,
            None => 1,
        },
    }
}

/// Whether a leg is the one that Binance reports.
pub open spec fn is_binance_leg(leg: PositionLeg, item: Json, leverage: u8) -> bool {
    let zero = Double { bits: ZERO };
    &&& leg.exchange@ == "Binance"@
    &&& leg.market@ == "perpetual"@
    &&& item.member("s"@).is_text(leg.symbol@)
    &&& leg.side@ == binance_side(item)
    &&& leg.quantity == amount_or(item.member("pa"@), ZERO).abs_spec()
    &&& leg.entry_price == amount_or(item.member("ep"@), ZERO)
    &&& leg.mark_price == zero
    &&& leg.unrealized_pnl == amount_or(item.member("up"@), ZERO)
    &&& leg.funding_earned == zero
    &&& leg.funding_rate == zero
    &&& leg.leverage == leverage
}

/// Whether legs are others after one of them was reported by Binance.
pub open spec fn binance_change(
    new: Seq<PositionLeg>,
    old: Seq<PositionLeg>,
    item: Json,
    hints: Seq<(String, u8)>,
) -> bool {
    match item.member("s"@).string() {
        None => new == old,
        Some(symbol) => {
            let side = binance_side(item);
            if amount_or(item.member("pa"@), ZERO).abs_spec().le_spec(Double { bits: EPSILON }) {
                new == without(old, key(symbol, side, "perpetual"@))
            } else {
                exists|leg: PositionLeg|
                    is_binance_leg(leg, item, binance_leverage(old, hints, symbol, side)) && new
                        == #[trigger] put(old, leg)
            }
        },
    }
}

/// Whether legs are others after reports of Binance, one after the other.
pub open spec fn binance_changes(
    new: Seq<PositionLeg>,
    old: Seq<PositionLeg>,
    items: Seq<Json>,
    hints: Seq<(String, u8)>,
) -> bool
    decreases items.len(),
{
    if items.len() == 0 {
        new == old
    } else {
        exists|mid: Seq<PositionLeg>|
            binance_changes(mid, old, items.drop_last(), hints) && #[trigger] binance_change(
                new,
                mid,
                items.last(),
                hints,
            )
    }
}

fn apply_binance_leg(legs: &mut Vec<PositionLeg>, item: &Json, hints: &Vec<(String, u8)>)
    requires
        distinct(old(legs)@),
    ensures
        distinct(final(legs)@),
        binance_change(final(legs)@, old(legs)@, *item, hints@),
{
    let symbol = match item.get("s").as_str() {
        Some(s) => s,
        None => return,
    };
    let amount = number_or(item.get("pa"), Double { bits: ZERO });
    let declared = match item.get("ps").as_str() {
        Some(s) => s.to_owned(),
        None => "BOTH".to_owned(),
    };
    let side = if same(declared.as_str(), "LONG") || (same(declared.as_str(), "BOTH") && amount.gt(
        Double { bits: ZERO },
    )) {
        "long"
    } else {
        "short"
    };
    let name = position_key(symbol, side, "perpetual");
    if amount.abs().le(Double { bits: EPSILON }) {
        proof {
            lemma_without_touches_only_its_leg(legs@, name@, name@);
        }
        drop_leg(legs, name.as_str());
        return;
    }
    let leverage: u8 = match find_leg(legs, name.as_str()) {
        Some(i) => legs[i].leverage,
        None => match find_hint(hints, join(join("Binance", ":").as_str(), symbol).as_str()) {
            Some(i) => hints[i].1,
            None => 1,
        },
    };
    let leg = PositionLeg {
        exchange: "Binance".to_owned(),
        market: "perpetual".to_owned(),
        symbol: symbol.to_owned(),
        side: side.to_owned(),
        quantity: amount.abs(),
        entry_price: number_or(item.get("ep"), Double { bits: ZERO }),
        mark_price: Double { bits: ZERO },
        unrealized_pnl: number_or(item.get("up"), Double { bits: ZERO }),
        funding_earned: Double { bits: ZERO },
        funding_rate: Double { bits: ZERO },
        leverage,
    };
    let ghost given = leg;
    let ghost before = legs@;
    proof {
        lemma_put_touches_only_its_leg(legs@, leg, name@);
        assert(is_binance_leg(given, *item, leverage));
    }
    put_leg(legs, leg);
    proof {
        assert(legs@ == put(before, given));
    }
}

/// Whether a leg is the one that Bybit reports.
pub open spec fn is_bybit_leg(leg: PositionLeg, item: Json) -> bool {
    let zero = Double { bits: ZERO };
    &&& leg.exchange@ == "Bybit"@
    &&& leg.market@ == "perpetual"@
    &&& item.member("symbol"@).is_text(leg.symbol@)
    &&& leg.side@ == bybit_side(item)
    &&& leg.quantity == amount_or(item.member("size"@), ZERO)
    &&& leg.entry_price == either_amount(item.member("entryPrice"@), item.member("avgPrice"@))
    &&& leg.mark_price == amount_or(item.member("markPrice"@), ZERO)
    &&& leg.unrealized_pnl == amount_or(item.member("unrealisedPnl"@), ZERO)
    &&& leg.funding_earned == zero
    &&& leg.funding_rate == zero
    &&& leg.leverage == amount_or(item.member("leverage"@), ONE).saturated(255)
}

/// The side of a leg that Bybit reports.
pub open spec fn bybit_side(item: Json) -> Seq<char> {
    if item.member("side"@).is_text("Buy"@) {
        "long"@
    } else {
        "short"@
    }
}

/// Whether legs are others after one of them was reported by Bybit.
pub open spec fn bybit_change(new: Seq<PositionLeg>, old: Seq<PositionLeg>, item: Json) -> bool {
    match item.member("symbol"@).string() {
        Some(symbol) if item.member("category"@).is_text("linear"@) => {
            if amount_or(item.member("size"@), ZERO).le_spec(Double { bits: EPSILON }) {
                new == without(old, key(symbol, bybit_side(item), "perpetual"@))
            } else {
                exists|leg: PositionLeg| is_bybit_leg(leg, item) && new == #[trigger] put(old, leg)
            }
        },
        _ => new == old,
    }
}

/// Whether legs are others after reports of Bybit, one after the other.
pub open spec fn bybit_changes(new: Seq<PositionLeg>, old: Seq<PositionLeg>, items: Seq<Json>) -> bool
    decreases items.len(),
{
    if items.len() == 0 {
        new == old
    } else {
        exists|mid: Seq<PositionLeg>|
            bybit_changes(mid, old, items.drop_last()) && #[trigger] bybit_change(new, mid, items.last())
    }
}

fn apply_bybit_leg(legs: &mut Vec<PositionLeg>, item: &Json)
    requires
        distinct(old(legs)@),
    ensures
        distinct(final(legs)@),
        bybit_change(final(legs)@, old(legs)@, *item),
{
    if !item.get("category").equals_text("linear") {
        return;
    }
    let symbol = match item.get("symbol").as_str() {
        Some(s) => s,
        None => return,
    };
    let side = if item.get("side").equals_text("Buy") {
        "long"
    } else {
        "short"
    };
    let name = position_key(symbol, side, "perpetual");
    let quantity = number_or(item.get("size"), Double { bits: ZERO });
    if quantity.le(Double { bits: EPSILON }) {
        proof {
            lemma_without_touches_only_its_leg(legs@, name@, name@);
        }
        drop_leg(legs, name.as_str());
        return;
    }
    let leg = PositionLeg {
        exchange: "Bybit".to_owned(),
        market: "perpetual".to_owned(),
        symbol: symbol.to_owned(),
        side: side.to_owned(),
        quantity,
        entry_price: either_number(item.get("entryPrice"), item.get("avgPrice")),
        mark_price: number_or(item.get("markPrice"), Double { bits: ZERO }),
        unrealized_pnl: number_or(item.get("unrealisedPnl"), Double { bits: ZERO }),
        funding_earned: Double { bits: ZERO },
        funding_rate: Double { bits: ZERO },
        leverage: number_or(item.get("leverage"), Double { bits: ONE }).to_unsigned(255) as u8,
    };
    let ghost given = leg;
    let ghost before = legs@;
    proof {
        lemma_put_touches_only_its_leg(legs@, leg, name@);
        assert(is_bybit_leg(given, *item));
    }
    put_leg(legs, leg);
    proof {
        assert(legs@ == put(before, given));
    }
}

/// The first of the balances that is kept in USDT.
pub open spec fn usdt_entry(items: Seq<Json>) -> Option<Json>
    decreases items.len(),
{
    if items.len() == 0 {
        None
    } else if items[0].member("a"@).is_text("USDT"@) {
        Some(items[0])
    } else {
        usdt_entry(items.drop_first())
    }
}

fn find_usdt(items: &Vec<Json>) -> (r: Option<&Json>)
    ensures
        match r {
            Some(item) => usdt_entry(items@) == Some(*item),
            None => usdt_entry(items@) is None,
        },
{
    let mut i: usize = 0;
    proof {
        assert(items@.skip(0) =~= items@);
    }
    while i < items.len()
        invariant
            i <= items@.len(),
            usdt_entry(items@) == usdt_entry(items@.skip(i as int)),
        decreases items@.len() - i,
    {
        proof {
            assert(items@.skip(i as int)[0] == items@[i as int]);
            assert(items@.skip(i as int).drop_first() =~= items@.skip(i as int + 1));
        }
        if items[i].get("a").equals_text("USDT") {
            return Some(&items[i]);
        }
        i = i + 1;
    }
    None
}

/// Who has to be told that something has changed.
#[derive(Clone, Copy, Debug, PartialEq, Eq, Structural)]
pub enum Wake {
    Nobody,
    Positions,
    Orders,
}

/// What is known of both accounts.
pub struct AccountStore {
    pub binance: ExchangeAccount,
    pub bybit: ExchangeAccount,
    pub binance_margin: Option<Vec<PositionLeg>>,
    pub leverage_hints: Vec<(String, u8)>,
    pub orders: Vec<OrderExecution>,
}

/// What is known of an account at first: nothing.
pub open spec fn is_blank(account: ExchangeAccount) -> bool {
    let zero = Double { bits: ZERO };
    &&& !account.connected
    &&& !account.initialized
    &&& account.balance == (AccountBalance { equity: zero, available: zero, unrealized_pnl: zero })
    &&& account.positions@ == Seq::<PositionLeg>::empty()
}

fn blank() -> (account: ExchangeAccount)
    ensures
        is_blank(account),
{
    let zero = Double { bits: ZERO };
    ExchangeAccount {
        connected: false,
        initialized: false,
        balance: AccountBalance { equity: zero, available: zero, unrealized_pnl: zero },
        positions: Vec::new(),
    }
}

/// Whether an account is another one with a snapshot taken over.
pub open spec fn seeded(
    new: ExchangeAccount,
    old: ExchangeAccount,
    balance: AccountBalance,
    positions: Seq<PositionLeg>,
) -> bool {
    &&& new == (ExchangeAccount { balance, positions: new.positions, initialized: true, ..old })
    &&& new.positions@ == keyed(positions)
}

/// Whether the balance of Binance is another one after a report.
pub open spec fn binance_balance(old: AccountBalance, account: Json, legs: Seq<PositionLeg>) -> AccountBalance {
    let entry = usdt_entry(account.member("B"@).elements());
    let equity = match entry {
        Some(item) => match item.member("wb"@).amount() {
            Some(x) => x,
            None => old.equity,
        },
        None => old.equity,
    };
    let wallet = match entry {
        Some(item) => item.member("cw"@).amount(),
        None => None,
    };
    AccountBalance {
        equity,
        unrealized_pnl: total(pnls(legs)),
        available: match wallet {
            Some(x) => x.sub_spec(total(margins(legs))).max_spec(Double { bits: ZERO }),
            None => old.available,
        },
    }
}

/// Whether an account is another one after a report of Binance.
pub open spec fn binance_updated(
    new: ExchangeAccount,
    old: ExchangeAccount,
    account: Json,
    hints: Seq<(String, u8)>,
) -> bool {
    let items = account.member("P"@).elements();
    &&& binance_changes(new.positions@, old.positions@, items, hints)
    &&& new == (ExchangeAccount {
        balance: binance_balance(old.balance, account, new.positions@),
        positions: new.positions,
        initialized: true,
        ..old
    })
}

/// The balance of Bybit after a report.
pub open spec fn bybit_balance(old: AccountBalance, account: Json) -> AccountBalance {
    AccountBalance {
        equity: match account.member("totalEquity"@).amount() {
            Some(x) => x,
            None => old.equity,
        },
        available: match account.member("totalAvailableBalance"@).amount() {
            Some(x) => x,
            None => old.available,
        },
        unrealized_pnl: match account.member("totalPerpUPL"@).amount() {
            Some(x) => x,
            None => old.unrealized_pnl,
        },
    }
}

/// Whether an account is another one after a report of Bybit's legs.
pub open spec fn bybit_updated(new: ExchangeAccount, old: ExchangeAccount, items: Seq<Json>) -> bool {
    &&& bybit_changes(new.positions@, old.positions@, items)
    &&& new == (ExchangeAccount {
        balance: AccountBalance { unrealized_pnl: total(pnls(new.positions@)), ..old.balance },
        positions: new.positions,
        initialized: true,
        ..old
    })
}

/// Whether orders are others after the first `n` reports of Bybit.
pub open spec fn bybit_recorded(new: Seq<OrderExecution>, old: Seq<OrderExecution>, items: Seq<Json>, n: nat) -> bool
    decreases n,
{
    if n == 0 {
        new == old
    } else if items[n - 1].member("orderLinkId"@).string() is None {
        bybit_recorded(new, old, items, (n - 1) as nat)
    } else {
        exists|mid: Seq<OrderExecution>, order: OrderExecution|
            bybit_recorded(mid, old, items, (n - 1) as nat) && is_bybit_order(order, items[n - 1]) && new
                == #[trigger] recorded(mid, order)
    }
}

/// Whether one of some reports of Bybit is of an order of this desk.
pub open spec fn reports_order(items: Seq<Json>) -> bool {
    exists|i: int| 0 <= i < items.len() && (#[trigger] items[i]).member("orderLinkId"@).string() is Some
}

impl AccountStore {
    /// Whether no two legs of an account have one name.
    pub open spec fn wf(self) -> bool {
        distinct(self.binance.positions@) && distinct(self.bybit.positions@)
    }

    pub fn new() -> (store: AccountStore)
        ensures
            store.wf(),
            is_blank(store.binance),
            is_blank(store.bybit),
            store.binance_margin is None,
            store.leverage_hints@ == Seq::<(String, u8)>::empty(),
            store.orders@ == Seq::<OrderExecution>::empty(),
    {
        AccountStore {
            binance: blank(),
            bybit: blank(),
            binance_margin: None,
            leverage_hints: Vec::new(),
            orders: Vec::new(),
        }
    }

    /// The account on an exchange.
    pub open spec fn account(self, exchange: Seq<char>) -> ExchangeAccount {
        if exchange == "Binance"@ {
            self.binance
        } else {
            self.bybit
        }
    }

    /// Takes over a snapshot of Binance, and remembers its leverages.
    pub fn seed_binance(&mut self, balance: AccountBalance, positions: Vec<PositionLeg>)
        requires
            old(self).wf(),
        ensures
            final(self).wf(),
            *final(self) == (AccountStore {
                binance: final(self).binance,
                leverage_hints: final(self).leverage_hints,
                ..*old(self)
            }),
            seeded(final(self).binance, old(self).binance, balance, positions@),
            hints_set(
                final(self).leverage_hints@,
                old(self).leverage_hints@,
                "Binance"@,
                positions@,
            ),
    {
        let ghost at_first = self.leverage_hints@;
        let mut i: usize = 0;
        proof {
            assert(positions@.take(0) =~= Seq::<PositionLeg>::empty());
        }
        while i < positions.len()
            invariant
                i <= positions@.len(),
                *self == (AccountStore { leverage_hints: self.leverage_hints, ..*old(self) }),
                hints_set(self.leverage_hints@, at_first, "Binance"@, positions@.take(i as int)),
            decreases positions@.len() - i,
        {
            let ghost before = self.leverage_hints@;
            let name = join(join("Binance", ":").as_str(), positions[i].symbol.as_str());
            set_hint(&mut self.leverage_hints, name, positions[i].leverage);
            proof {
                let next = positions@.take(i as int + 1);
                assert(next.drop_last() =~= positions@.take(i as int));
                assert(next.last() == positions@[i as int]);
                assert(hint_set(
                    self.leverage_hints@,
                    before,
                    "Binance"@ + ":"@ + next.last().symbol@,
                    next.last().leverage,
                ));
            }
            i = i + 1;
        }
        proof {
            assert(positions@.take(positions@.len() as int) =~= positions@);
        }
        self.binance.balance = balance;
        self.binance.positions = position_map(positions);
        self.binance.initialized = true;
    }

    /// Takes over a snapshot of Bybit.
    pub fn seed_bybit(&mut self, balance: AccountBalance, positions: Vec<PositionLeg>)
        requires
            old(self).wf(),
        ensures
            final(self).wf(),
            *final(self) == (AccountStore { bybit: final(self).bybit, ..*old(self) }),
            seeded(final(self).bybit, old(self).bybit, balance, positions@),
    {
        self.bybit.balance = balance;
        self.bybit.positions = position_map(positions);
        self.bybit.initialized = true;
    }

    /// Takes over the legs that are borrowed on Binance.
    pub fn seed_binance_margin(&mut self, positions: Vec<PositionLeg>)
        ensures
            *final(self) == (AccountStore { binance_margin: Some(positions), ..*old(self) }),
    {
        self.binance_margin = Some(positions);
    }

    /// The legs that are borrowed on Binance, if they are known.
    pub fn binance_margin_positions(&self) -> (r: Option<Vec<PositionLeg>>)
        ensures
            r is Some == self.binance_margin is Some,
            r is Some ==> r->0@ == self.binance_margin->0@,
    {
        match &self.binance_margin {
            Some(legs) => Some(copy_legs(legs)),
            None => None,
        }
    }

    /// Forgets the legs that are borrowed on Binance.
    pub fn invalidate_binance_margin(&mut self)
        ensures
            *final(self) == (AccountStore { binance_margin: None, ..*old(self) }),
    {
        self.binance_margin = None;
    }

    /// Remembers the leverage of a symbol.
    pub fn set_leverage_hint(&mut self, exchange: &str, symbol: &str, leverage: u8)
        ensures
            *final(self) == (AccountStore { leverage_hints: final(self).leverage_hints, ..*old(self) }),
            hint_set(
                final(self).leverage_hints@,
                old(self).leverage_hints@,
                exchange@ + ":"@ + symbol@,
                leverage,
            ),
    {
        let name = join(join(exchange, ":").as_str(), symbol);
        set_hint(&mut self.leverage_hints, name, leverage);
    }

    /// Notes whether the stream of an exchange is up.
    pub fn set_connected(&mut self, exchange: &str, connected: bool)
        ensures
            if exchange@ == "Binance"@ {
                *final(self) == (AccountStore {
                    binance: ExchangeAccount { connected, ..old(self).binance },
                    ..*old(self)
                })
            } else {
                *final(self) == (AccountStore {
                    bybit: ExchangeAccount { connected, ..old(self).bybit },
                    ..*old(self)
                })
            },
    {
        if same(exchange, "Binance") {
            self.binance.connected = connected;
        } else {
            self.bybit.connected = connected;
        }
    }

    /// Whether the stream of an exchange is up.
    pub fn connected(&self, exchange: &str) -> (b: bool)
        ensures
            b == self.account(exchange@).connected,
    {
        if same(exchange, "Binance") {
            self.binance.connected
        } else {
            self.bybit.connected
        }
    }

    /// The account on an exchange, as long as its stream keeps it up to date.
    pub fn snapshot(&self, exchange: &str) -> (r: Option<(AccountBalance, Vec<PositionLeg>)>)
        ensures
            ({
                let account = self.account(exchange@);
                if account.initialized && account.connected {
                    r matches Some(s) && s.0 == account.balance && s.1@ == account.positions@
                } else {
                    r is None
                }
            }),
    {
        let account = if same(exchange, "Binance") {
            &self.binance
        } else {
            &self.bybit
        };
        if account.initialized && account.connected {
            Some((account.balance, copy_legs(&account.positions)))
        } else {
            None
        }
    }

    /// Takes in a message of the stream of Binance.
    pub fn apply_binance_event(&mut self, value: &Json) -> (wake: Wake)
        requires
            old(self).wf(),
        ensures
            final(self).wf(),
            if value.member("e"@).is_text("ACCOUNT_UPDATE"@) {
                &&& wake == Wake::Positions
                &&& *final(self) == (AccountStore { binance: final(self).binance, ..*old(self) })
                &&& binance_updated(
                    final(self).binance,
                    old(self).binance,
                    value.member("a"@),
                    old(self).leverage_hints@,
                )
            } else if value.member("e"@).is_text("ORDER_TRADE_UPDATE"@) && value.member("o"@).member(
                "c"@,
            ).string() is Some && value.member("o"@).member("X"@).string() is Some {
                &&& wake == Wake::Orders
                &&& *final(self) == (AccountStore { orders: final(self).orders, ..*old(self) })
                &&& exists|order: OrderExecution|
                    is_binance_order(order, *value) && final(self).orders@ == #[trigger] recorded(
                        old(self).orders@,
                        order,
                    )
            } else {
                wake == Wake::Nobody && *final(self) == *old(self)
            },
    {
        if value.get("e").equals_text("ACCOUNT_UPDATE") {
            self.apply_binance_account(value.get("a"));
            return Wake::Positions;
        }
        if value.get("e").equals_text("ORDER_TRADE_UPDATE") {
            if let Some(order) = binance_order_update(value) {
                self.record_order(order);
                return Wake::Orders;
            }
        }
        Wake::Nobody
    }

    fn apply_binance_account(&mut self, account: &Json)
        requires
            old(self).wf(),
        ensures
            final(self).wf(),
            *final(self) == (AccountStore { binance: final(self).binance, ..*old(self) }),
            binance_updated(
                final(self).binance,
                old(self).binance,
                *account,
                old(self).leverage_hints@,
            ),
    {
        let mut wallet: Option<Double> = None;
        let balances = account.get("B");
        if let Some(items) = balances.as_array() {
            if let Some(item) = find_usdt(items) {
                if let Some(equity) = number(item.get("wb")) {
                    self.binance.balance.equity = equity;
                }
                wallet = number(item.get("cw"));
            }
        } else {
            proof {
                assert(usdt_entry(account.member("B"@).elements()) is None);
            }
        }
        let ghost equity = self.binance.balance.equity;
        let ghost at_first = self.binance.positions@;
        let ghost items = account.member("P"@).elements();
        if let Some(list) = account.get("P").as_array() {
            let mut i: usize = 0;
            proof {
                assert(items.take(0) =~= Seq::<Json>::empty());
            }
            while i < list.len()
                invariant
                    i <= list@.len(),
                    list@ == items,
                    *self == (AccountStore {
                        binance: ExchangeAccount {
                            balance: AccountBalance { equity, ..old(self).binance.balance },
                            positions: self.binance.positions,
                            ..old(self).binance
                        },
                        ..*old(self)
                    }),
                    distinct(self.binance.positions@),
                    binance_changes(
                        self.binance.positions@,
                        at_first,
                        items.take(i as int),
                        self.leverage_hints@,
                    ),
                decreases list@.len() - i,
            {
                let ghost before = self.binance.positions@;
                apply_binance_leg(&mut self.binance.positions, &list[i], &self.leverage_hints);
                proof {
                    let next = items.take(i as int + 1);
                    assert(next.drop_last() =~= items.take(i as int));
                    assert(next.last() == items[i as int]);
                    assert(binance_change(
                        self.binance.positions@,
                        before,
                        next.last(),
                        self.leverage_hints@,
                    ));
                }
                i = i + 1;
            }
            proof {
                assert(items.take(items.len() as int) =~= items);
            }
        }
        self.binance.balance.unrealized_pnl = unrealized(&self.binance.positions);
        if let Some(cross) = wallet {
            let margin = tied_margin(&self.binance.positions);
            self.binance.balance.available = cross.sub(margin).max(Double { bits: ZERO });
        }
        self.binance.initialized = true;
    }

    /// Takes in a message of the stream of Bybit.
    pub fn apply_bybit_event(&mut self, value: &Json) -> (wake: Wake)
        requires
            old(self).wf(),
        ensures
            final(self).wf(),
            ({
                let topic = value.member("topic"@);
                let data = value.member("data"@);
                if topic.is_text("wallet"@) && data.elements().len() > 0 {
                    &&& wake == Wake::Positions
                    &&& *final(self) == (AccountStore {
                        bybit: ExchangeAccount {
                            balance: bybit_balance(old(self).bybit.balance, data.elements()[0]),
                            initialized: true,
                            ..old(self).bybit
                        },
                        ..*old(self)
                    })
                } else if topic.is_text("position"@) && data.is_list() {
                    &&& wake == Wake::Positions
                    &&& *final(self) == (AccountStore { bybit: final(self).bybit, ..*old(self) })
                    &&& bybit_updated(final(self).bybit, old(self).bybit, data.elements())
                } else if topic.is_text("order"@) && data.is_list() {
                    &&& wake == if reports_order(data.elements()) {
                        Wake::Orders
                    } else {
                        Wake::Nobody
                    }
                    &&& *final(self) == (AccountStore { orders: final(self).orders, ..*old(self) })
                    &&& bybit_recorded(
                        final(self).orders@,
                        old(self).orders@,
                        data.elements(),
                        data.elements().len(),
                    )
                } else {
                    wake == Wake::Nobody && *final(self) == *old(self)
                }
            }),
    {
        proof {
            reveal_strlit("wallet");
            reveal_strlit("position");
            reveal_strlit("order");
            assert("wallet"@.len() == 6);
            assert("position"@.len() == 8);
            assert("order"@.len() == 5);
        }
        let topic = value.get("topic");
        let data = match value.get("data").as_array() {
            Some(data) => data,
            None => return Wake::Nobody,
        };
        if topic.equals_text("wallet") {
            if data.len() == 0 {
                return Wake::Nobody;
            }
            let account = &data[0];
            let before = self.bybit.balance;
            self.bybit.balance = AccountBalance {
                equity: number_or(account.get("totalEquity"), before.equity),
                available: number_or(account.get("totalAvailableBalance"), before.available),
                unrealized_pnl: number_or(account.get("totalPerpUPL"), before.unrealized_pnl),
            };
            self.bybit.initialized = true;
            return Wake::Positions;
        }
        if topic.equals_text("position") {
            let ghost at_first = self.bybit.positions@;
            let mut i: usize = 0;
            proof {
                assert(data@.take(0) =~= Seq::<Json>::empty());
            }
            while i < data.len()
                invariant
                    i <= data@.len(),
                    *self == (AccountStore {
                        bybit: ExchangeAccount { positions: self.bybit.positions, ..old(self).bybit },
                        ..*old(self)
                    }),
                    distinct(self.bybit.positions@),
                    bybit_changes(self.bybit.positions@, at_first, data@.take(i as int)),
                decreases data@.len() - i,
            {
                let ghost before = self.bybit.positions@;
                apply_bybit_leg(&mut self.bybit.positions, &data[i]);
                proof {
                    let next = data@.take(i as int + 1);
                    assert(next.drop_last() =~= data@.take(i as int));
                    assert(next.last() == data@[i as int]);
                    assert(bybit_change(self.bybit.positions@, before, next.last()));
                }
                i = i + 1;
            }
            proof {
                assert(data@.take(data@.len() as int) =~= data@);
            }
            self.bybit.balance.unrealized_pnl = unrealized(&self.bybit.positions);
            self.bybit.initialized = true;
            return Wake::Positions;
        }
        if topic.equals_text("order") {
            let ghost at_first = self.orders@;
            let mut wake = Wake::Nobody;
            let mut i: usize = 0;
            while i < data.len()
                invariant
                    i <= data@.len(),
                    *self == (AccountStore { orders: self.orders, ..*old(self) }),
                    bybit_recorded(self.orders@, at_first, data@, i as nat),
                    wake == Wake::Orders ==> reports_order(data@),
                    wake == Wake::Orders || wake == Wake::Nobody,
                    wake == Wake::Nobody ==> forall|k: int|
                        0 <= k < i ==> (#[trigger] data@[k]).member("orderLinkId"@).string() is None,
                decreases data@.len() - i,
            {
                let ghost before = self.orders@;
                if let Some(order) = bybit_order_update(&data[i]) {
                    let ghost given = order;
                    self.record_order(order);
                    wake = Wake::Orders;
                    proof {
                        assert(data@[i as int].member("orderLinkId"@).string() is Some);
                        assert(bybit_recorded(before, at_first, data@, i as nat));
                        assert(is_bybit_order(given, data@[i as int]));
                        assert(self.orders@ == recorded(before, given));
                    }
                }
                i = i + 1;
            }
            return wake;
        }
        Wake::Nobody
    }

    /// Records what became of an order.
    pub fn record_order(&mut self, order: OrderExecution)
        ensures
            *final(self) == (AccountStore { orders: final(self).orders, ..*old(self) }),
            final(self).orders@ == recorded(old(self).orders@, order),
    {
        match find_order(&self.orders, order.client_order_id.as_str()) {
            Some(i) => {
                self.orders.set(i, order);
            },
            None => {
                self.orders.push(order);
            },
        }
    }

    /// The order that is waited for, once it can change no more.
    pub fn settled_order(&self, client_order_id: &str) -> (r: Option<OrderExecution>)
        ensures
            r == settled(self.orders@, client_order_id@),
    {
        match find_order(&self.orders, client_order_id) {
            Some(i) => {
                if is_terminal_order_status(self.orders[i].status.as_str()) {
                    Some(self.orders[i].clone())
                } else {
                    None
                }
            },
            None => None,
        }
    }
}

/// The legs of a list, copied.
pub fn copy_legs(legs: &Vec<PositionLeg>) -> (r: Vec<PositionLeg>)
    ensures
        r@ == legs@,
{
    let mut r: Vec<PositionLeg> = Vec::new();
    let mut i: usize = 0;
    while i < legs.len()
        invariant
            i <= legs@.len(),
            r@ == legs@.take(i as int),
        decreases legs@.len() - i,
    {
        r.push(legs[i].clone());
        proof {
            assert(legs@.take(i as int + 1) =~= legs@.take(i as int).push(legs@[i as int]));
        }
        i = i + 1;
    }
    proof {
        assert(legs@.take(legs@.len() as int) =~= legs@);
    }
    r
}

/// The longest pause between two attempts to connect, in seconds.
pub const LONGEST_RETRY: u64 = 30;

/// The pause after the next failed attempt: twice as long, within the limit.
pub fn next_retry(retry: u64) -> (next: u64)
    requires
        retry <= LONGEST_RETRY,
    ensures
        next == (if 2 * retry <= LONGEST_RETRY {
            2 * retry
        } else {
            LONGEST_RETRY as int
        }),
        next <= LONGEST_RETRY,
{
    if retry * 2 <= LONGEST_RETRY {
        retry * 2
    } else {
        LONGEST_RETRY
    }
}

/// The key that a stream of Binance is opened with.
pub fn listen_key(answer: &Json) -> (r: Result<String, Failure>)
    ensures
        match answer.member("listenKey"@).string() {
            Some(k) => r matches Ok(s) && s@ == k,
            None => r matches Err(f) && f.reason is ListenKeyMissing && f.cause is None,
        },
{
    match answer.get("listenKey").as_str() {
        Some(s) => Ok(s.to_owned()),
        None => Err(Failure::new(Reason::ListenKeyMissing)),
    }
}

/// Checks the answer of Bybit to a login.
pub fn check_login(answer: &Json) -> (r: Result<(), Failure>)
    ensures
        if answer.member("success"@).flag() == Some(true) {
            r is Ok
        } else {
            &&& r matches Err(f)
            &&& f.cause is None
            &&& f.reason matches Reason::AuthRejected { message }
            &&& message@ == rendered(answer.member("ret_msg"@))
        },
{
    let accepted: bool = match answer.get("success").as_bool() {
        Some(b) => b,
        None => false,
    };
    if accepted {
        Ok(())
    } else {
        Err(Failure::new(Reason::AuthRejected { message: render(answer.get("ret_msg")) }))
    }
}

/// When the account is looked at again.
#[derive(Clone, Copy, Debug, PartialEq, Eq, Structural)]
pub struct AccountSchedule {
    pub binance_connected: bool,
    pub bybit_connected: bool,
    pub margin_refresh_seconds: u64,
    pub account_reconcile_seconds: u64,
}

/// What is due this second.
#[derive(Clone, Copy, Debug, PartialEq, Eq, Structural)]
pub struct Due {
    pub seed_binance: bool,
    pub seed_bybit: bool,
    pub refresh_margin: bool,
    pub reconcile: bool,
}

/// How many seconds pass between two looks at the account.
pub const REFRESH_SECONDS: u64 = 30;

/// Where the count starts after a look that failed.
pub const RETRY_FROM_SECONDS: u64 = 25;

/// One more second, as far as the machine can count.
pub open spec fn one_later(seconds: u64) -> u64 {
    if seconds < u64::MAX {
        (seconds + 1) as u64
    } else {
        seconds
    }
}

impl AccountSchedule {
    pub fn new() -> (s: AccountSchedule)
        ensures
            s == (AccountSchedule {
                binance_connected: false,
                bybit_connected: false,
                margin_refresh_seconds: REFRESH_SECONDS,
                account_reconcile_seconds: 0,
            }),
    {
        AccountSchedule {
            binance_connected: false,
            bybit_connected: false,
            margin_refresh_seconds: REFRESH_SECONDS,
            account_reconcile_seconds: 0,
        }
    }

    /// Counts a second: an exchange that has come back is looked at at once, and
    /// the account every thirty seconds.
    pub fn tick(&mut self, binance: bool, bybit: bool) -> (due: Due)
        ensures
            final(self).binance_connected == binance,
            final(self).bybit_connected == bybit,
            final(self).margin_refresh_seconds == one_later(old(self).margin_refresh_seconds),
            due == (Due {
                seed_binance: binance && !old(self).binance_connected,
                seed_bybit: bybit && !old(self).bybit_connected,
                refresh_margin: final(self).margin_refresh_seconds >= REFRESH_SECONDS,
                reconcile: one_later(old(self).account_reconcile_seconds) >= REFRESH_SECONDS,
            }),
            final(self).account_reconcile_seconds == (if due.reconcile {
                0
            } else {
                one_later(old(self).account_reconcile_seconds)
            }),
    {
        let seed_binance: bool = binance && !self.binance_connected;
        let seed_bybit: bool = bybit && !self.bybit_connected;
        self.binance_connected = binance;
        self.bybit_connected = bybit;
        if self.margin_refresh_seconds < u64::MAX {
            self.margin_refresh_seconds = self.margin_refresh_seconds + 1;
        }
        if self.account_reconcile_seconds < u64::MAX {
            self.account_reconcile_seconds = self.account_reconcile_seconds + 1;
        }
        let reconcile: bool = self.account_reconcile_seconds >= REFRESH_SECONDS;
        if reconcile {
            self.account_reconcile_seconds = 0;
        }
        Due {
            seed_binance,
            seed_bybit,
            refresh_margin: self.margin_refresh_seconds >= REFRESH_SECONDS,
            reconcile,
        }
    }

    /// Takes in whether a look at the borrowed legs went through; where it did
    /// not, the next one comes sooner.
    pub fn on_margin(&mut self, seen: bool)
        ensures
            *final(self) == (AccountSchedule {
                margin_refresh_seconds: if seen {
                    0
                } else {
                    RETRY_FROM_SECONDS
                },
                ..*old(self)
            }),
    {
        self.margin_refresh_seconds = if seen {
            0
        } else {
            RETRY_FROM_SECONDS
        };
    }
}

} // verus!
