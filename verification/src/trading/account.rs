//! The account as a whole: its positions, and what it is worth.

use crate::account_stream::{copy_legs, pnls, unrealized, AccountBalance};
use crate::config::{Config, TradingMode};
use crate::ledger::{amount_of, entries, entry_at, entry_or_zero, find_entry};
use crate::models::{AccountSummary, ExchangeBalance, Position, PositionLeg, PositionQuote};
use crate::num::constants::{FIFTY_THOUSAND, HUNDRED_THOUSAND, TWO, ZERO};
use crate::num::double::of_int;
use crate::num::sums::{sum, total};
use crate::num::Double;
use crate::parsing::trimmed;
use crate::sorting::occurs_among;
use crate::text::{base_of_symbol, join, same, texts, upper, without_suffixes};
use crate::trading::amounts::{all_quoted, apply_position_quotes, margin_basis, position_funding_key, position_margin_basis};
use crate::trading::income::{scoped, IncomeSummary};
use crate::trading::service::{added, is_held, TradingService};
use vstd::prelude::*;

verus! {

/// The name that the funding of a leg is kept under.
pub open spec fn funding_key(exchange: Seq<char>, leg: PositionLeg) -> Seq<char> {
    exchange + ":"@ + leg.symbol@ + ":"@ + leg.side@
}

/// The baselines with those of legs that have none: what their symbols had
/// earned by then.
pub open spec fn based(
    list: Seq<(Seq<char>, Double)>,
    exchange: Seq<char>,
    legs: Seq<PositionLeg>,
    income: Seq<(Seq<char>, Double)>,
) -> Seq<(Seq<char>, Double)>
    decreases legs.len(),
{
    if legs.len() == 0 {
        list
    } else {
        let before = based(list, exchange, legs.drop_last(), income);
        let name = funding_key(exchange, legs.last());
        if entry_at(before, name) is Some {
            before
        } else {
            before.push((name, entry_or_zero(income, legs.last().symbol@)))
        }
    }
}

/// What a leg has earned since its baseline.
pub open spec fn earned(
    list: Seq<(Seq<char>, Double)>,
    exchange: Seq<char>,
    leg: PositionLeg,
    income: Seq<(Seq<char>, Double)>,
) -> Double {
    entry_or_zero(income, leg.symbol@).sub_spec(entry_or_zero(list, funding_key(exchange, leg)))
}

/// Whether legs are others with what each has earned since its baseline.
pub open spec fn funded(
    new: Seq<PositionLeg>,
    old: Seq<PositionLeg>,
    list: Seq<(Seq<char>, Double)>,
    exchange: Seq<char>,
    income: Seq<(Seq<char>, Double)>,
) -> bool {
    &&& new.len() == old.len()
    &&& forall|i: int|
        0 <= i < old.len() ==> #[trigger] new[i] == (PositionLeg {
            funding_earned: earned(based(list, exchange, old.take(i + 1), income), exchange, old[i], income),
            ..old[i]
        })
}

/// Whether a name is that of one of the legs.
pub open spec fn is_funded_leg(name: Seq<char>, exchange: Seq<char>, legs: Seq<PositionLeg>) -> bool {
    exists|i: int| 0 <= i < legs.len() && funding_key(exchange, #[trigger] legs[i]) == name
}

/// The baselines of the legs that are held.
pub open spec fn retained(
    list: Seq<(Seq<char>, Double)>,
    binance: Seq<PositionLeg>,
    bybit: Seq<PositionLeg>,
) -> Seq<(Seq<char>, Double)>
    decreases list.len(),
{
    if list.len() == 0 {
        Seq::empty()
    } else {
        let before = retained(list.drop_last(), binance, bybit);
        if is_funded_leg(list.last().0, "Binance"@, binance) || is_funded_leg(
            list.last().0,
            "Bybit"@,
            bybit,
        ) {
            before.push(list.last())
        } else {
            before
        }
    }
}

fn has_leg(name: &str, exchange: &str, legs: &Vec<PositionLeg>) -> (b: bool)
    ensures
        b == is_funded_leg(name@, exchange@, legs@),
{
    let mut i: usize = 0;
    while i < legs.len()
        invariant
            i <= legs@.len(),
            forall|k: int| 0 <= k < i ==> funding_key(exchange@, #[trigger] legs@[k]) != name@,
        decreases legs@.len() - i,
    {
        let own = position_funding_key(exchange, legs[i].symbol.as_str(), legs[i].side.as_str());
        if same(own.as_str(), name) {
            proof {
                assert(funding_key(exchange@, legs@[i as int]) == name@);
            }
            return true;
        }
        i = i + 1;
    }
    false
}

fn fund(
    list: &mut Vec<(String, Double)>,
    exchange: &str,
    legs: &Vec<PositionLeg>,
    income: &Vec<(String, Double)>,
) -> (r: Vec<PositionLeg>)
    ensures
        entries(final(list)@) == based(entries(old(list)@), exchange@, legs@, entries(income@)),
        funded(r@, legs@, entries(old(list)@), exchange@, entries(income@)),
{
    let ghost at_first = entries(list@);
    let ghost paid = entries(income@);
    let mut r: Vec<PositionLeg> = Vec::new();
    let mut i: usize = 0;
    proof {
        assert(legs@.take(0) =~= Seq::<PositionLeg>::empty());
    }
    while i < legs.len()
        invariant
            i <= legs@.len(),
            paid == entries(income@),
            entries(list@) == based(at_first, exchange@, legs@.take(i as int), paid),
            r@.len() == i,
            forall|k: int|
                0 <= k < i ==> #[trigger] r@[k] == (PositionLeg {
                    funding_earned: earned(
                        based(at_first, exchange@, legs@.take(k + 1), paid),
                        exchange@,
                        legs@[k],
                        paid,
                    ),
                    ..legs@[k]
                }),
        decreases legs@.len() - i,
    {
        let ghost next = legs@.take(i as int + 1);
        let ghost before = entries(list@);
        proof {
            assert(next.drop_last() =~= legs@.take(i as int));
            assert(next.last() == legs@[i as int]);
        }
        let mut leg = legs[i].clone();
        let name = position_funding_key(exchange, leg.symbol.as_str(), leg.side.as_str());
        let total = amount_of(income, leg.symbol.as_str());
        let baseline = match find_entry(list, name.as_str()) {
            Some(k) => list[k].1,
            None => {
                list.push((name, total));
                proof {
                    assert(entries(list@) =~= before.push((name@, total)));
                    lemma_pushed_is_found(before, name@, total);
                }
                total
            },
        };
        leg.funding_earned = total.sub(baseline);
        r.push(leg);
        i = i + 1;
    }
    proof {
        assert(legs@.take(legs@.len() as int) =~= legs@);
    }
    r
}

proof fn lemma_pushed_is_found(list: Seq<(Seq<char>, Double)>, name: Seq<char>, amount: Double)
    requires
        entry_at(list, name) is None,
    ensures
        entry_at(list.push((name, amount)), name) == Some(list.len() as int),
    decreases list.len(),
{
    let new = list.push((name, amount));
    if list.len() > 0 {
        assert(new[0] == list[0]);
        assert(new.drop_first() =~= list.drop_first().push((name, amount)));
        lemma_pushed_is_found(list.drop_first(), name, amount);
    } else {
        assert(new[0] == (name, amount));
    }
}

/// A leg that is seen for the first time has earned nothing yet, whatever its
/// symbol had earned before.
pub proof fn lemma_new_leg_starts_at_its_baseline(
    list: Seq<(Seq<char>, Double)>,
    exchange: Seq<char>,
    leg: PositionLeg,
    income: Seq<(Seq<char>, Double)>,
)
    requires
        entry_at(list, funding_key(exchange, leg)) is None,
    ensures
        earned(based(list, exchange, seq![leg], income), exchange, leg, income) == entry_or_zero(
            income,
            leg.symbol@,
        ).sub_spec(entry_or_zero(income, leg.symbol@)),
{
    let legs = seq![leg];
    assert(legs.drop_last() =~= Seq::<PositionLeg>::empty());
    assert(legs.last() == leg);
    reveal_with_fuel(based, 2);
    lemma_pushed_is_found(list, funding_key(exchange, leg), entry_or_zero(income, leg.symbol@));
}

/// The name of a quote.
pub open spec fn quote_name(quote: PositionQuote) -> Seq<char> {
    quote.exchange@ + ":"@ + quote.symbol@
}

/// The funding rate of a symbol: that of the last quote of its name, or zero.
pub open spec fn rate_of(quotes: Seq<PositionQuote>, name: Seq<char>) -> Double
    decreases quotes.len(),
{
    if quotes.len() == 0 {
        Double { bits: ZERO }
    } else if quote_name(quotes.last()) == name {
        quotes.last().funding_rate
    } else {
        rate_of(quotes.drop_last(), name)
    }
}

fn find_rate(quotes: &Vec<PositionQuote>, name: &str) -> (r: Double)
    ensures
        r == rate_of(quotes@, name@),
{
    let mut n: usize = quotes.len();
    proof {
        assert(quotes@.take(n as int) =~= quotes@);
    }
    while n > 0
        invariant
            n <= quotes@.len(),
            rate_of(quotes@, name@) == rate_of(quotes@.take(n as int), name@),
        decreases n,
    {
        proof {
            assert(quotes@.take(n as int).last() == quotes@[n - 1]);
            assert(quotes@.take(n as int).drop_last() =~= quotes@.take(n - 1));
        }
        let quote = &quotes[n - 1];
        let own = join(join(quote.exchange.as_str(), ":").as_str(), quote.symbol.as_str());
        if same(own.as_str(), name) {
            return quote.funding_rate;
        }
        n = n - 1;
    }
    Double { bits: ZERO }
}

/// Whether legs are others with their funding rates.
pub open spec fn rated(
    new: Seq<PositionLeg>,
    old: Seq<PositionLeg>,
    exchange: Seq<char>,
    quotes: Seq<PositionQuote>,
) -> bool {
    &&& new.len() == old.len()
    &&& forall|i: int|
        0 <= i < old.len() ==> #[trigger] new[i] == (PositionLeg {
            funding_rate: rate_of(quotes, exchange + ":"@ + old[i].symbol@),
            ..old[i]
        })
}

fn rate(legs: &Vec<PositionLeg>, exchange: &str, quotes: &Vec<PositionQuote>) -> (r: Vec<PositionLeg>)
    ensures
        rated(r@, legs@, exchange@, quotes@),
{
    let mut r: Vec<PositionLeg> = Vec::new();
    let mut i: usize = 0;
    while i < legs.len()
        invariant
            i <= legs@.len(),
            r@.len() == i,
            forall|k: int|
                0 <= k < i ==> #[trigger] r@[k] == (PositionLeg {
                    funding_rate: rate_of(quotes@, exchange@ + ":"@ + legs@[k].symbol@),
                    ..legs@[k]
                }),
        decreases legs@.len() - i,
    {
        let mut leg = legs[i].clone();
        let name = join(join(exchange, ":").as_str(), leg.symbol.as_str());
        leg.funding_rate = find_rate(quotes, name.as_str());
        r.push(leg);
        i = i + 1;
    }
    r
}

/// The token of a leg.
pub open spec fn token_of(leg: PositionLeg) -> Seq<char> {
    without_suffixes(leg.symbol@, "USDT"@)
}

/// Whether a text is among others.
pub open spec fn among(list: Seq<Seq<char>>, text: Seq<char>) -> bool {
    exists|i: int| 0 <= i < list.len() && #[trigger] list[i] == text
}

/// The tokens of legs, each of them once, in the order in which they come.
pub open spec fn tokens(legs: Seq<PositionLeg>) -> Seq<Seq<char>>
    decreases legs.len(),
{
    if legs.len() == 0 {
        Seq::empty()
    } else {
        let before = tokens(legs.drop_last());
        if among(before, token_of(legs.last())) {
            before
        } else {
            before.push(token_of(legs.last()))
        }
    }
}

/// The first leg of a token on a side.
pub open spec fn token_leg(legs: Seq<PositionLeg>, token: Seq<char>, side: Seq<char>) -> Option<PositionLeg>
    decreases legs.len(),
{
    if legs.len() == 0 {
        None
    } else if token_of(legs[0]) == token && legs[0].side@ == side {
        Some(legs[0])
    } else {
        token_leg(legs.drop_first(), token, side)
    }
}

fn find_token_leg(legs: &Vec<PositionLeg>, token: &str, side: &str) -> (r: Option<PositionLeg>)
    ensures
        r == token_leg(legs@, token@, side@),
{
    let mut i: usize = 0;
    proof {
        assert(legs@.skip(0) =~= legs@);
    }
    while i < legs.len()
        invariant
            i <= legs@.len(),
            token_leg(legs@, token@, side@) == token_leg(legs@.skip(i as int), token@, side@),
        decreases legs@.len() - i,
    {
        proof {
            assert(legs@.skip(i as int)[0] == legs@[i as int]);
            assert(legs@.skip(i as int).drop_first() =~= legs@.skip(i as int + 1));
        }
        if same(base_of_symbol(legs[i].symbol.as_str()).as_str(), token) && same(
            legs[i].side.as_str(),
            side,
        ) {
            return Some(legs[i].clone());
        }
        i = i + 1;
    }
    None
}

/// Whether a position is that of a token: its first long and its first short
/// leg.
pub open spec fn is_live_position(position: Position, token: Seq<char>, long: PositionLeg, short: PositionLeg) -> bool {
    let zero = Double { bits: ZERO };
    &&& position.id@ == "live-"@ + token
    &&& position.token@ == token
    &&& position.status@ == "open"@
    &&& position.opened_at == 0
    &&& position.notional_usdt == long.quantity.mul_spec(long.entry_price)
    &&& position.leverage == long.leverage
    &&& position.long == long
    &&& position.short == short
    &&& position.funding_earned == long.funding_earned.add_spec(short.funding_earned)
    &&& position.unrealized_pnl == long.unrealized_pnl.add_spec(short.unrealized_pnl)
    &&& position.current_pnl_usdt == zero
    &&& position.current_roi == zero
    &&& position.roi_basis_usdt == margin_basis(long, short)
    &&& position.current_funding_per_hour is None
    &&& position.current_spread is None
    &&& position.current_apy is None
}

/// Whether positions are those of the tokens that have both legs.
pub open spec fn are_live_positions(positions: Seq<Position>, names: Seq<Seq<char>>, legs: Seq<PositionLeg>) -> bool
    decreases names.len(),
{
    if names.len() == 0 {
        positions.len() == 0
    } else {
        let long = token_leg(legs, names.last(), "long"@);
        let short = token_leg(legs, names.last(), "short"@);
        if long is Some && short is Some {
            positions.len() > 0 && is_live_position(positions.last(), names.last(), long->0, short->0)
                && are_live_positions(positions.drop_last(), names.drop_last(), legs)
        } else {
            are_live_positions(positions, names.drop_last(), legs)
        }
    }
}

fn list_tokens(legs: &Vec<PositionLeg>) -> (r: Vec<String>)
    ensures
        texts(r@) == tokens(legs@),
{
    let mut r: Vec<String> = Vec::new();
    let mut i: usize = 0;
    proof {
        assert(legs@.take(0) =~= Seq::<PositionLeg>::empty());
        assert(texts(r@) =~= Seq::<Seq<char>>::empty());
    }
    while i < legs.len()
        invariant
            i <= legs@.len(),
            texts(r@) == tokens(legs@.take(i as int)),
        decreases legs@.len() - i,
    {
        let ghost before = texts(r@);
        proof {
            assert(legs@.take(i as int + 1).drop_last() =~= legs@.take(i as int));
            assert(legs@.take(i as int + 1).last() == legs@[i as int]);
        }
        let token = base_of_symbol(legs[i].symbol.as_str());
        let ghost text = token@;
        let known: bool = is_held(&r, token.as_str());
        proof {
            if known {
                let k = choose|k: int| 0 <= k < r@.len() && (#[trigger] r@[k])@ == text;
                assert(before[k] == text);
            } else if among(before, text) {
                let k = choose|k: int| 0 <= k < before.len() && #[trigger] before[k] == text;
                assert(r@[k]@ == text);
            }
        }
        if !known {
            r.push(token);
            proof {
                assert(texts(r@) =~= before.push(text));
            }
        }
        i = i + 1;
    }
    proof {
        assert(legs@.take(legs@.len() as int) =~= legs@);
    }
    r
}

fn pair_positions(legs: &Vec<PositionLeg>) -> (positions: Vec<Position>)
    ensures
        are_live_positions(positions@, tokens(legs@), legs@),
{
    let names = list_tokens(legs);
    let ghost all = texts(names@);
    let mut positions: Vec<Position> = Vec::new();
    let mut i: usize = 0;
    proof {
        assert(all.take(0) =~= Seq::<Seq<char>>::empty());
    }
    while i < names.len()
        invariant
            i <= names@.len(),
            all == texts(names@),
            are_live_positions(positions@, all.take(i as int), legs@),
        decreases names@.len() - i,
    {
        let ghost before = positions@;
        proof {
            assert(all.take(i as int + 1).drop_last() =~= all.take(i as int));
            assert(all.take(i as int + 1).last() == names@[i as int]@);
        }
        let token = names[i].as_str();
        let long = find_token_leg(legs, token, "long");
        let short = find_token_leg(legs, token, "short");
        match (long, short) {
            (Some(l), Some(s)) => {
                let zero = Double { bits: ZERO };
                let position = Position {
                    id: join("live-", token),
                    token: token.to_owned(),
                    status: "open".to_owned(),
                    opened_at: 0,
                    notional_usdt: l.quantity.mul(l.entry_price),
                    leverage: l.leverage,
                    funding_earned: l.funding_earned.add(s.funding_earned),
                    unrealized_pnl: l.unrealized_pnl.add(s.unrealized_pnl),
                    current_pnl_usdt: zero,
                    current_roi: zero,
                    roi_basis_usdt: position_margin_basis(&l, &s),
                    long: l,
                    short: s,
                    current_funding_per_hour: None,
                    current_spread: None,
                    current_apy: None,
                };
                positions.push(position);
                proof {
                    assert(positions@.drop_last() =~= before);
                }
            },
            _ => {},
        }
        i = i + 1;
    }
    proof {
        assert(all.take(all.len() as int) =~= all);
    }
    positions
}

/// Whether a leg has a counterpart: the other side of the symbol, not in the
/// same market.
pub open spec fn matches_other(leg: PositionLeg, other: PositionLeg) -> bool {
    &&& other.symbol@ == leg.symbol@
    &&& other.side@ != leg.side@
    &&& (other.exchange@ != leg.exchange@ || other.market@ != leg.market@)
}

/// Whether any of the legs is a counterpart.
pub open spec fn is_hedged(leg: PositionLeg, legs: Seq<PositionLeg>) -> bool {
    exists|i: int| 0 <= i < legs.len() && matches_other(leg, #[trigger] legs[i])
}

fn has_hedge(leg: &PositionLeg, legs: &Vec<PositionLeg>) -> (b: bool)
    ensures
        b == is_hedged(*leg, legs@),
{
    let mut i: usize = 0;
    while i < legs.len()
        invariant
            i <= legs@.len(),
            forall|k: int| 0 <= k < i ==> !matches_other(*leg, #[trigger] legs@[k]),
        decreases legs@.len() - i,
    {
        let other = &legs[i];
        if same(other.symbol.as_str(), leg.symbol.as_str()) && !same(other.side.as_str(), leg.side.as_str())
            && (!same(other.exchange.as_str(), leg.exchange.as_str()) || !same(
            other.market.as_str(),
            leg.market.as_str(),
        )) {
            return true;
        }
        i = i + 1;
    }
    false
}

/// Whether a long leg has a short counterpart.
pub open spec fn is_paired_long(leg: PositionLeg, legs: Seq<PositionLeg>) -> bool {
    leg.side@ == "long"@ && exists|i: int|
        0 <= i < legs.len() && matches_other(leg, #[trigger] legs[i]) && legs[i].side@ == "short"@
}

/// How many long legs have a short counterpart.
pub open spec fn paired(legs: Seq<PositionLeg>, all: Seq<PositionLeg>) -> nat
    decreases legs.len(),
{
    if legs.len() == 0 {
        0
    } else {
        paired(legs.drop_last(), all) + if is_paired_long(legs.last(), all) {
            1nat
        } else {
            0nat
        }
    }
}

fn is_long_paired(leg: &PositionLeg, legs: &Vec<PositionLeg>) -> (b: bool)
    ensures
        b == is_paired_long(*leg, legs@),
{
    if !same(leg.side.as_str(), "long") {
        return false;
    }
    proof {
        reveal_strlit("long");
        reveal_strlit("short");
        assert("long"@.len() != "short"@.len());
    }
    let mut i: usize = 0;
    while i < legs.len()
        invariant
            i <= legs@.len(),
            leg.side@ == "long"@,
            "long"@ != "short"@,
            forall|k: int|
                0 <= k < i ==> !(matches_other(*leg, #[trigger] legs@[k]) && legs@[k].side@ == "short"@),
        decreases legs@.len() - i,
    {
        let other = &legs[i];
        if same(other.symbol.as_str(), leg.symbol.as_str()) && same(other.side.as_str(), "short") && (!same(
            other.exchange.as_str(),
            leg.exchange.as_str(),
        ) || !same(other.market.as_str(), leg.market.as_str())) {
            proof {
                assert(matches_other(*leg, legs@[i as int]));
            }
            return true;
        }
        i = i + 1;
    }
    false
}

/// The legs without a counterpart.
pub open spec fn unhedged(legs: Seq<PositionLeg>, all: Seq<PositionLeg>) -> Seq<PositionLeg>
    decreases legs.len(),
{
    if legs.len() == 0 {
        Seq::empty()
    } else {
        let before = unhedged(legs.drop_last(), all);
        if is_hedged(legs.last(), all) {
            before
        } else {
            before.push(legs.last())
        }
    }
}

/// Whether symbols are others with those of the hedged legs added.
pub open spec fn hedged_added(new: Seq<String>, old: Seq<String>, legs: Seq<PositionLeg>, all: Seq<PositionLeg>) -> bool
    decreases legs.len(),
{
    if legs.len() == 0 {
        new == old
    } else if is_hedged(legs.last(), all) {
        exists|mid: Seq<String>|
            hedged_added(mid, old, legs.drop_last(), all) && #[trigger] added(
                new,
                mid,
                upper(trimmed(legs.last().symbol@)),
            )
    } else {
        hedged_added(new, old, legs.drop_last(), all)
    }
}

/// The exchanges that there are keys for.
pub open spec fn configured(config: Config) -> Seq<Seq<char>> {
    let first = if config.binance is Some {
        seq!["Binance"@]
    } else {
        Seq::empty()
    };
    if config.bybit is Some {
        first.push("Bybit"@)
    } else {
        first
    }
}

fn list_configured(config: &Config) -> (r: Vec<String>)
    ensures
        texts(r@) == configured(*config),
{
    let mut r: Vec<String> = Vec::new();
    if config.binance.is_some() {
        r.push("Binance".to_owned());
    }
    proof {
        assert(texts(r@) =~= (if config.binance is Some {
            seq!["Binance"@]
        } else {
            Seq::empty()
        }));
    }
    let ghost before = texts(r@);
    if config.bybit.is_some() {
        r.push("Bybit".to_owned());
        proof {
            assert(texts(r@) =~= before.push("Bybit"@));
        }
    }
    r
}

/// The margins that the positions on an exchange tie up.
pub open spec fn used_margins(positions: Seq<Position>, exchange: Seq<char>) -> Seq<Double>
    decreases positions.len(),
{
    if positions.len() == 0 {
        Seq::empty()
    } else {
        let before = used_margins(positions.drop_last(), exchange);
        let p = positions.last();
        if p.long.exchange@ == exchange || p.short.exchange@ == exchange {
            before.push(p.notional_usdt.div_spec(of_int(p.leverage as int)))
        } else {
            before
        }
    }
}

/// What the legs on an exchange have gained that is not settled.
pub open spec fn paper_gains(positions: Seq<Position>, exchange: Seq<char>) -> Seq<Double>
    decreases positions.len(),
{
    if positions.len() == 0 {
        Seq::empty()
    } else {
        let before = paper_gains(positions.drop_last(), exchange);
        let p = positions.last();
        let with_long = if p.long.exchange@ == exchange {
            before.push(p.long.unrealized_pnl)
        } else {
            before
        };
        if p.short.exchange@ == exchange {
            with_long.push(p.short.unrealized_pnl)
        } else {
            with_long
        }
    }
}

/// The simulated balance on an exchange: fifty thousand to start with.
pub open spec fn is_paper_balance(balance: ExchangeBalance, exchange: Seq<char>, positions: Seq<Position>) -> bool {
    let zero = Double { bits: ZERO };
    let gains = total(paper_gains(positions, exchange));
    &&& balance.exchange@ == exchange
    &&& balance.equity_usdt == (Double { bits: FIFTY_THOUSAND }).add_spec(gains)
    &&& balance.available_usdt == (Double { bits: FIFTY_THOUSAND }).sub_spec(
        total(used_margins(positions, exchange)),
    )
    &&& balance.unrealized_pnl == gains
    &&& balance.realized_pnl == zero
    &&& balance.closed_position_pnl == zero
    &&& balance.funding_income == zero
    &&& balance.trading_fees == zero
}

/// What a report on the account is made from.
#[derive(Clone, Copy, Debug, PartialEq, Eq, Structural)]
pub enum AccountSource {
    /// The positions of a simulated account.
    Simulation,
    /// The balances, positions and incomes of the exchanges.
    Exchanges,
}

/// What was found out for a report on the account.
pub enum AccountFindings<'a> {
    /// The positions of a simulated account.
    Simulation { positions: Vec<Position> },
    /// The balances, the legs and the incomes on the exchanges, and the quotes of
    /// the day.
    Exchanges {
        binance: AccountBalance,
        bybit: AccountBalance,
        binance_legs: Vec<PositionLeg>,
        bybit_legs: Vec<PositionLeg>,
        margin_legs: Vec<PositionLeg>,
        binance_income: &'a IncomeSummary,
        bybit_income: &'a IncomeSummary,
        quotes: &'a Vec<PositionQuote>,
    },
}

impl<'a> AccountFindings<'a> {
    /// Where these come from.
    pub open spec fn source(self) -> AccountSource {
        match self {
            AccountFindings::Simulation { .. } => AccountSource::Simulation,
            AccountFindings::Exchanges { .. } => AccountSource::Exchanges,
        }
    }
}

/// What a report on the account is to be made from.
pub open spec fn source_of(config: Config) -> AccountSource {
    if config.trading_mode is Live {
        AccountSource::Exchanges
    } else {
        AccountSource::Simulation
    }
}

/// The report on a simulated account.
pub open spec fn is_paper_summary(summary: AccountSummary, config: Config, positions: Seq<Position>) -> bool {
    let gains = total(position_gains(positions));
    let zero = Double { bits: ZERO };
    &&& summary.mode@ == "paper"@
    &&& texts(summary.configured_exchanges@) == configured(config)
    &&& summary.exchanges@.len() == 2
    &&& is_paper_balance(summary.exchanges@[0], "Binance"@, positions)
    &&& is_paper_balance(summary.exchanges@[1], "Bybit"@, positions)
    &&& summary.equity_usdt == (Double { bits: HUNDRED_THOUSAND }).add_spec(gains)
    &&& summary.available_usdt == (Double { bits: HUNDRED_THOUSAND }).sub_spec(total(position_margins(positions)))
    &&& summary.unrealized_pnl == gains
    &&& summary.realized_pnl == zero
    &&& summary.closed_position_pnl == zero
    &&& summary.funding_income == zero
    &&& summary.trading_fees == zero
    &&& summary.realized_period_days == 7
    &&& summary.active_positions == positions.len()
    &&& summary.unhedged_legs@ == Seq::<PositionLeg>::empty()
}

/// Whether two balances say the same.
pub open spec fn same_balance(a: ExchangeBalance, b: ExchangeBalance) -> bool {
    &&& a == (ExchangeBalance { exchange: a.exchange, ..b })
    &&& a.exchange@ == b.exchange@
}

/// Whether two reports say the same.
pub open spec fn same_report(a: AccountSummary, b: AccountSummary) -> bool {
    &&& a == (AccountSummary {
        mode: a.mode,
        configured_exchanges: a.configured_exchanges,
        exchanges: a.exchanges,
        unhedged_legs: a.unhedged_legs,
        ..b
    })
    &&& a.mode@ == b.mode@
    &&& texts(a.configured_exchanges@) == texts(b.configured_exchanges@)
    &&& a.exchanges@.len() == b.exchanges@.len()
    &&& forall|i: int| 0 <= i < a.exchanges@.len() ==> same_balance(#[trigger] a.exchanges@[i], b.exchanges@[i])
    &&& a.unhedged_legs@ == b.unhedged_legs@
}

fn paper_balance(exchange: &str, positions: &Vec<Position>) -> (balance: ExchangeBalance)
    ensures
        is_paper_balance(balance, exchange@, positions@),
{
    let mut used: Vec<Double> = Vec::new();
    let mut gains: Vec<Double> = Vec::new();
    let mut i: usize = 0;
    proof {
        assert(positions@.take(0) =~= Seq::<Position>::empty());
    }
    while i < positions.len()
        invariant
            i <= positions@.len(),
            used@ == used_margins(positions@.take(i as int), exchange@),
            gains@ == paper_gains(positions@.take(i as int), exchange@),
        decreases positions@.len() - i,
    {
        proof {
            assert(positions@.take(i as int + 1).drop_last() =~= positions@.take(i as int));
            assert(positions@.take(i as int + 1).last() == positions@[i as int]);
        }
        let p = &positions[i];
        let long_here: bool = same(p.long.exchange.as_str(), exchange);
        let short_here: bool = same(p.short.exchange.as_str(), exchange);
        if long_here || short_here {
            used.push(p.notional_usdt.div(Double::from_int(p.leverage as i64)));
        }
        if long_here {
            gains.push(p.long.unrealized_pnl);
        }
        if short_here {
            gains.push(p.short.unrealized_pnl);
        }
        i = i + 1;
    }
    proof {
        assert(positions@.take(positions@.len() as int) =~= positions@);
    }
    let unrealized_pnl = sum(&gains);
    let zero = Double { bits: ZERO };
    ExchangeBalance {
        exchange: exchange.to_owned(),
        equity_usdt: (Double { bits: FIFTY_THOUSAND }).add(unrealized_pnl),
        available_usdt: (Double { bits: FIFTY_THOUSAND }).sub(sum(&used)),
        unrealized_pnl,
        realized_pnl: zero,
        closed_position_pnl: zero,
        funding_income: zero,
        trading_fees: zero,
    }
}

/// The simulated balances on both exchanges.
pub fn paper_exchange_balances(positions: &Vec<Position>) -> (balances: Vec<ExchangeBalance>)
    ensures
        balances@.len() == 2,
        is_paper_balance(balances@[0], "Binance"@, positions@),
        is_paper_balance(balances@[1], "Bybit"@, positions@),
{
    let mut balances: Vec<ExchangeBalance> = Vec::new();
    balances.push(paper_balance("Binance", positions));
    balances.push(paper_balance("Bybit", positions));
    balances
}

/// What each position has gained that is not settled.
pub open spec fn position_gains(positions: Seq<Position>) -> Seq<Double> {
    Seq::new(positions.len(), |i: int| positions[i].unrealized_pnl)
}

/// The margins that both legs of each position tie up.
pub open spec fn position_margins(positions: Seq<Position>) -> Seq<Double> {
    Seq::new(
        positions.len(),
        |i: int|
            positions[i].notional_usdt.mul_spec(Double { bits: TWO }).div_spec(
                of_int(positions[i].leverage as int),
            ),
    )
}

/// Whether a balance is that of an exchange.
pub open spec fn is_live_balance(
    balance: ExchangeBalance,
    exchange: Seq<char>,
    account: AccountBalance,
    gains: Double,
    income: IncomeSummary,
) -> bool {
    &&& balance.exchange@ == exchange
    &&& balance.equity_usdt == account.equity
    &&& balance.available_usdt == account.available
    &&& balance.unrealized_pnl == gains
    &&& balance.realized_pnl == income.realized()
    &&& balance.closed_position_pnl == income.closed_position_pnl
    &&& balance.funding_income == income.funding_income
    &&& balance.trading_fees == income.trading_fees
}

fn live_balance(exchange: &str, account: AccountBalance, gains: Double, income: &IncomeSummary) -> (balance:
    ExchangeBalance)
    ensures
        is_live_balance(balance, exchange@, account, gains, *income),
{
    ExchangeBalance {
        exchange: exchange.to_owned(),
        equity_usdt: account.equity,
        available_usdt: account.available,
        unrealized_pnl: gains,
        realized_pnl: income.realized_pnl(),
        closed_position_pnl: income.closed_position_pnl,
        funding_income: income.funding_income,
        trading_fees: income.trading_fees,
    }
}

/// The report on a week in which the two incomes were made, over the given legs.
pub open spec fn is_live_summary(
    summary: AccountSummary,
    config: Config,
    binance: AccountBalance,
    bybit: AccountBalance,
    binance_legs: Seq<PositionLeg>,
    bybit_legs: Seq<PositionLeg>,
    binance_income: IncomeSummary,
    bybit_income: IncomeSummary,
) -> bool {
    let all = binance_legs + bybit_legs;
    &&& summary.mode@ == "live"@
    &&& texts(summary.configured_exchanges@) == configured(config)
    &&& summary.exchanges@.len() == 2
    &&& is_live_balance(
        summary.exchanges@[0],
        "Binance"@,
        binance,
        total(pnls(binance_legs)),
        binance_income,
    )
    &&& is_live_balance(summary.exchanges@[1], "Bybit"@, bybit, total(pnls(bybit_legs)), bybit_income)
    &&& summary.equity_usdt == binance.equity.add_spec(bybit.equity)
    &&& summary.available_usdt == binance.available.add_spec(bybit.available)
    &&& summary.unrealized_pnl == total(pnls(all))
    &&& summary.realized_pnl == binance_income.realized().add_spec(bybit_income.realized())
    &&& summary.closed_position_pnl == binance_income.closed_position_pnl.add_spec(
        bybit_income.closed_position_pnl,
    )
    &&& summary.funding_income == binance_income.funding_income.add_spec(bybit_income.funding_income)
    &&& summary.trading_fees == binance_income.trading_fees.add_spec(bybit_income.trading_fees)
    &&& summary.realized_period_days == 7
    &&& summary.active_positions == paired(all, all)
    &&& summary.unhedged_legs@ == unhedged(all, all)
}

/// The report on the real account, which goes over the income of the symbols
/// that are managed once those that are held hedged have joined them.
pub open spec fn is_live_report(
    summary: AccountSummary,
    config: Config,
    managed: Seq<String>,
    managed_before: Seq<String>,
    binance: AccountBalance,
    bybit: AccountBalance,
    binance_legs: Seq<PositionLeg>,
    bybit_legs: Seq<PositionLeg>,
    binance_income: IncomeSummary,
    bybit_income: IncomeSummary,
) -> bool {
    let all = binance_legs + bybit_legs;
    &&& hedged_added(managed, managed_before, all, all)
    &&& exists|binance_scoped: IncomeSummary, bybit_scoped: IncomeSummary| #[trigger]
        binance_scoped.is_scoped(binance_income, managed) && #[trigger] bybit_scoped.is_scoped(bybit_income, managed)
            && is_live_summary(
            summary,
            config,
            binance,
            bybit,
            binance_legs,
            bybit_legs,
            binance_scoped,
            bybit_scoped,
        )
}

/// The report on the account of a desk: of a simulated one it is made from its
/// positions, of a real one from what the exchanges say.
pub open spec fn is_account_report(
    summary: AccountSummary,
    after: TradingService,
    before: TradingService,
    findings: AccountFindings,
) -> bool {
    match findings {
        AccountFindings::Simulation { positions } => {
            &&& after == before
            &&& is_paper_summary(summary, before.config, positions@)
        },
        AccountFindings::Exchanges {
            binance,
            bybit,
            binance_legs,
            bybit_legs,
            margin_legs,
            binance_income,
            bybit_income,
            quotes,
        } => {
            &&& after == (TradingService { managed_symbols: after.managed_symbols, ..before })
            &&& is_live_report(
                summary,
                before.config,
                after.managed_symbols@,
                before.managed_symbols@,
                binance,
                bybit,
                all_quoted(binance_legs@, quotes@) + margin_legs@,
                all_quoted(bybit_legs@, quotes@),
                *binance_income,
                *bybit_income,
            )
        },
    }
}

/// Whether two settings have keys for the same exchanges, whatever they are.
pub open spec fn same_access(one: Config, other: Config) -> bool {
    one.binance is Some == other.binance is Some && one.bybit is Some == other.bybit is Some
}

/// Whether a report names exchanges only where it says what there are keys for.
pub open spec fn names_exchanges(summary: AccountSummary) -> bool {
    forall|i: int|
        0 <= i < summary.configured_exchanges@.len() ==> {
            let name = (#[trigger] summary.configured_exchanges@[i])@;
            name == "Binance"@ || name == "Bybit"@
        }
}

proof fn lemma_names_exchanges(summary: AccountSummary, config: Config)
    requires
        texts(summary.configured_exchanges@) == configured(config),
    ensures
        names_exchanges(summary),
{
    assert forall|i: int| 0 <= i < summary.configured_exchanges@.len() implies ({
        let name = (#[trigger] summary.configured_exchanges@[i])@;
        name == "Binance"@ || name == "Bybit"@
    }) by {
        let names = summary.configured_exchanges@;
        assert(texts(names).len() == names.len());
        assert(texts(names)[i] == names[i]@);
        assert(configured(config)[i] == "Binance"@ || configured(config)[i] == "Bybit"@);
    }
}

/// Keys are never given out: the report on a simulated account says the same
/// whatever they are, and names the exchanges that have some.
pub proof fn lemma_paper_report_hides_the_keys(
    first: AccountSummary,
    second: AccountSummary,
    one: Config,
    other: Config,
    positions: Seq<Position>,
)
    requires
        is_paper_summary(first, one, positions),
        is_paper_summary(second, other, positions),
        same_access(one, other),
    ensures
        same_report(first, second),
        names_exchanges(first),
{
    assert(configured(one) == configured(other));
    lemma_names_exchanges(first, one);
    assert forall|i: int| 0 <= i < first.exchanges@.len() implies same_balance(
        #[trigger] first.exchanges@[i],
        second.exchanges@[i],
    ) by {
        assert(i == 0 || i == 1);
    }
}

/// Keys are never given out: the report on a real account says the same whatever
/// they are, and names the exchanges that have some.
pub proof fn lemma_live_report_hides_the_keys(
    first: AccountSummary,
    second: AccountSummary,
    one: Config,
    other: Config,
    binance: AccountBalance,
    bybit: AccountBalance,
    binance_legs: Seq<PositionLeg>,
    bybit_legs: Seq<PositionLeg>,
    binance_income: IncomeSummary,
    bybit_income: IncomeSummary,
)
    requires
        is_live_summary(
            first,
            one,
            binance,
            bybit,
            binance_legs,
            bybit_legs,
            binance_income,
            bybit_income,
        ),
        is_live_summary(
            second,
            other,
            binance,
            bybit,
            binance_legs,
            bybit_legs,
            binance_income,
            bybit_income,
        ),
        same_access(one, other),
    ensures
        same_report(first, second),
        names_exchanges(first),
{
    assert(configured(one) == configured(other));
    lemma_names_exchanges(first, one);
    assert forall|i: int| 0 <= i < first.exchanges@.len() implies same_balance(
        #[trigger] first.exchanges@[i],
        second.exchanges@[i],
    ) by {
        assert(i == 0 || i == 1);
    }
}

/// The symbols that join are the same for the same legs.
proof fn lemma_hedged_added_is_unique(
    a: Seq<String>,
    b: Seq<String>,
    a_before: Seq<String>,
    b_before: Seq<String>,
    legs: Seq<PositionLeg>,
    all: Seq<PositionLeg>,
)
    requires
        hedged_added(a, a_before, legs, all),
        hedged_added(b, b_before, legs, all),
        texts(a_before) == texts(b_before),
    ensures
        texts(a) == texts(b),
    decreases legs.len(),
{
    if legs.len() > 0 {
        let front = legs.drop_last();
        if is_hedged(legs.last(), all) {
            let name = upper(trimmed(legs.last().symbol@));
            let x = choose|mid: Seq<String>| hedged_added(mid, a_before, front, all) && #[trigger] added(a, mid, name);
            let y = choose|mid: Seq<String>| hedged_added(mid, b_before, front, all) && #[trigger] added(b, mid, name);
            lemma_hedged_added_is_unique(x, y, a_before, b_before, front, all);
            lemma_same_texts_hold_the_same(x, y, name);
            if name.len() != 0 && !occurs_among(x, name) {
                assert(a =~= x.push(a.last()));
                assert(b =~= y.push(b.last()));
                assert(texts(a) =~= texts(x).push(name));
                assert(texts(b) =~= texts(y).push(name));
            }
        } else {
            lemma_hedged_added_is_unique(a, b, a_before, b_before, front, all);
        }
    }
}

proof fn lemma_same_texts_hold_the_same(a: Seq<String>, b: Seq<String>, text: Seq<char>)
    requires
        texts(a) == texts(b),
    ensures
        occurs_among(a, text) == occurs_among(b, text),
{
    assert(a.len() == texts(a).len() && b.len() == texts(b).len());
    assert forall|i: int| 0 <= i < a.len() implies (#[trigger] a[i])@ == b[i]@ by {
        assert(texts(a)[i] == texts(b)[i]);
    }
    if occurs_among(a, text) {
        let i = choose|i: int| 0 <= i < a.len() && (#[trigger] a[i])@ == text;
        assert(b[i]@ == text);
    }
    if occurs_among(b, text) {
        let i = choose|i: int| 0 <= i < b.len() && (#[trigger] b[i])@ == text;
        assert(a[i]@ == text);
    }
}

proof fn lemma_same_texts_scope_the_same(list: Seq<(Seq<char>, Double)>, a: Seq<String>, b: Seq<String>)
    requires
        texts(a) == texts(b),
    ensures
        scoped(list, a) == scoped(list, b),
    decreases list.len(),
{
    if list.len() > 0 {
        lemma_same_texts_scope_the_same(list.drop_last(), a, b);
        lemma_same_texts_hold_the_same(a, b, list.last().0);
    }
}

/// Keys are never given out: two desks that are told the same and differ in
/// nothing but the text of their keys report the same, and name no more than the
/// exchanges that they have keys for.
pub proof fn lemma_report_hides_the_keys(
    first: AccountSummary,
    second: AccountSummary,
    one: TradingService,
    one_after: TradingService,
    other: TradingService,
    other_after: TradingService,
    findings: AccountFindings,
)
    requires
        is_account_report(first, one_after, one, findings),
        is_account_report(second, other_after, other, findings),
        same_access(one.config, other.config),
        texts(one.managed_symbols@) == texts(other.managed_symbols@),
    ensures
        same_report(first, second),
        names_exchanges(first),
        texts(one_after.managed_symbols@) == texts(other_after.managed_symbols@),
{
    match findings {
        AccountFindings::Simulation { positions } => {
            lemma_paper_report_hides_the_keys(first, second, one.config, other.config, positions@);
        },
        AccountFindings::Exchanges {
            binance,
            bybit,
            binance_legs,
            bybit_legs,
            margin_legs,
            binance_income,
            bybit_income,
            quotes,
        } => {
            let legs = all_quoted(binance_legs@, quotes@) + margin_legs@;
            let others = all_quoted(bybit_legs@, quotes@);
            let all = legs + others;
            let a = one_after.managed_symbols@;
            let b = other_after.managed_symbols@;
            lemma_hedged_added_is_unique(a, b, one.managed_symbols@, other.managed_symbols@, all, all);
            let (x, y) = choose|x: IncomeSummary, y: IncomeSummary| #[trigger]
                x.is_scoped(*binance_income, a) && #[trigger] y.is_scoped(*bybit_income, a) && is_live_summary(
                    first,
                    one.config,
                    binance,
                    bybit,
                    legs,
                    others,
                    x,
                    y,
                );
            let (v, w) = choose|v: IncomeSummary, w: IncomeSummary| #[trigger]
                v.is_scoped(*binance_income, b) && #[trigger] w.is_scoped(*bybit_income, b) && is_live_summary(
                    second,
                    other.config,
                    binance,
                    bybit,
                    legs,
                    others,
                    v,
                    w,
                );
            lemma_same_texts_scope_the_same(entries(binance_income.funding_by_symbol@), a, b);
            lemma_same_texts_scope_the_same(entries(binance_income.trading_fees_by_symbol@), a, b);
            lemma_same_texts_scope_the_same(entries(binance_income.closed_pnl_by_symbol@), a, b);
            lemma_same_texts_scope_the_same(entries(bybit_income.funding_by_symbol@), a, b);
            lemma_same_texts_scope_the_same(entries(bybit_income.trading_fees_by_symbol@), a, b);
            lemma_same_texts_scope_the_same(entries(bybit_income.closed_pnl_by_symbol@), a, b);
            assert(is_live_summary(second, other.config, binance, bybit, legs, others, x, y));
            lemma_live_report_hides_the_keys(
                first,
                second,
                one.config,
                other.config,
                binance,
                bybit,
                legs,
                others,
                x,
                y,
            );
        },
    }
}

/// The legs of two lists, one after the other.
pub fn chain_legs(first: &Vec<PositionLeg>, second: &Vec<PositionLeg>) -> (r: Vec<PositionLeg>)
    ensures
        r@ == first@ + second@,
{
    let mut r = copy_legs(first);
    let mut rest = copy_legs(second);
    r.append(&mut rest);
    r
}

impl TradingService {
    /// Whether nothing but the baselines differs.
    pub open spec fn only_baselines(self, old: TradingService) -> bool {
        self == (TradingService { position_funding_baselines: self.position_funding_baselines, ..old })
    }

    /// Works out what each leg has earned since it was opened, and forgets the
    /// legs that are gone. The result says whether the baselines have changed.
    pub fn apply_position_funding_baselines(
        &mut self,
        binance: &mut Vec<PositionLeg>,
        bybit: &mut Vec<PositionLeg>,
        binance_income: &IncomeSummary,
        bybit_income: &IncomeSummary,
    ) -> (changed: bool)
        ensures
            final(self).only_baselines(*old(self)),
            ({
                let at_first = entries(old(self).position_funding_baselines@);
                let binance_paid = entries(binance_income.funding_by_symbol@);
                let bybit_paid = entries(bybit_income.funding_by_symbol@);
                let mid = based(at_first, "Binance"@, old(binance)@, binance_paid);
                let full = based(mid, "Bybit"@, old(bybit)@, bybit_paid);
                let kept = retained(full, old(binance)@, old(bybit)@);
                &&& funded(final(binance)@, old(binance)@, at_first, "Binance"@, binance_paid)
                &&& funded(final(bybit)@, old(bybit)@, mid, "Bybit"@, bybit_paid)
                &&& entries(final(self).position_funding_baselines@) == kept
                &&& changed == (full.len() != at_first.len() || kept.len() != full.len())
            }),
    {
        let before: usize = self.position_funding_baselines.len();
        let binance_legs = fund(
            &mut self.position_funding_baselines,
            "Binance",
            binance,
            &binance_income.funding_by_symbol,
        );
        let bybit_legs = fund(
            &mut self.position_funding_baselines,
            "Bybit",
            bybit,
            &bybit_income.funding_by_symbol,
        );
        let ghost full = entries(self.position_funding_baselines@);
        let mut kept: Vec<(String, Double)> = Vec::new();
        let mut i: usize = 0;
        proof {
            assert(full.take(0) =~= Seq::<(Seq<char>, Double)>::empty());
            assert(entries(kept@) =~= Seq::<(Seq<char>, Double)>::empty());
        }
        while i < self.position_funding_baselines.len()
            invariant
                i <= self.position_funding_baselines@.len(),
                self.only_baselines(*old(self)),
                *binance == *old(binance),
                *bybit == *old(bybit),
                full == entries(self.position_funding_baselines@),
                entries(kept@) == retained(full.take(i as int), binance@, bybit@),
            decreases self.position_funding_baselines@.len() - i,
        {
            let ghost earlier = entries(kept@);
            proof {
                assert(full.take(i as int + 1).drop_last() =~= full.take(i as int));
                assert(full.take(i as int + 1).last() == full[i as int]);
            }
            let entry = &self.position_funding_baselines[i];
            if has_leg(entry.0.as_str(), "Binance", binance) || has_leg(entry.0.as_str(), "Bybit", bybit) {
                kept.push((entry.0.clone(), entry.1));
                proof {
                    assert(entries(kept@) =~= earlier.push(full[i as int]));
                }
            }
            i = i + 1;
        }
        proof {
            assert(full.take(full.len() as int) =~= full);
            assert(entries(old(self).position_funding_baselines@).len() == before);
            assert(entries(kept@).len() == kept@.len());
        }
        let changed: bool = self.position_funding_baselines.len() != before || kept.len()
            != self.position_funding_baselines.len();
        self.position_funding_baselines = kept;
        *binance = binance_legs;
        *bybit = bybit_legs;
        changed
    }

    /// The positions that are held on the exchanges. Only a token with a long
    /// and a short leg makes a position. The second result says whether the
    /// baselines have changed.
    pub fn live_positions(
        &mut self,
        binance: Vec<PositionLeg>,
        bybit: Vec<PositionLeg>,
        margin: Vec<PositionLeg>,
        binance_income: &IncomeSummary,
        bybit_income: &IncomeSummary,
        quotes: &Vec<PositionQuote>,
    ) -> (r: (Vec<Position>, bool))
        ensures
            final(self).only_baselines(*old(self)),
            ({
                let at_first = entries(old(self).position_funding_baselines@);
                let binance_paid = entries(binance_income.funding_by_symbol@);
                let bybit_paid = entries(bybit_income.funding_by_symbol@);
                let first = all_quoted(binance@, quotes@);
                let second = all_quoted(bybit@, quotes@);
                let mid = based(at_first, "Binance"@, first, binance_paid);
                let full = based(mid, "Bybit"@, second, bybit_paid);
                let kept = retained(full, first, second);
                &&& entries(final(self).position_funding_baselines@) == kept
                &&& r.1 == (full.len() != at_first.len() || kept.len() != full.len())
                &&& exists|
                    funded_binance: Seq<PositionLeg>,
                    funded_bybit: Seq<PositionLeg>,
                    rated_binance: Seq<PositionLeg>,
                    rated_bybit: Seq<PositionLeg>,
                |
                    funded(funded_binance, first, at_first, "Binance"@, binance_paid) && funded(
                        funded_bybit,
                        second,
                        mid,
                        "Bybit"@,
                        bybit_paid,
                    ) && #[trigger] rated(rated_binance, funded_binance, "Binance"@, quotes@)
                        && #[trigger] rated(rated_bybit, funded_bybit, "Bybit"@, quotes@)
                        && are_live_positions(
                        r.0@,
                        tokens(rated_binance + margin@ + rated_bybit),
                        rated_binance + margin@ + rated_bybit,
                    )
            }),
    {
        let mut first = apply_position_quotes(binance, quotes);
        let mut second = apply_position_quotes(bybit, quotes);
        let changed: bool = self.apply_position_funding_baselines(
            &mut first,
            &mut second,
            binance_income,
            bybit_income,
        );
        let rated_binance = rate(&first, "Binance", quotes);
        let rated_bybit = rate(&second, "Bybit", quotes);
        proof {
            assert(rated(rated_binance@, first@, "Binance"@, quotes@));
            assert(rated(rated_bybit@, second@, "Bybit"@, quotes@));
        }
        let legs = chain_legs(&chain_legs(&rated_binance, &margin), &rated_bybit);
        let positions = pair_positions(&legs);
        (positions, changed)
    }

    /// What the report on the account is made from: simulated positions, or what
    /// the exchanges say.
    pub fn account_source(&self) -> (source: AccountSource)
        ensures
            source == source_of(self.config),
    {
        match self.config.trading_mode {
            TradingMode::Live => AccountSource::Exchanges,
            TradingMode::Paper => AccountSource::Simulation,
        }
    }

    /// The report on a simulated account: a hundred thousand to start with.
    pub fn paper_summary(&self, positions: &Vec<Position>) -> (summary: AccountSummary)
        ensures
            is_paper_summary(summary, self.config, positions@),
    {
        let mut gains: Vec<Double> = Vec::new();
        let mut margins: Vec<Double> = Vec::new();
        let mut i: usize = 0;
        while i < positions.len()
            invariant
                i <= positions@.len(),
                gains@.len() == i,
                margins@.len() == i,
                forall|k: int| 0 <= k < i ==> #[trigger] gains@[k] == position_gains(positions@)[k],
                forall|k: int| 0 <= k < i ==> #[trigger] margins@[k] == position_margins(positions@)[k],
            decreases positions@.len() - i,
        {
            let p = &positions[i];
            gains.push(p.unrealized_pnl);
            margins.push(
                p.notional_usdt.mul(Double { bits: TWO }).div(Double::from_int(p.leverage as i64)),
            );
            i = i + 1;
        }
        proof {
            assert(gains@ =~= position_gains(positions@));
            assert(margins@ =~= position_margins(positions@));
        }
        let unrealized_pnl = sum(&gains);
        let zero = Double { bits: ZERO };
        AccountSummary {
            mode: "paper".to_owned(),
            configured_exchanges: list_configured(&self.config),
            exchanges: paper_exchange_balances(positions),
            equity_usdt: (Double { bits: HUNDRED_THOUSAND }).add(unrealized_pnl),
            available_usdt: (Double { bits: HUNDRED_THOUSAND }).sub(sum(&margins)),
            unrealized_pnl,
            realized_pnl: zero,
            closed_position_pnl: zero,
            funding_income: zero,
            trading_fees: zero,
            realized_period_days: 7,
            active_positions: positions.len(),
            unhedged_legs: Vec::new(),
        }
    }

    /// The report on the account, made from what was found out for it.
    pub fn account_summary(&mut self, findings: AccountFindings) -> (summary: AccountSummary)
        requires
            findings.source() == source_of(old(self).config),
        ensures
            is_account_report(summary, *final(self), *old(self), findings),
    {
        match findings {
            AccountFindings::Simulation { positions } => self.paper_summary(&positions),
            AccountFindings::Exchanges {
                binance,
                bybit,
                binance_legs,
                bybit_legs,
                margin_legs,
                binance_income,
                bybit_income,
                quotes,
            } => self.live_summary(
                binance,
                bybit,
                binance_legs,
                bybit_legs,
                margin_legs,
                binance_income,
                bybit_income,
                quotes,
            ),
        }
    }

    /// The report on the real account. Symbols that are held hedged are managed
    /// from now on, and only managed symbols count as income.
    pub fn live_summary(
        &mut self,
        binance: AccountBalance,
        bybit: AccountBalance,
        binance_legs: Vec<PositionLeg>,
        bybit_legs: Vec<PositionLeg>,
        margin_legs: Vec<PositionLeg>,
        binance_income: &IncomeSummary,
        bybit_income: &IncomeSummary,
        quotes: &Vec<PositionQuote>,
    ) -> (summary: AccountSummary)
        ensures
            *final(self) == (TradingService { managed_symbols: final(self).managed_symbols, ..*old(self) }),
            is_live_report(
                summary,
                old(self).config,
                final(self).managed_symbols@,
                old(self).managed_symbols@,
                binance,
                bybit,
                all_quoted(binance_legs@, quotes@) + margin_legs@,
                all_quoted(bybit_legs@, quotes@),
                *binance_income,
                *bybit_income,
            ),
    {
        let first = chain_legs(&apply_position_quotes(binance_legs, quotes), &margin_legs);
        let second = apply_position_quotes(bybit_legs, quotes);
        let all = chain_legs(&first, &second);
        let mut active_positions: usize = 0;
        let mut lonely: Vec<PositionLeg> = Vec::new();
        let ghost at_first = self.managed_symbols@;
        let mut i: usize = 0;
        proof {
            assert(all@.take(0) =~= Seq::<PositionLeg>::empty());
        }
        while i < all.len()
            invariant
                i <= all@.len(),
                *self == (TradingService { managed_symbols: self.managed_symbols, ..*old(self) }),
                active_positions <= i,
                active_positions == paired(all@.take(i as int), all@),
                lonely@ == unhedged(all@.take(i as int), all@),
                hedged_added(self.managed_symbols@, at_first, all@.take(i as int), all@),
            decreases all@.len() - i,
        {
            let ghost next = all@.take(i as int + 1);
            let ghost before = self.managed_symbols@;
            proof {
                assert(next.drop_last() =~= all@.take(i as int));
                assert(next.last() == all@[i as int]);
            }
            if is_long_paired(&all[i], &all) {
                active_positions = active_positions + 1;
            }
            if has_hedge(&all[i], &all) {
                self.remember_managed_symbol(all[i].symbol.as_str());
                proof {
                    assert(added(self.managed_symbols@, before, upper(trimmed(next.last().symbol@))));
                }
            } else {
                lonely.push(all[i].clone());
            }
            i = i + 1;
        }
        proof {
            assert(all@.take(all@.len() as int) =~= all@);
        }
        let binance_scoped = binance_income.for_symbols(&self.managed_symbols);
        let bybit_scoped = bybit_income.for_symbols(&self.managed_symbols);
        let mut exchanges: Vec<ExchangeBalance> = Vec::new();
        exchanges.push(live_balance("Binance", binance, unrealized(&first), &binance_scoped));
        exchanges.push(live_balance("Bybit", bybit, unrealized(&second), &bybit_scoped));
        let summary = AccountSummary {
            mode: "live".to_owned(),
            configured_exchanges: list_configured(&self.config),
            exchanges,
            equity_usdt: binance.equity.add(bybit.equity),
            available_usdt: binance.available.add(bybit.available),
            unrealized_pnl: unrealized(&all),
            realized_pnl: binance_scoped.realized_pnl().add(bybit_scoped.realized_pnl()),
            closed_position_pnl: binance_scoped.closed_position_pnl.add(bybit_scoped.closed_position_pnl),
            funding_income: binance_scoped.funding_income.add(bybit_scoped.funding_income),
            trading_fees: binance_scoped.trading_fees.add(bybit_scoped.trading_fees),
            realized_period_days: 7,
            active_positions,
            unhedged_legs: lonely,
        };
        proof {
            assert(all@ == first@ + second@);
            assert(binance_scoped.is_scoped(*binance_income, self.managed_symbols@));
            assert(bybit_scoped.is_scoped(*bybit_income, self.managed_symbols@));
            assert(is_live_summary(
                summary,
                old(self).config,
                binance,
                bybit,
                first@,
                second@,
                binance_scoped,
                bybit_scoped,
            ));
        }
        summary
    }
}

/// A leg is reported as unhedged exactly if it has no counterpart.
pub proof fn lemma_unhedged_is_reported(legs: Seq<PositionLeg>, all: Seq<PositionLeg>, i: int)
    requires
        0 <= i < legs.len(),
    ensures
        !is_hedged(legs[i], all) ==> unhedged(legs, all).contains(legs[i]),
        forall|k: int| 0 <= k < unhedged(legs, all).len() ==> !is_hedged(#[trigger] unhedged(legs, all)[k], all),
    decreases legs.len(),
{
    let front = legs.drop_last();
    let before = unhedged(front, all);
    if front.len() > 0 {
        let j = if i < front.len() {
            i
        } else {
            0
        };
        lemma_unhedged_is_reported(front, all, j);
    }
    let now = unhedged(legs, all);
    if i < front.len() {
        assert(front[i] == legs[i]);
        if !is_hedged(legs[i], all) {
            let k = choose|k: int| 0 <= k < before.len() && before[k] == legs[i];
            assert(now[k] == legs[i]);
        }
    } else if !is_hedged(legs[i], all) {
        assert(now[now.len() - 1] == legs[i]);
    }
    assert forall|k: int| 0 <= k < now.len() implies !is_hedged(#[trigger] now[k], all) by {
        if k < before.len() {
            assert(now[k] == before[k]);
        }
    }
}

} // verus!
