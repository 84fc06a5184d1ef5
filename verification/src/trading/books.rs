//! What holds of the books: of income, balances, debts and fills.

use crate::account_stream::{binance_balance, initial_margin, margins, usdt_entry, AccountBalance};
use crate::config::Config;
use crate::json::Json;
use crate::ledger::entry_or_zero;
use crate::market::routes::lemma_constants;
use crate::models::{
    AccountSummary, AutoCloseRule, BatchExecutionLog, ExchangeBalance, Opportunity, OrderExecution, Position,
    PositionLeg, TradeResponse,
};
use crate::num::about::{
    about, fine, lemma_about_itself, lemma_about_product, lemma_about_quotient, lemma_difference_is_near,
    lemma_gap_times, lemma_product_is_near, lemma_quotient_is_near, lemma_sum_is_near, lemma_whole_number, one, sized,
};
use crate::num::constants::{FIFTY, FIFTY_THOUSAND, HUNDRED, HUNDRED_THOUSAND, MINUS_ZERO, ONE, TWO, ZERO};
use crate::num::double::{lemma_order_is_numeric, of_int, size, ONE_EXPONENT};
use crate::num::order::{
    lemma_neg_turns, lemma_one, lemma_product_sign, lemma_quotient_sign, lemma_sub_monotone, lemma_sub_tells_the_larger,
    lemma_sum_monotone, lemma_zero_is_neutral, positive,
};
use crate::num::rounding::{lemma_round_at_most, units};
use crate::num::sums::total;
use crate::num::Double;
use crate::spread_strategy::fills_on;
use crate::trading::account::{
    earned, funding_key, is_hedged, is_live_position, is_live_summary, is_paper_balance, is_paper_summary,
    matches_other, paper_gains, position_gains, position_margins, used_margins,
};
use crate::trading::amounts::top_notional;
use crate::trading::batch::{steps, IncreaseRun, ReductionRun};
use crate::trading::guard::batches_left;
use crate::trading::holdings::{debt_of, entry_price_of, is_margin_leg, quote_amount, traded, Debt, ShortBook};
use crate::trading::income::IncomeSummary;
use crate::trading::logs::filled;
use crate::trading::orders::{fills_total, futures_fill, margin_fill};
use crate::trading::quantities::lemma_order_sizes;
use crate::trading::recovery::SpreadRecovery;
use crate::trading::rules::{evaluated, position_at, taken_off};
use crate::trading::sizing::lemma_both_sides;
use crate::trading::worth::{effective_leverage, lemma_exceeded_spread_is_owed, lemma_missed_spread_is_owed};
use crate::yields::lemma_size_scales;
use vstd::arithmetic::div_mod::{lemma_fundamental_div_mod, lemma_fundamental_div_mod_converse};
use vstd::arithmetic::power2::{lemma_pow2_pos, pow2};
use vstd::prelude::*;

verus! {

/// What is left of an income is what was closed and the funding, less the fees.
pub proof fn lemma_income_is_left_less_the_fees(income: IncomeSummary)
    requires
        income.closed_position_pnl.finite(),
        income.funding_income.finite(),
        income.trading_fees.finite(),
        income.closed_position_pnl.add_spec(income.funding_income).finite(),
        income.realized().finite(),
    ensures
        ({
            let closed = income.closed_position_pnl.value();
            let funding = income.funding_income.value();
            let fees = income.trading_fees.value();
            fine() * size(income.realized().value() - (closed + funding - fees)) <= 3 * (size(closed) + size(funding)
                + size(fees))
        }),
{
    let sum = income.closed_position_pnl.add_spec(income.funding_income);
    let f = fine();
    lemma_sum_is_near(income.closed_position_pnl, income.funding_income);
    lemma_difference_is_near(sum, income.trading_fees);
    let k = income.closed_position_pnl.value() + income.funding_income.value();
    let s = sum.value();
    let t = income.trading_fees.value();
    let r = income.realized().value();
    let x = size(s - k);
    let y = size(r - (s - t));
    let z = size(r - (k - t));
    assert(x <= size(k)) by (nonlinear_arith)
        requires
            f * x <= size(k),
            f == 0x20_0000_0000_0000,
            x >= 0,
    ;
    assert(f * z <= f * x + f * y) by (nonlinear_arith)
        requires
            z <= x + y,
            f == 0x20_0000_0000_0000,
    ;
}

/// More earned leaves no less, and more fees leave no more.
pub proof fn lemma_more_income_leaves_more(less: IncomeSummary, more: IncomeSummary)
    requires
        less.closed_position_pnl.le_spec(more.closed_position_pnl),
        less.funding_income.le_spec(more.funding_income),
        more.trading_fees.le_spec(less.trading_fees),
        !less.closed_position_pnl.add_spec(less.funding_income).nan(),
        !more.closed_position_pnl.add_spec(more.funding_income).nan(),
        !less.realized().nan(),
        !more.realized().nan(),
    ensures
        less.realized().le_spec(more.realized()),
{
    lemma_sum_monotone(
        less.closed_position_pnl,
        more.closed_position_pnl,
        less.funding_income,
        more.funding_income,
    );
    lemma_sub_monotone(
        less.closed_position_pnl.add_spec(less.funding_income),
        more.closed_position_pnl.add_spec(more.funding_income),
        less.trading_fees,
        more.trading_fees,
    );
}

/// A leg has earned what its symbol has earned since the baseline of the leg.
pub proof fn lemma_a_leg_earns_since_its_baseline(
    list: Seq<(Seq<char>, Double)>,
    exchange: Seq<char>,
    leg: PositionLeg,
    income: Seq<(Seq<char>, Double)>,
)
    requires
        entry_or_zero(income, leg.symbol@).finite(),
        entry_or_zero(list, exchange + ":"@ + leg.symbol@ + ":"@ + leg.side@).finite(),
    ensures
        ({
            let now = entry_or_zero(income, leg.symbol@);
            let before = entry_or_zero(list, exchange + ":"@ + leg.symbol@ + ":"@ + leg.side@);
            let r = earned(list, exchange, leg, income);
            &&& before.lt_spec(now) ==> positive(r)
            &&& now.lt_spec(before) ==> r.lt_spec(Double { bits: ZERO })
            &&& r.finite() ==> fine() * size(r.value() - (now.value() - before.value())) <= size(
                now.value() - before.value(),
            )
        }),
{
    let now = entry_or_zero(income, leg.symbol@);
    let before = entry_or_zero(list, exchange + ":"@ + leg.symbol@ + ":"@ + leg.side@);
    assert(funding_key(exchange, leg) == exchange + ":"@ + leg.symbol@ + ":"@ + leg.side@);
    lemma_neg_turns(before);
    let r = earned(list, exchange, leg, income);
    assert(!r.nan());
    lemma_sub_tells_the_larger(now, before);
    if r.finite() {
        lemma_difference_is_near(now, before);
    }
}

/// A position has earned and gained what its two legs have, and is as large as its
/// long leg was when it was entered.
pub proof fn lemma_a_position_is_its_two_legs(
    position: Position,
    token: Seq<char>,
    long: PositionLeg,
    short: PositionLeg,
)
    requires
        is_live_position(position, token, long, short),
        long.funding_earned.finite(),
        short.funding_earned.finite(),
        long.unrealized_pnl.finite(),
        short.unrealized_pnl.finite(),
        long.quantity.finite(),
        long.entry_price.finite(),
    ensures
        position.long == long && position.short == short && position.token@ == token,
        position.funding_earned.finite() ==> fine() * size(
            position.funding_earned.value() - (long.funding_earned.value() + short.funding_earned.value()),
        ) <= size(long.funding_earned.value() + short.funding_earned.value()),
        position.unrealized_pnl.finite() ==> fine() * size(
            position.unrealized_pnl.value() - (long.unrealized_pnl.value() + short.unrealized_pnl.value()),
        ) <= size(long.unrealized_pnl.value() + short.unrealized_pnl.value()),
        position.notional_usdt.finite() ==> fine() * size(
            position.notional_usdt.value() * one() - long.quantity.value() * long.entry_price.value(),
        ) <= size(long.quantity.value() * long.entry_price.value()) + fine() * one(),
{
    if position.funding_earned.finite() {
        lemma_sum_is_near(long.funding_earned, short.funding_earned);
    }
    if position.unrealized_pnl.finite() {
        lemma_sum_is_near(long.unrealized_pnl, short.unrealized_pnl);
    }
    if position.notional_usdt.finite() {
        lemma_product_is_near(long.quantity, long.entry_price);
    }
}

/// The sum of one more number.
proof fn lemma_total_of_one_more(values: Seq<Double>, x: Double)
    ensures
        total(values.push(x)) == total(values).add_spec(x),
        total(Seq::<Double>::empty()) == (Double { bits: MINUS_ZERO }),
{
    assert(values.push(x).drop_last() =~= values);
}

/// One more simulated position changes the balance on an exchange only where it has a
/// leg there: what the leg has gained is gained, and its margin is no longer
/// available.
pub proof fn lemma_a_position_ties_up_its_margin(
    before: ExchangeBalance,
    after: ExchangeBalance,
    exchange: Seq<char>,
    positions: Seq<Position>,
    more: Position,
)
    requires
        is_paper_balance(before, exchange, positions),
        is_paper_balance(after, exchange, positions.push(more)),
        more.notional_usdt.finite(),
        !more.notional_usdt.negative(),
        more.leverage >= 1,
        !before.available_usdt.nan(),
        !after.available_usdt.nan(),
        before.unrealized_pnl.finite(),
        after.unrealized_pnl.finite(),
        more.long.unrealized_pnl.finite(),
        more.short.unrealized_pnl.finite(),
        more.long.exchange@ != more.short.exchange@,
    ensures
        more.long.exchange@ != exchange && more.short.exchange@ != exchange ==> after.available_usdt
            == before.available_usdt && after.equity_usdt == before.equity_usdt && after.unrealized_pnl
            == before.unrealized_pnl,
        after.available_usdt.le_spec(before.available_usdt),
        more.long.exchange@ == exchange ==> fine() * size(
            after.unrealized_pnl.value() - (before.unrealized_pnl.value() + more.long.unrealized_pnl.value()),
        ) <= size(before.unrealized_pnl.value() + more.long.unrealized_pnl.value()),
        more.short.exchange@ == exchange ==> fine() * size(
            after.unrealized_pnl.value() - (before.unrealized_pnl.value() + more.short.unrealized_pnl.value()),
        ) <= size(before.unrealized_pnl.value() + more.short.unrealized_pnl.value()),
{
    let all = positions.push(more);
    assert(all.drop_last() =~= positions);
    assert(all.last() == more);
    let gains = paper_gains(positions, exchange);
    let used = used_margins(positions, exchange);
    let m = more.notional_usdt.div_spec(of_int(more.leverage as int));
    let start = Double { bits: FIFTY_THOUSAND };
    let zero = Double { bits: ZERO };
    if more.long.exchange@ == exchange || more.short.exchange@ == exchange {
        lemma_total_of_one_more(used, m);
        lemma_whole_number(more.leverage as int);
        lemma_quotient_sign(more.notional_usdt, of_int(more.leverage as int));
        let t = total(used);
        assert(!t.nan());
        assert(!t.add_spec(m).nan());
        lemma_zero_is_neutral(t);
        lemma_sum_monotone(t, t, zero, m);
        lemma_sub_monotone(start, start, t.add_spec(m), t);
    }
    if more.long.exchange@ == exchange {
        lemma_total_of_one_more(gains, more.long.unrealized_pnl);
        lemma_sum_is_near(total(gains), more.long.unrealized_pnl);
    } else if more.short.exchange@ == exchange {
        lemma_total_of_one_more(gains, more.short.unrealized_pnl);
        lemma_sum_is_near(total(gains), more.short.unrealized_pnl);
    }
}

/// The only simulated position with a leg on an exchange leaves there what was to
/// start with less its size over its leverage, and adds what the leg has gained.
pub proof fn lemma_the_only_position_ties_up_its_margin(
    balance: ExchangeBalance,
    exchange: Seq<char>,
    only: Position,
)
    requires
        is_paper_balance(balance, exchange, seq![only]),
        only.long.exchange@ == exchange || only.short.exchange@ == exchange,
        only.notional_usdt.finite(),
        !only.notional_usdt.negative(),
        only.leverage >= 1,
        balance.available_usdt.finite(),
    ensures
        ({
            let x = only.leverage * one();
            let start = (Double { bits: FIFTY_THOUSAND }).value();
            let left = start * x - only.notional_usdt.value() * one();
            fine() * size(balance.available_usdt.value() * x - left) <= 3 * (start * x) + 3 * (
            only.notional_usdt.value() * one()) + 2 * (fine() * x)
        }),
{
    let s = seq![only];
    assert(s.drop_last() =~= Seq::<Position>::empty());
    assert(s.last() == only);
    let m = only.notional_usdt.div_spec(of_int(only.leverage as int));
    lemma_total_of_one_more(Seq::<Double>::empty(), m);
    reveal_with_fuel(used_margins, 2);
    assert(used_margins(s, exchange) =~= Seq::<Double>::empty().push(m));
    lemma_left_of(Double { bits: FIFTY_THOUSAND }, only.notional_usdt, only.leverage as int);
}

/// What is left of a start once an amount over a leverage is tied up.
proof fn lemma_left_of(start: Double, amount: Double, leverage: int)
    requires
        start.finite(),
        !start.negative(),
        amount.finite(),
        !amount.negative(),
        1 <= leverage <= 0xff,
        start.sub_spec((Double { bits: MINUS_ZERO }).add_spec(amount.div_spec(of_int(leverage)))).finite(),
    ensures
        ({
            let a = start.sub_spec((Double { bits: MINUS_ZERO }).add_spec(amount.div_spec(of_int(leverage)))).value();
            let x = leverage * one();
            let b = start.value() * x;
            let w = amount.value() * one();
            fine() * size(a * x - (b - w)) <= 3 * b + 3 * w + 2 * (fine() * x)
        }),
{
    let n = of_int(leverage);
    let m = amount.div_spec(n);
    lemma_whole_number(leverage);
    lemma_quotient_sign(amount, n);
    let t = (Double { bits: MINUS_ZERO }).add_spec(m);
    assert(m.finite()) by {
        if m.infinite() {
            assert(t.infinite());
        }
    }
    lemma_sum_is_near(Double { bits: MINUS_ZERO }, m);
    lemma_quotient_is_near(amount, n);
    lemma_difference_is_near(start, t);
    assert(units(0) == 0);
    let f = fine();
    let u = one();
    let x = leverage * u;
    let a = start.sub_spec(t).value();
    let b = start.value();
    let mv = m.value();
    let tv = t.value();
    let w = amount.value() * u;
    lemma_pow2_pos(ONE_EXPONENT as nat);
    assert(tv == mv) by {
        lemma_zero_is_neutral(m);
        lemma_minus_zero_is_neutral(m);
    }
    assert(n.value() == x);
    let mx = mv * x;
    assert(size(amount.value()) * u == w);
    let bx = b * x;
    let ax = a * x;
    assert(x > 0) by (nonlinear_arith)
        requires
            x == leverage * u,
            leverage >= 1,
            u > 0,
    ;
    assert(mv >= 0 && b >= 0);
    lemma_both_sides(f, mx - w);
    lemma_both_sides(f, a - (b - tv));
    let d = a - (b - mv);
    assert(f * (ax - bx + mx) <= bx + mx && -(f * (ax - bx + mx)) <= bx + mx) by {
        assert(size(b - mv) <= b + mv);
        assert((f * d) * x <= (b + mv) * x && -((f * d) * x) <= (b + mv) * x) by (nonlinear_arith)
            requires
                f * d <= b + mv,
                -(f * d) <= b + mv,
                x > 0,
        ;
        assert((f * d) * x == f * (ax - bx + mx) && (b + mv) * x == bx + mx) by (nonlinear_arith)
            requires
                d == a - (b - mv),
                ax == a * x,
                bx == b * x,
                mx == mv * x,
        ;
    }
    assert(mx <= 2 * w + x) by (nonlinear_arith)
        requires
            f * (mx - w) <= w + f * x,
            f == 0x20_0000_0000_0000,
            w >= 0,
            x > 0,
    ;
    let e = ax - (bx - w);
    assert(f * e == f * (ax - bx + mx) - f * (mx - w)) by (nonlinear_arith)
        requires
            e == ax - (bx - w),
    ;
    lemma_size_is_one_of(f, e);
    assert(x <= f * x) by (nonlinear_arith)
        requires
            f == 0x20_0000_0000_0000,
            x > 0,
    ;
}

proof fn lemma_size_is_one_of(f: int, e: int)
    ensures
        f * size(e) == f * e || f * size(e) == -(f * e),
{
    if e < 0 {
        assert(f * (-e) == -(f * e)) by (nonlinear_arith);
    }
}

proof fn lemma_minus_zero_is_neutral(m: Double)
    requires
        m.finite(),
    ensures
        (Double { bits: MINUS_ZERO }).add_spec(m).finite(),
        (Double { bits: MINUS_ZERO }).add_spec(m).value() == m.value(),
{
    assert(units(0) == 0);
    crate::num::double::lemma_add_zero(m, Double { bits: MINUS_ZERO });
    crate::num::double::lemma_add_commutes(m, Double { bits: MINUS_ZERO });
}

/// The report on the real account adds up what the two exchanges say.
pub proof fn lemma_the_report_adds_up_both_exchanges(
    summary: AccountSummary,
    config: Config,
    binance: AccountBalance,
    bybit: AccountBalance,
    binance_legs: Seq<PositionLeg>,
    bybit_legs: Seq<PositionLeg>,
    binance_income: IncomeSummary,
    bybit_income: IncomeSummary,
)
    requires
        is_live_summary(
            summary,
            config,
            binance,
            bybit,
            binance_legs,
            bybit_legs,
            binance_income,
            bybit_income,
        ),
        summary.exchanges@[0].equity_usdt.finite(),
        summary.exchanges@[1].equity_usdt.finite(),
        summary.exchanges@[0].available_usdt.finite(),
        summary.exchanges@[1].available_usdt.finite(),
        summary.exchanges@[0].realized_pnl.finite(),
        summary.exchanges@[1].realized_pnl.finite(),
        summary.exchanges@[0].funding_income.finite(),
        summary.exchanges@[1].funding_income.finite(),
        summary.exchanges@[0].trading_fees.finite(),
        summary.exchanges@[1].trading_fees.finite(),
        summary.exchanges@[0].closed_position_pnl.finite(),
        summary.exchanges@[1].closed_position_pnl.finite(),
    ensures
        is_sum(summary.equity_usdt, summary.exchanges@[0].equity_usdt, summary.exchanges@[1].equity_usdt),
        is_sum(summary.available_usdt, summary.exchanges@[0].available_usdt, summary.exchanges@[1].available_usdt),
        is_sum(summary.realized_pnl, summary.exchanges@[0].realized_pnl, summary.exchanges@[1].realized_pnl),
        is_sum(summary.funding_income, summary.exchanges@[0].funding_income, summary.exchanges@[1].funding_income),
        is_sum(summary.trading_fees, summary.exchanges@[0].trading_fees, summary.exchanges@[1].trading_fees),
        is_sum(
            summary.closed_position_pnl,
            summary.exchanges@[0].closed_position_pnl,
            summary.exchanges@[1].closed_position_pnl,
        ),
        summary.exchanges@[0].exchange@ == "Binance"@ && summary.exchanges@[1].exchange@ == "Bybit"@,
{
    let a = summary.exchanges@[0];
    let b = summary.exchanges@[1];
    lemma_is_sum(a.equity_usdt, b.equity_usdt);
    lemma_is_sum(a.available_usdt, b.available_usdt);
    lemma_is_sum(a.realized_pnl, b.realized_pnl);
    lemma_is_sum(a.funding_income, b.funding_income);
    lemma_is_sum(a.trading_fees, b.trading_fees);
    lemma_is_sum(a.closed_position_pnl, b.closed_position_pnl);
}

/// Whether a number is the sum of two others, up to rounding.
pub open spec fn is_sum(x: Double, a: Double, b: Double) -> bool {
    x.finite() ==> fine() * size(x.value() - (a.value() + b.value())) <= size(a.value() + b.value())
}

proof fn lemma_is_sum(a: Double, b: Double)
    requires
        a.finite(),
        b.finite(),
    ensures
        is_sum(a.add_spec(b), a, b),
{
    if a.add_spec(b).finite() {
        lemma_sum_is_near(a, b);
    }
}

/// What is owed is a short leg: it gains where the price has fallen below the entry,
/// and the interest on it is a cost.
pub proof fn lemma_a_debt_is_a_short_leg(
    leg: PositionLeg,
    symbol: Seq<char>,
    debt: Debt,
    entry_price: Double,
    mark_price: Double,
)
    requires
        is_margin_leg(leg, symbol, debt, entry_price, mark_price),
        debt.total.finite(),
        !debt.total.negative(),
        debt.interest.finite(),
        !debt.interest.negative(),
        entry_price.finite(),
        mark_price.finite(),
        !mark_price.negative(),
        leg.unrealized_pnl.finite(),
        leg.funding_earned.finite(),
    ensures
        ({
            let zero = Double { bits: ZERO };
            let fallen = entry_price.value() - mark_price.value();
            let cost = debt.interest.value() * mark_price.value();
            &&& leg.side@ == "short"@ && leg.quantity == debt.total
            &&& fallen >= 0 ==> zero.le_spec(leg.unrealized_pnl)
            &&& fallen <= 0 ==> leg.unrealized_pnl.le_spec(zero)
            &&& fine() * size(leg.unrealized_pnl.value() * one() - fallen * debt.total.value()) <= 3 * size(
                fallen * debt.total.value(),
            ) + fine() * one()
            &&& leg.funding_earned.le_spec(zero)
            &&& fine() * size(leg.funding_earned.value() * one() + cost) <= cost + fine() * one()
        }),
{
    let zero = Double { bits: ZERO };
    let g = entry_price.sub_spec(mark_price);
    lemma_neg_turns(mark_price);
    lemma_neg_turns(debt.interest);
    assert(!g.nan());
    lemma_sub_tells_the_larger(entry_price, mark_price);
    lemma_order_is_numeric(entry_price, mark_price);
    lemma_order_is_numeric(mark_price, entry_price);
    lemma_product_sign(g, debt.total);
    lemma_gap_times(entry_price, mark_price, debt.total);
    let i = debt.interest.neg_spec();
    lemma_product_sign(i, mark_price);
    lemma_product_is_near(i, mark_price);
    let a = debt.interest.value();
    let b = mark_price.value();
    assert(a >= 0 && b >= 0);
    assert(a * b >= 0 && (-a) * b == -(a * b)) by (nonlinear_arith)
        requires
            a >= 0,
            b >= 0,
    ;
    if g.finite() && g.zero() {
    } else {
        assert(g.negative() == (entry_price.value() < mark_price.value()));
    }
}

/// What is owed holds the interest and what was borrowed.
pub proof fn lemma_a_debt_holds_its_interest(item: Json, borrowed: Double)
    requires
        item.member("borrowed"@).amount() == Some(borrowed),
        borrowed.finite(),
        debt_of(item).interest.finite(),
    ensures
        is_sum(debt_of(item).total, borrowed, debt_of(item).interest),
        item.member("interest"@).amount() matches Some(interest) ==> debt_of(item).interest == interest,
{
    lemma_is_sum(borrowed, debt_of(item).interest);
}

/// A sale adds what was sold and what was got for it to a book. A purchase takes no
/// more off than there is, and leaves nothing behind that was paid back.
pub proof fn lemma_sales_add_and_purchases_take_off(book: ShortBook, trade: Json, quantity: Double)
    requires
        trade.member("qty"@).amount() == Some(quantity),
        quantity.finite(),
        !quantity.negative(),
        book.quantity.finite(),
        !book.quantity.negative(),
        book.proceeds.finite(),
        !book.proceeds.negative(),
        quote_amount(trade).finite(),
    ensures
        ({
            let new = traded(book, trade);
            let buys = trade.member("isBuyer"@).flag() == Some(true);
            &&& !buys ==> is_sum(new.quantity, book.quantity, quantity) && is_sum(
                new.proceeds,
                book.proceeds,
                quote_amount(trade),
            )
            &&& buys ==> new.quantity.le_spec(book.quantity) && (Double { bits: ZERO }).le_spec(new.quantity)
                && new.proceeds.le_spec(book.proceeds) && (Double { bits: ZERO }).le_spec(new.proceeds)
            &&& buys && book.quantity.le_spec(quantity) ==> new.quantity.zero()
            &&& buys && quantity.le_spec(book.quantity) && new.quantity.finite() ==> fine() * size(
                new.quantity.value() - (book.quantity.value() - quantity.value()),
            ) <= size(book.quantity.value() - quantity.value())
        }),
{
    let zero = Double { bits: ZERO };
    let new = traded(book, trade);
    let buys = trade.member("isBuyer"@).flag() == Some(true);
    lemma_is_sum(book.quantity, quantity);
    lemma_is_sum(book.proceeds, quote_amount(trade));
    if buys && zero.lt_spec(book.quantity) {
        let reduced = quantity.min_spec(book.quantity);
        let average = book.proceeds.div_spec(book.quantity);
        lemma_quotient_sign(book.proceeds, book.quantity);
        assert(!reduced.negative() && reduced.finite() && reduced.le_spec(book.quantity));
        lemma_neg_turns(reduced);
        lemma_zero_is_neutral(book.quantity);
        lemma_sub_monotone(book.quantity, book.quantity, reduced, zero);
        lemma_sub_tells_the_larger(book.quantity, reduced);
        lemma_order_is_numeric(reduced, book.quantity);
        let paid = reduced.mul_spec(average);
        lemma_neg_turns(paid);
        lemma_zero_is_neutral(book.proceeds);
        if !paid.nan() {
            lemma_product_sign(reduced, average);
            assert(!book.proceeds.sub_spec(paid).nan());
            lemma_sub_monotone(book.proceeds, book.proceeds, paid, zero);
        }
        if quantity.le_spec(book.quantity) {
            lemma_order_is_numeric(quantity, book.quantity);
            lemma_order_is_numeric(book.quantity, quantity);
            assert(reduced.value() == quantity.value());
            lemma_difference_is_near(book.quantity, reduced);
        }
    }
}

/// A purchase takes off at the average price: what it takes off the proceeds has to them
/// the share that it takes off the quantity.
pub proof fn lemma_a_purchase_takes_off_at_the_average(book: ShortBook, trade: Json, quantity: Double)
    requires
        trade.member("qty"@).amount() == Some(quantity),
        trade.member("isBuyer"@).flag() == Some(true),
        sized(quantity, 200),
        sized(book.quantity, 200),
        sized(book.proceeds, 200),
        positive(book.quantity),
    ensures
        ({
            let new = traded(book, trade);
            let p = book.proceeds.value();
            let q = book.quantity.value();
            let r = if quantity.value() < q {
                quantity.value()
            } else {
                q
            };
            fine() * size((p - new.proceeds.value()) * q - r * p) <= 12 * (q * p)
        }),
{
    let zero = Double { bits: ZERO };
    let new = traded(book, trade);
    let reduced = quantity.min_spec(book.quantity);
    let average = book.proceeds.div_spec(book.quantity);
    let paid = reduced.mul_spec(average);
    let u = one();
    let f = fine();
    lemma_pow2_pos(ONE_EXPONENT as nat);
    lemma_order_is_numeric(quantity, book.quantity);
    lemma_order_is_numeric(book.quantity, quantity);
    lemma_order_is_numeric(zero, book.quantity);
    assert(units(0) == 0);
    let p = book.proceeds.value();
    let q = book.quantity.value();
    let r = reduced.value();
    lemma_about_itself(book.proceeds);
    lemma_about_itself(book.quantity);
    lemma_about_itself(reduced);
    lemma_about_quotient(book.proceeds, book.quantity, p, 1, q, 1, 0, 0, 200, 200);
    assert(p * 1 * u == p * u && 1 * q == q) by (nonlinear_arith);
    lemma_about_product(reduced, average, r, 1, p * u, q, 0, 4, 200, 400);
    let x = paid.value();
    let xq = x * q;
    let rp = r * p;
    let qp = q * p;
    assert(1 * q * u == q * u && r * (p * u) == rp * u && x * (q * u) == xq * u) by (nonlinear_arith)
        requires
            rp == r * p,
            xq == x * q,
    ;
    assert(f * xq <= (f + 6) * rp && (f - 6) * rp <= f * xq) by (nonlinear_arith)
        requires
            f * (xq * u) <= (f + 6) * (rp * u),
            (f - 6) * (rp * u) <= f * (xq * u),
            u > 0,
    ;
    assert(0 <= rp <= qp) by (nonlinear_arith)
        requires
            0 <= r <= q,
            p >= 0,
            rp == r * p,
            qp == q * p,
    ;
    assert(f * (xq - rp) <= 6 * qp && f * (rp - xq) <= 6 * qp) by (nonlinear_arith)
        requires
            f * xq <= (f + 6) * rp,
            (f - 6) * rp <= f * xq,
            0 <= rp <= qp,
    ;
    let left = book.proceeds.sub_spec(paid);
    lemma_neg_turns(paid);
    assert(!left.nan());
    lemma_sub_tells_the_larger(book.proceeds, paid);
    lemma_order_is_numeric(book.proceeds, paid);
    lemma_order_is_numeric(paid, book.proceeds);
    lemma_zero_is_neutral(book.proceeds);
    let d = p - new.proceeds.value();
    let dq = d * q;
    if p >= x {
        lemma_sub_monotone(book.proceeds, book.proceeds, paid, zero);
        assert(left.finite());
        lemma_difference_is_near(book.proceeds, paid);
        lemma_both_sides(f, left.value() - (p - x));
        assert(new.proceeds.value() == left.value());
        assert(f * (d - x) <= p && f * (x - d) <= p) by (nonlinear_arith)
            requires
                f * (left.value() - (p - x)) <= p - x,
                -(f * (left.value() - (p - x))) <= p - x,
                d == p - left.value(),
                x >= 0,
        ;
        assert(f * (dq - xq) <= qp && f * (xq - dq) <= qp) by (nonlinear_arith)
            requires
                f * (d - x) <= p,
                f * (x - d) <= p,
                dq == d * q,
                xq == x * q,
                qp == q * p,
                q > 0,
        ;
    } else {
        assert(new.proceeds.value() == 0);
        assert(dq == qp) by (nonlinear_arith)
            requires
                dq == d * q,
                qp == q * p,
                d == p,
        ;
        assert(xq >= qp) by (nonlinear_arith)
            requires
                xq == x * q,
                qp == q * p,
                x >= p,
                q > 0,
        ;
        assert(f * (xq - dq) <= 6 * qp && f * (dq - xq) <= 0) by (nonlinear_arith)
            requires
                f * xq <= (f + 6) * rp,
                0 <= rp <= qp,
                dq == qp,
                xq >= qp,
                f == 0x20_0000_0000_0000,
        ;
    }
    let e = dq - rp;
    assert(f * e == f * (dq - xq) + f * (xq - rp) && -(f * e) == f * (xq - dq) + f * (rp - xq)) by (nonlinear_arith)
        requires
            e == dq - rp,
    ;
    lemma_size_is_one_of(f, e);
}

/// The price at which what is owed was sold is what was got over what was sold.
pub proof fn lemma_entry_is_what_was_got_over_what_was_sold(book: ShortBook, debt: Double)
    requires
        book.quantity.finite(),
        book.proceeds.finite(),
    ensures
        entry_price_of(book, debt) matches Some(price) ==> {
            &&& positive(book.quantity)
            &&& positive(debt) || debt.nan()
            &&& price.finite() ==> fine() * size(
                price.value() * book.quantity.value() - book.proceeds.value() * one(),
            ) <= size(book.proceeds.value()) * one() + fine() * book.quantity.value()
        },
        positive(book.quantity) && positive(debt) ==> entry_price_of(book, debt) is Some,
{
    if let Some(price) = entry_price_of(book, debt) {
        if price.finite() {
            lemma_quotient_is_near(book.proceeds, book.quantity);
        }
    }
}

/// The price of a fill is what was paid over what was bought, where the answer does
/// not tell it, and the one that it tells otherwise.
pub proof fn lemma_the_price_of_a_fill_is_what_was_paid(response: Json, quantity: Double, quote: Double)
    requires
        response.member("executedQty"@).amount() == Some(quantity),
        quantity.finite(),
        positive(quantity),
        quote.finite(),
    ensures
        response.member("avgPrice"@).amount() matches Some(price) ==> positive(price) ==> futures_fill(response).2
            == price,
        response.member("avgPrice"@).amount() is None && response.member("cumQuote"@).amount() == Some(quote)
            && futures_fill(response).2.finite() ==> fine() * size(
            futures_fill(response).2.value() * quantity.value() - quote.value() * one(),
        ) <= size(quote.value()) * one() + fine() * quantity.value(),
        positive(quote) && response.member("cummulativeQuoteQty"@).amount() == Some(quote) && margin_fill(
            response,
        ).2.finite() ==> fine() * size(
            margin_fill(response).2.value() * quantity.value() - quote.value() * one(),
        ) <= size(quote.value()) * one() + fine() * quantity.value(),
        futures_fill(response).1 == quantity && margin_fill(response).1 == quantity,
{
    if quote.div_spec(quantity).finite() {
        lemma_quotient_is_near(quote, quantity);
    }
}

/// One more fill adds its quantity, and its price times its quantity to what was paid.
pub proof fn lemma_one_more_fill_is_added(fills: Seq<Json>, more: Json, quantity: Double, price: Double)
    requires
        more.member("qty"@).amount() == Some(quantity),
        more.member("price"@).amount() == Some(price),
        quantity.finite(),
        price.finite(),
        price.mul_spec(quantity).finite(),
        fills_total(fills).0.finite(),
        fills_total(fills).1.finite(),
    ensures
        is_sum(fills_total(fills.push(more)).1, fills_total(fills).1, quantity),
        is_sum(fills_total(fills.push(more)).0, fills_total(fills).0, price.mul_spec(quantity)),
{
    assert(fills.push(more).drop_last() =~= fills);
    assert(fills.push(more).last() == more);
    crate::num::double::lemma_mul_commutes(price, quantity);
    lemma_is_sum(fills_total(fills).1, quantity);
    lemma_is_sum(fills_total(fills).0, price.mul_spec(quantity));
}

/// The margin that a leg ties up is what it was entered for over its leverage.
pub proof fn lemma_tied_up_is_what_was_entered_for_over_the_leverage(leg: PositionLeg)
    requires
        sized(leg.quantity, 200),
        sized(leg.entry_price, 200),
    ensures
        about(
            initial_margin(leg),
            leg.quantity.value() * leg.entry_price.value() * one(),
            one() * (effective_leverage(leg) * one()),
            6,
        ),
{
    let u = one();
    lemma_pow2_pos(ONE_EXPONENT as nat);
    let x = effective_leverage(leg);
    lemma_whole_number(x);
    lemma_about_itself(leg.quantity);
    lemma_about_itself(leg.entry_price);
    let n = leg.quantity.value() * leg.entry_price.value();
    lemma_about_product(leg.quantity, leg.entry_price, leg.quantity.value(), 1, leg.entry_price.value(), 1, 0, 0, 200, 200);
    assert(1 * 1 * u == u) by (nonlinear_arith);
    lemma_about_quotient(leg.quantity.mul_spec(leg.entry_price), of_int(x), n, u, x * u, 1, 2, 0, 400, 32);
    assert(n * 1 * u == n * u) by (nonlinear_arith);
}

/// Of the wallet only that is available which no margin ties up.
pub proof fn lemma_available_is_what_no_margin_ties_up(
    old: AccountBalance,
    account: Json,
    legs: Seq<PositionLeg>,
    item: Json,
    wallet: Double,
)
    requires
        usdt_entry(account.member("B"@).elements()) == Some(item),
        item.member("cw"@).amount() == Some(wallet),
        wallet.finite(),
        !wallet.negative(),
        total(margins(legs)).finite(),
    ensures
        ({
            let r = binance_balance(old, account, legs).available;
            let tied = total(margins(legs));
            &&& (Double { bits: ZERO }).le_spec(r)
            &&& tied.value() >= 0 ==> r.le_spec(wallet)
            &&& tied.value() >= wallet.value() ==> r.zero()
            &&& tied.value() <= wallet.value() && r.finite() ==> fine() * size(
                r.value() - (wallet.value() - tied.value()),
            ) <= wallet.value() - tied.value()
        }),
{
    let zero = Double { bits: ZERO };
    let tied = total(margins(legs));
    let d = wallet.sub_spec(tied);
    lemma_neg_turns(tied);
    assert(!d.nan());
    lemma_sub_tells_the_larger(wallet, tied);
    lemma_order_is_numeric(wallet, tied);
    lemma_order_is_numeric(tied, wallet);
    lemma_order_is_numeric(zero, tied);
    lemma_zero_is_neutral(wallet);
    assert(units(0) == 0);
    if tied.value() >= 0 {
        lemma_sub_monotone(wallet, wallet, tied, zero);
    }
    if d.finite() {
        lemma_difference_is_near(wallet, tied);
    }
}

/// A step of a batch asks for no more than is left, and never for more than one order.
pub proof fn lemma_steps_do_not_overshoot(run: ReductionRun, increase: IncreaseRun)
    requires
        run.target.finite(),
        run.completed.finite(),
        run.order_notional.finite(),
        run.target.sub_spec(run.completed).finite(),
        increase.target.finite(),
        increase.completed.finite(),
        increase.order_notional.finite(),
        increase.target.sub_spec(increase.completed).finite(),
        !increase.spread_guard,
    ensures
        forall|quote: Opportunity|
            #![trigger increase.step_notional(quote)]
            is_step(
                increase.step_notional(quote),
                increase.order_notional,
                increase.target.value() - increase.completed.value(),
            ),
        is_step(run.step_notional(), run.order_notional, run.target.value() - run.completed.value()),
{
    lemma_is_step(run.order_notional, run.target, run.completed);
    lemma_is_step(increase.order_notional, increase.target, increase.completed);
}

/// A guarded step of a batch asks for no more than is left, and never for more than the top
/// of the book takes.
pub proof fn lemma_guarded_steps_fit_the_book(run: IncreaseRun, quote: Opportunity)
    requires
        run.spread_guard,
        run.target.finite(),
        run.completed.finite(),
        run.target.sub_spec(run.completed).finite(),
        top_notional(quote).finite(),
    ensures
        is_step(run.step_notional(quote), top_notional(quote), run.target.value() - run.completed.value()),
{
    lemma_is_step(top_notional(quote), run.target, run.completed);
}

/// The last step of a full close takes all that is left: only of a full close, and only
/// where no more than one order is left.
pub proof fn lemma_only_the_rest_is_closed(run: ReductionRun)
    requires
        run.target.finite(),
        run.completed.finite(),
        run.order_notional.finite(),
        run.target.sub_spec(run.completed).finite(),
    ensures
        ({
            let left = run.target.value() - run.completed.value();
            &&& run.closing() ==> run.close_all && fine() * (left - run.order_notional.value()) <= size(left)
            &&& run.close_all && !run.closing() ==> fine() * (run.order_notional.value() - left) <= size(left)
        }),
{
    let d = run.target.sub_spec(run.completed);
    let left = run.target.value() - run.completed.value();
    let o = run.order_notional.value();
    let f = fine();
    lemma_difference_is_near(run.target, run.completed);
    lemma_both_sides(f, d.value() - left);
    lemma_order_is_numeric(d, run.order_notional);
    if run.closing() {
        assert(f * (left - o) <= -(f * (d.value() - left))) by (nonlinear_arith)
            requires
                d.value() <= o,
                f == 0x20_0000_0000_0000,
        ;
    } else if run.close_all {
        assert(f * (o - left) <= f * (d.value() - left)) by (nonlinear_arith)
            requires
                o <= d.value(),
                f == 0x20_0000_0000_0000,
        ;
    }
}

/// Whether an amount is that of one order, or what is left where that is less.
pub open spec fn is_step(amount: Double, order: Double, left: int) -> bool {
    &&& amount.le_spec(order)
    &&& fine() * (amount.value() - left) <= size(left)
    &&& amount.eq_spec(order) || fine() * (left - amount.value()) <= size(left)
}

proof fn lemma_is_step(order: Double, target: Double, done: Double)
    requires
        order.finite(),
        target.finite(),
        done.finite(),
        target.sub_spec(done).finite(),
    ensures
        is_step(order.min_spec(target.sub_spec(done)), order, target.value() - done.value()),
{
    let d = target.sub_spec(done);
    let a = order.min_spec(d);
    let left = target.value() - done.value();
    let f = fine();
    lemma_difference_is_near(target, done);
    lemma_both_sides(f, d.value() - left);
    lemma_order_is_numeric(a, d);
    assert(f * (a.value() - left) <= f * (d.value() - left)) by (nonlinear_arith)
        requires
            a.value() <= d.value(),
            f == 0x20_0000_0000_0000,
    ;
    if a == d {
        assert(f * (left - d.value()) == -(f * (d.value() - left))) by (nonlinear_arith);
    }
}

/// What a batch has opened is what its position has grown by, never less than nothing
/// and never more than the target.
pub proof fn lemma_progress_is_what_was_gained(run: IncreaseRun, response: TradeResponse)
    requires
        run.target.finite(),
        !run.target.negative(),
        run.base_notional.finite(),
        response.position.notional_usdt.finite(),
        response.position.notional_usdt.sub_spec(run.base_notional).finite(),
    ensures
        ({
            let r = run.progress(response);
            let gained = response.position.notional_usdt.value() - run.base_notional.value();
            &&& (Double { bits: ZERO }).le_spec(r)
            &&& r.le_spec(run.target)
            &&& gained <= 0 ==> r.zero()
            &&& gained >= 0 ==> r.eq_spec(run.target) || fine() * size(r.value() - gained) <= gained
            &&& gained >= 0 ==> fine() * (r.value() - gained) <= gained
        }),
{
    let zero = Double { bits: ZERO };
    let d = response.position.notional_usdt.sub_spec(run.base_notional);
    let gained = response.position.notional_usdt.value() - run.base_notional.value();
    lemma_neg_turns(run.base_notional);
    lemma_difference_is_near(response.position.notional_usdt, run.base_notional);
    lemma_sub_tells_the_larger(response.position.notional_usdt, run.base_notional);
    lemma_order_is_numeric(response.position.notional_usdt, run.base_notional);
    lemma_order_is_numeric(run.base_notional, response.position.notional_usdt);
    let m = d.max_spec(zero);
    let r = m.min_spec(run.target);
    lemma_order_is_numeric(r, m);
    let f = fine();
    assert(units(0) == 0);
    if gained > 0 {
        assert(m == d);
        lemma_both_sides(f, d.value() - gained);
        assert(f * (r.value() - gained) <= f * (d.value() - gained)) by (nonlinear_arith)
            requires
                r.value() <= d.value(),
                f == 0x20_0000_0000_0000,
        ;
    } else {
        assert(m.zero());
        assert(f * 0 == 0) by (nonlinear_arith);
    }
}

/// A step of an automatic close has taken off what is gone of the position, and all
/// of it where it is closed.
pub proof fn lemma_taken_off_is_what_is_gone(remaining: Double, response: TradeResponse)
    requires
        remaining.finite(),
        response.position.notional_usdt.finite(),
        remaining.sub_spec(response.position.notional_usdt).finite(),
    ensures
        ({
            let r = taken_off(remaining, response);
            let gone = remaining.value() - response.position.notional_usdt.value();
            if response.position.status@ == "closed"@ {
                r == remaining
            } else {
                &&& (Double { bits: ZERO }).le_spec(r)
                &&& gone <= 0 ==> r.zero()
                &&& gone >= 0 ==> fine() * size(r.value() - gone) <= gone
            }
        }),
{
    let zero = Double { bits: ZERO };
    let left = response.position.notional_usdt;
    let d = remaining.sub_spec(left);
    lemma_neg_turns(left);
    lemma_difference_is_near(remaining, left);
    lemma_sub_tells_the_larger(remaining, left);
    lemma_order_is_numeric(remaining, left);
    lemma_order_is_numeric(left, remaining);
    assert(units(0) == 0);
    assert(fine() * 0 == 0) by (nonlinear_arith);
}

/// Whether a number is the sum of two others that are numbers, up to rounding.
pub open spec fn adds(x: Double, a: Double, b: Double) -> bool {
    a.finite() && b.finite() ==> is_sum(x, a, b)
}

/// The sum of two numbers adds them.
pub proof fn lemma_adds(a: Double, b: Double)
    ensures
        adds(a.add_spec(b), a, b),
{
    if a.finite() && b.finite() {
        lemma_is_sum(a, b);
    }
}

/// Whether a number has grown by another one, up to a limit.
pub open spec fn grows_up_to(new: Double, old: Double, by: Double, limit: Double) -> bool {
    old.finite() && by.finite() && limit.finite() && old.add_spec(by).finite() ==> {
        let sum = old.value() + by.value();
        &&& new.le_spec(limit)
        &&& fine() * (new.value() - sum) <= size(sum)
        &&& new.eq_spec(limit) || fine() * size(new.value() - sum) <= size(sum)
    }
}

/// The sum of two numbers, cut off at a limit, has grown up to it.
pub proof fn lemma_grows_up_to(old: Double, by: Double, limit: Double)
    ensures
        grows_up_to(old.add_spec(by).min_spec(limit), old, by, limit),
{
    let s = old.add_spec(by);
    let r = s.min_spec(limit);
    let f = fine();
    if old.finite() && by.finite() && limit.finite() && s.finite() {
        let k = old.value() + by.value();
        lemma_sum_is_near(old, by);
        lemma_both_sides(f, s.value() - k);
        lemma_order_is_numeric(r, s);
        assert(f * (r.value() - k) <= f * (s.value() - k)) by (nonlinear_arith)
            requires
                r.value() <= s.value(),
                f == 0x20_0000_0000_0000,
        ;
    }
}

/// Whether a debt is what fills fell short of the agreed spread.
pub open spec fn is_short_by(debt: Double, threshold: Double, completed: Double, edge: Double) -> bool {
    let agreed = threshold.mul_spec(completed);
    agreed.finite() && threshold.finite() && completed.finite() && edge.finite() ==> {
        &&& agreed.le_spec(edge) ==> debt.zero()
        &&& positive(debt) && debt.finite() ==> fine() * size(debt.value() - (agreed.value() - edge.value())) <= size(
            agreed.value() - edge.value(),
        )
    }
}

/// Whether a debt is what fills went over the agreed spread.
pub open spec fn is_over_by(debt: Double, threshold: Double, completed: Double, spread: Double) -> bool {
    let agreed = threshold.mul_spec(completed);
    agreed.finite() && threshold.finite() && completed.finite() && spread.finite() ==> {
        &&& spread.le_spec(agreed) ==> debt.zero()
        &&& positive(debt) && debt.finite() ==> fine() * size(debt.value() - (spread.value() - agreed.value())) <= size(
            spread.value() - agreed.value(),
        )
    }
}

/// A recovery is of what fills fell short of the agreed spread, or went over it.
pub proof fn lemma_recoveries_are_owed(recovery: SpreadRecovery, threshold: Double, completed: Double, edge: Double)
    ensures
        is_short_by(recovery.after_open(threshold, completed, edge).debt_usdt, threshold, completed, edge),
        is_over_by(recovery.after_close(threshold, completed, edge).debt_usdt, threshold, completed, edge),
{
    let agreed = threshold.mul_spec(completed);
    if agreed.finite() && threshold.finite() && completed.finite() && edge.finite() {
        lemma_missed_spread_is_owed(recovery, threshold, completed, edge, edge);
        lemma_exceeded_spread_is_owed(recovery, threshold, completed, edge, edge);
    }
}

/// Whether a number is the share that a part has of a whole.
pub open spec fn is_share(x: Double, part: Double, whole: Double) -> bool {
    x.finite() && part.finite() && whole.finite() && positive(whole) ==> fine() * size(
        x.value() * whole.value() - part.value() * one(),
    ) <= size(part.value()) * one() + fine() * whole.value()
}

/// A quotient is the share of what is divided.
pub proof fn lemma_is_share(part: Double, whole: Double)
    ensures
        is_share(part.div_spec(whole), part, whole),
{
    let x = part.div_spec(whole);
    if x.finite() && part.finite() && whole.finite() && positive(whole) {
        lemma_quotient_is_near(part, whole);
    }
}

/// A rule reads the yield of its position in percent. A reading below its threshold
/// counts, one that is not starts the count anew, and the third one in a row sets the
/// rule off.
pub proof fn lemma_a_rule_counts_low_readings(
    new: AutoCloseRule,
    old: AutoCloseRule,
    positions: Seq<Position>,
    now: i64,
    i: int,
    apy: Double,
)
    requires
        evaluated(new, old, positions, now),
        old.status@ == "armed"@,
        position_at(positions, old.position_id@) == Some(i),
        positions[i].current_apy == Some(apy),
        apy.finite(),
        old.consecutive_low_readings < u32::MAX,
    ensures
        new.current_apy_percent matches Some(percent) && {
            &&& percent.finite() ==> fine() * size(percent.value() - apy.value() * 100) <= size(apy.value() * 100)
                + fine()
            &&& percent.lt_spec(old.threshold_apy_percent) ==> new.consecutive_low_readings
                == old.consecutive_low_readings + 1
            &&& !percent.lt_spec(old.threshold_apy_percent) ==> new.consecutive_low_readings == 0
        },
        new.consecutive_low_readings >= 3 <==> new.status@ == "triggered"@,
{
    reveal_strlit("armed");
    reveal_strlit("triggered");
    assert("triggered"@[0] == 't');
    assert("armed"@[0] == 'a');
    lemma_percent_is_hundredfold(apy);
}

/// A number in percent is a hundred times the number.
pub proof fn lemma_percent_is_hundredfold(x: Double)
    requires
        x.finite(),
    ensures
        ({
            let p = x.mul_spec(Double { bits: HUNDRED });
            p.finite() ==> fine() * size(p.value() - x.value() * 100) <= size(x.value() * 100) + fine()
        }),
{
    let hundred = Double { bits: HUNDRED };
    let p = x.mul_spec(hundred);
    if p.finite() {
        lemma_order_sizes();
        lemma_product_is_near(x, hundred);
        let u = one();
        let f = fine();
        lemma_pow2_pos(ONE_EXPONENT as nat);
        let a = p.value();
        let b = x.value();
        let c = b * 100;
        assert(b * (100 * u) == c * u && a * u - c * u == (a - c) * u) by (nonlinear_arith)
            requires
                c == b * 100,
        ;
        lemma_size_scales(a - c, u);
        lemma_size_scales(c, u);
        let s = size(a - c);
        let t = size(c);
        assert(f * s <= t + f) by (nonlinear_arith)
            requires
                f * (s * u) <= t * u + f * u,
                u > 0,
        ;
    }
}

/// A target takes as many steps as cover it, and no more: one fewer would not.
pub proof fn lemma_steps_cover_the_target(target: Double, order: Double)
    requires
        target.finite(),
        !target.negative(),
        order.finite(),
        positive(order),
        target.div_spec(order).finite(),
        target.div_spec(order).value() <= 0x8000_0000 * one(),
    ensures
        ({
            let n = steps(target, order) as int;
            let t = target.value() * one();
            let o = one() * order.value();
            &&& fine() * (t - n * o) <= t + fine() * order.value()
            &&& target.value() == 0 ==> n == 0
            &&& n > 0 ==> fine() * ((n - 1) * o - t) <= t + fine() * order.value()
        }),
{
    let q = target.div_spec(order);
    let u = one();
    let f = fine();
    lemma_pow2_pos(ONE_EXPONENT as nat);
    lemma_quotient_sign(target, order);
    lemma_quotient_is_near(target, order);
    lemma_order_is_numeric(Double { bits: ZERO }, order);
    assert(units(0) == 0);
    let k = q.value();
    let o = order.value();
    let w = q.whole() as int;
    lemma_fundamental_div_mod(k, u);
    let n = if q.fractional() {
        w + 1
    } else {
        w
    };
    assert(w * u <= k < (w + 1) * u) by (nonlinear_arith)
        requires
            k == u * w + k % u,
            0 <= k % u < u,
    ;
    assert(w <= 0x8000_0000) by (nonlinear_arith)
        requires
            w * u <= k,
            k <= 0x8000_0000 * u,
            u > 0,
    ;
    lemma_whole_of(q, n as nat);
    assert(steps(target, order) == n);
    assert((n - 1) * u <= k <= n * u) by (nonlinear_arith)
        requires
            w * u <= k < (w + 1) * u,
            n == w + 1 || (n == w && k == w * u),
            u > 0,
    ;
    let ko = k * o;
    let t = target.value() * u;
    let uo = u * o;
    assert((n - 1) * uo <= ko <= n * uo) by (nonlinear_arith)
        requires
            (n - 1) * u <= k <= n * u,
            o > 0,
            ko == k * o,
            uo == u * o,
    ;
    lemma_both_sides(f, ko - t);
    assert(f * (t - n * uo) <= -(f * (ko - t))) by (nonlinear_arith)
        requires
            ko <= n * uo,
            f > 0,
    ;
    assert(f * ((n - 1) * uo - t) <= f * (ko - t)) by (nonlinear_arith)
        requires
            (n - 1) * uo <= ko,
            f > 0,
    ;
    if target.value() == 0 {
        assert(q.zero());
        assert(0int / u == 0) by (nonlinear_arith)
            requires
                u > 0,
        ;
    }
}

/// A whole number of thirty-two bits is kept as it is.
proof fn lemma_whole_of(q: Double, n: nat)
    requires
        q.finite(),
        !q.negative(),
        n <= 0x8000_0001,
    ensures
        q.with_whole(n).saturated(u32::MAX as nat) == n,
{
    let u = pow2(ONE_EXPONENT as nat);
    lemma_pow2_pos(ONE_EXPONENT as nat);
    if n > 0 {
        lemma_whole_number(n as int);
        assert(q.with_whole(n) == of_int(n as int));
        assert(of_int(n as int).value() == n * u);
    } else {
        assert(0 * u == 0) by (nonlinear_arith);
        lemma_round_at_most(0, 1, 0);
    }
    let x = q.with_whole(n);
    assert(units(0) == 0);
    assert(units(x.magnitude()) == n * u);
    lemma_fundamental_div_mod_converse((n * u) as int, u as int, n as int, 0);
}

/// One more simulated position is one more that is active; what it has gained is gained
/// in all, and its margins are no longer available.
pub proof fn lemma_the_report_counts_one_more_position(
    before: AccountSummary,
    after: AccountSummary,
    config: Config,
    positions: Seq<Position>,
    more: Position,
)
    requires
        is_paper_summary(before, config, positions),
        is_paper_summary(after, config, positions.push(more)),
        more.notional_usdt.finite(),
        !more.notional_usdt.negative(),
        more.leverage >= 1,
        !before.available_usdt.nan(),
        !after.available_usdt.nan(),
        before.unrealized_pnl.finite(),
        more.unrealized_pnl.finite(),
        more.notional_usdt.mul_spec(Double { bits: TWO }).finite(),
    ensures
        after.active_positions == before.active_positions + 1,
        is_sum(after.unrealized_pnl, before.unrealized_pnl, more.unrealized_pnl),
        after.available_usdt.le_spec(before.available_usdt),
{
    let all = positions.push(more);
    let gains = position_gains(positions);
    let used = position_margins(positions);
    let twice = more.notional_usdt.mul_spec(Double { bits: TWO });
    let n = of_int(more.leverage as int);
    let m = twice.div_spec(n);
    let start = Double { bits: HUNDRED_THOUSAND };
    let zero = Double { bits: ZERO };
    assert(position_gains(all) =~= gains.push(more.unrealized_pnl));
    assert(position_margins(all) =~= used.push(m));
    lemma_total_of_one_more(gains, more.unrealized_pnl);
    lemma_total_of_one_more(used, m);
    lemma_is_sum(total(gains), more.unrealized_pnl);
    lemma_whole_number(more.leverage as int);
    lemma_product_sign(more.notional_usdt, Double { bits: TWO });
    lemma_quotient_sign(twice, n);
    let t = total(used);
    assert(!t.nan());
    assert(!t.add_spec(m).nan());
    lemma_zero_is_neutral(t);
    lemma_sum_monotone(t, t, zero, m);
    lemma_sub_monotone(start, start, t.add_spec(m), t);
}

/// The only simulated position leaves what was to start with less twice its size over its
/// leverage, once for each leg.
pub proof fn lemma_the_report_ties_up_both_margins(summary: AccountSummary, config: Config, only: Position)
    requires
        is_paper_summary(summary, config, seq![only]),
        only.notional_usdt.finite(),
        !only.notional_usdt.negative(),
        only.leverage >= 1,
        only.notional_usdt.mul_spec(Double { bits: TWO }).finite(),
        summary.available_usdt.finite(),
    ensures
        ({
            let x = only.leverage * one();
            let start = (Double { bits: HUNDRED_THOUSAND }).value();
            let twice = 2 * (only.notional_usdt.value() * one());
            fine() * size(summary.available_usdt.value() * x - (start * x - twice)) <= 3 * (start * x) + 7 * twice + 2 * (
            fine() * x) + 4 * (fine() * one())
        }),
{
    let s = seq![only];
    let two = Double { bits: TWO };
    let amount = only.notional_usdt.mul_spec(two);
    let m = amount.div_spec(of_int(only.leverage as int));
    lemma_total_of_one_more(Seq::<Double>::empty(), m);
    assert(position_margins(s) =~= Seq::<Double>::empty().push(m));
    lemma_product_sign(only.notional_usdt, two);
    lemma_left_of(Double { bits: HUNDRED_THOUSAND }, amount, only.leverage as int);
    lemma_constants();
    lemma_product_is_near(only.notional_usdt, two);
    let f = fine();
    let u = one();
    lemma_pow2_pos(ONE_EXPONENT as nat);
    let x = only.leverage * u;
    let b = (Double { bits: HUNDRED_THOUSAND }).value() * x;
    let n = only.notional_usdt.value();
    let w = amount.value() * u;
    let t = 2 * (n * u);
    assert(n * (2 * u) == t) by (nonlinear_arith)
        requires
            t == 2 * (n * u),
    ;
    assert(t >= 0) by (nonlinear_arith)
        requires
            t == 2 * (n * u),
            n >= 0,
            u > 0,
    ;
    let fu = f * u;
    lemma_both_sides(f, w - t);
    assert(w <= 2 * t + u) by (nonlinear_arith)
        requires
            f * (w - t) <= t + fu,
            fu == f * u,
            f == 0x20_0000_0000_0000,
            t >= 0,
            u > 0,
    ;
    assert(u <= fu) by (nonlinear_arith)
        requires
            fu == f * u,
            f == 0x20_0000_0000_0000,
            u > 0,
    ;
    let a = summary.available_usdt.value() * x;
    let y = a - (b - w);
    let z = a - (b - t);
    lemma_both_sides(f, y);
    assert(f * z == f * y - f * (w - t)) by (nonlinear_arith)
        requires
            y == a - (b - w),
            z == a - (b - t),
    ;
    lemma_size_is_one_of(f, z);
}

/// What is open takes as many guarded batches of fifty USDT as cover it, and one at
/// least.
pub proof fn lemma_batches_cover_what_is_open(remaining: Double)
    requires
        remaining.finite(),
        !remaining.negative(),
        remaining.value() <= 0x8000_0000 * one(),
    ensures
        ({
            let n = batches_left(remaining) as int;
            let t = remaining.value();
            &&& n >= 1
            &&& fine() * (t - n * (50 * one())) <= t + 50 * fine()
            &&& n > 1 ==> fine() * ((n - 1) * (50 * one()) - t) <= t + 50 * fine()
        }),
{
    let order = Double { bits: FIFTY };
    let q = remaining.div_spec(order);
    let u = one();
    let f = fine();
    lemma_pow2_pos(ONE_EXPONENT as nat);
    lemma_order_sizes();
    lemma_quotient_sign(remaining, order);
    let v = units(remaining.magnitude());
    let w = units(FIFTY as nat);
    assert(v * u <= v * w) by (nonlinear_arith)
        requires
            w == 50 * u,
            u > 0,
            v >= 0,
    ;
    lemma_round_at_most(v * pow2(ONE_EXPONENT as nat), w, remaining.magnitude());
    assert(q.finite() && q.le_spec(remaining));
    lemma_order_is_numeric(q, remaining);
    lemma_steps_cover_the_target(remaining, order);
    let k = steps(remaining, order) as int;
    lemma_at_least_one_batch(q);
    let n = batches_left(remaining) as int;
    assert(n == (if k < 1 {
        1
    } else {
        k
    }));
    let t = remaining.value();
    let o = 50 * u;
    assert(u * o == o * u && t * u == t * u && f * o == (50 * f) * u) by (nonlinear_arith)
        requires
            o == 50 * u,
    ;
    let uo = u * o;
    assert(k * uo == (k * o) * u && (k - 1) * uo == ((k - 1) * o) * u) by (nonlinear_arith)
        requires
            uo == u * o,
    ;
    let ko = k * o;
    assert(f * (t - ko) <= t + 50 * f) by (nonlinear_arith)
        requires
            f * (t * u - ko * u) <= t * u + (50 * f) * u,
            u > 0,
    ;
    if k >= 1 {
        let k1 = (k - 1) * o;
        assert(f * (k1 - t) <= t + 50 * f) by (nonlinear_arith)
            requires
                f * (k1 * u - t * u) <= t * u + (50 * f) * u,
                u > 0,
        ;
    } else {
        assert(k == 0);
        assert(f * (t - 1 * o) <= f * (t - ko)) by (nonlinear_arith)
            requires
                ko == k * o,
                k == 0,
                o >= 0,
                f == 0x20_0000_0000_0000,
        ;
    }
}

/// The larger of a number of batches and one.
proof fn lemma_at_least_one_batch(q: Double)
    requires
        q.finite(),
        !q.negative(),
        q.value() <= 0x8000_0000 * one(),
    ensures
        ({
            let k = q.ceil_spec().saturated(u32::MAX as nat);
            q.ceil_spec().max_spec(Double { bits: ONE }).saturated(u32::MAX as nat) == (if k < 1 {
                1
            } else {
                k
            })
        }),
{
    let u = one();
    lemma_pow2_pos(ONE_EXPONENT as nat);
    let k = q.value();
    let w = q.whole() as int;
    lemma_fundamental_div_mod(k, u);
    assert(w <= 0x8000_0000) by (nonlinear_arith)
        requires
            k == u * w + k % u,
            0 <= k % u < u,
            k <= 0x8000_0000 * u,
            u > 0,
    ;
    let n: nat = if q.fractional() {
        (w + 1) as nat
    } else {
        w as nat
    };
    let c = q.ceil_spec();
    assert(c == q.with_whole(n));
    lemma_whole_of(q, n);
    lemma_one();
    let full = Double { bits: ONE };
    assert(full.whole() == 1) by {
        lemma_fundamental_div_mod_converse(u, u, 1, 0);
    }
    if n == 0 {
        assert(0 * u == 0) by (nonlinear_arith);
        lemma_round_at_most(0, 1, 0);
        assert(c.zero());
        assert(c.max_spec(full) == full);
    } else {
        lemma_whole_number(n as int);
        assert(c == of_int(n as int));
        assert(c.value() >= u) by (nonlinear_arith)
            requires
                c.value() == n * u,
                n >= 1,
                u > 0,
        ;
        lemma_order_is_numeric(full, c);
        lemma_order_is_numeric(c, full);
        assert(c.max_spec(full) == c || (c.max_spec(full) == full && c.place() == full.place()));
    }
}

/// One more line of a task adds its quantity to the side that it was filled on, and to
/// no other.
pub proof fn lemma_one_more_line_counts_on_its_side(
    logs: Seq<BatchExecutionLog>,
    more: BatchExecutionLog,
    side: Seq<char>,
)
    requires
        fills_on(logs, side).finite(),
        more.executed_quantity.finite(),
    ensures
        more.side@ != side ==> fills_on(logs.push(more), side) == fills_on(logs, side),
        more.side@ == side && positive(more.executed_quantity) ==> is_sum(
            fills_on(logs.push(more), side),
            fills_on(logs, side),
            more.executed_quantity,
        ),
{
    assert(logs.push(more).drop_last() =~= logs);
    assert(logs.push(more).last() == more);
    lemma_is_sum(fills_on(logs, side), more.executed_quantity);
}

/// A leg that has a counterpart is the counterpart of that one too.
pub proof fn lemma_hedging_is_mutual(legs: Seq<PositionLeg>, i: int, j: int)
    requires
        0 <= i < legs.len(),
        0 <= j < legs.len(),
        legs[i].symbol@ == legs[j].symbol@,
        legs[i].side@ != legs[j].side@,
        legs[i].exchange@ != legs[j].exchange@ || legs[i].market@ != legs[j].market@,
    ensures
        is_hedged(legs[i], legs),
        is_hedged(legs[j], legs),
{
    assert(matches_other(legs[i], legs[j]));
    assert(matches_other(legs[j], legs[i]));
}

/// A leg none of whose symbol is held on the other side is without a hedge.
pub proof fn lemma_a_lone_leg_is_not_hedged(legs: Seq<PositionLeg>, leg: PositionLeg)
    requires
        forall|i: int| 0 <= i < legs.len() ==> (#[trigger] legs[i]).symbol@ != leg.symbol@ || legs[i].side@ == leg.side@,
    ensures
        !is_hedged(leg, legs),
{
}

/// What a fill is worth is its quantity at its price.
pub proof fn lemma_a_fill_is_worth_its_quantity_at_its_price(order: OrderExecution)
    requires
        order.executed_quantity.finite(),
        order.average_price.finite(),
        filled(order).finite(),
    ensures
        fine() * size(filled(order).value() * one() - order.executed_quantity.value() * order.average_price.value())
            <= size(order.executed_quantity.value() * order.average_price.value()) + fine() * one(),
{
    lemma_product_is_near(order.executed_quantity, order.average_price);
}

} // verus!
