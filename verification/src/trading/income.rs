//! What was earned and paid over the last week.

use crate::failure::{Failure, Reason};
use crate::json::{number, render, rendered, Json};
use crate::ledger::{entries, entry_at, find_entry};
use crate::num::constants::ZERO;
use crate::num::sums::{sum, total};
use crate::num::Double;
use crate::sorting::occurs_among;
use crate::text::{decimal, int_text, join};
use crate::trading::orders::{accepted, is_accepted};
use crate::trading::service::is_held;
use crate::trading::amounts::{funding_bucket, funding_refresh_bucket};
use vstd::prelude::*;
use vstd::string::StringExecFns;

verus! {

/// The amounts with one added to that of a name.
pub open spec fn credited(list: Seq<(Seq<char>, Double)>, name: Seq<char>, amount: Double) -> Seq<
    (Seq<char>, Double),
> {
    match entry_at(list, name) {
        Some(i) => list.update(i, (name, list[i].1.add_spec(amount))),
        None => list.push((name, (Double { bits: ZERO }).add_spec(amount))),
    }
}

fn credit(list: &mut Vec<(String, Double)>, name: &str, amount: Double)
    ensures
        entries(final(list)@) == credited(entries(old(list)@), name@, amount),
{
    let ghost before = entries(list@);
    match find_entry(list, name) {
        Some(i) => {
            let grown = list[i].1.add(amount);
            list.set(i, (name.to_owned(), grown));
        },
        None => {
            list.push((name.to_owned(), (Double { bits: ZERO }).add(amount)));
        },
    }
    proof {
        assert(entries(list@) =~= credited(before, name@, amount));
    }
}

/// What one line of a statement is about: a symbol and an amount, if both are
/// there.
pub open spec fn posting(item: Json, field: Seq<char>) -> Option<(Seq<char>, Double)> {
    match (item.member("symbol"@).string(), item.member(field).amount()) {
        (Some(symbol), Some(amount)) => Some((symbol, amount)),
        _ => None,
    }
}

/// An amount, or what it costs.
pub open spec fn signed_amount(amount: Double, negate: bool) -> Double {
    if negate {
        amount.neg_spec()
    } else {
        amount
    }
}

/// The amounts with the lines of a statement added.
pub open spec fn posted(list: Seq<(Seq<char>, Double)>, items: Seq<Json>, field: Seq<char>, negate: bool) -> Seq<
    (Seq<char>, Double),
>
    decreases items.len(),
{
    if items.len() == 0 {
        list
    } else {
        let before = posted(list, items.drop_last(), field, negate);
        match posting(items.last(), field) {
            Some(p) => credited(before, p.0, signed_amount(p.1, negate)),
            None => before,
        }
    }
}

/// A sum with the lines of a statement added.
pub open spec fn posted_sum(start: Double, items: Seq<Json>, field: Seq<char>, negate: bool) -> Double
    decreases items.len(),
{
    if items.len() == 0 {
        start
    } else {
        let before = posted_sum(start, items.drop_last(), field, negate);
        match posting(items.last(), field) {
            Some(p) => before.add_spec(signed_amount(p.1, negate)),
            None => before,
        }
    }
}

fn post(list: &mut Vec<(String, Double)>, start: Double, items: &Json, field: &str, negate: bool) -> (r: Double)
    ensures
        entries(final(list)@) == posted(entries(old(list)@), items.elements(), field@, negate),
        r == posted_sum(start, items.elements(), field@, negate),
{
    let ghost at_first = entries(list@);
    let ghost all = items.elements();
    let mut r = start;
    let rows = match items.as_array() {
        Some(rows) => rows,
        None => return r,
    };
    let mut i: usize = 0;
    proof {
        assert(all.take(0) =~= Seq::<Json>::empty());
    }
    while i < rows.len()
        invariant
            i <= rows@.len(),
            all == rows@,
            entries(list@) == posted(at_first, all.take(i as int), field@, negate),
            r == posted_sum(start, all.take(i as int), field@, negate),
        decreases rows@.len() - i,
    {
        proof {
            assert(all.take(i as int + 1).drop_last() =~= all.take(i as int));
        }
        let item = &rows[i];
        if let Some(symbol) = item.get("symbol").as_str() {
            if let Some(amount) = number(item.get(field)) {
                let signed = if negate {
                    amount.neg()
                } else {
                    amount
                };
                credit(list, symbol, signed);
                r = r.add(signed);
            }
        }
        i = i + 1;
    }
    proof {
        assert(all.take(all.len() as int) =~= all);
    }
    r
}

/// What was earned and paid on one exchange, by symbol and in all.
pub struct IncomeSummary {
    pub funding_by_symbol: Vec<(String, Double)>,
    pub trading_fees_by_symbol: Vec<(String, Double)>,
    pub closed_pnl_by_symbol: Vec<(String, Double)>,
    pub closed_position_pnl: Double,
    pub funding_income: Double,
    pub trading_fees: Double,
}

/// The amounts of the names that count.
pub open spec fn scoped(list: Seq<(Seq<char>, Double)>, symbols: Seq<String>) -> Seq<(Seq<char>, Double)>
    decreases list.len(),
{
    if list.len() == 0 {
        Seq::empty()
    } else {
        let before = scoped(list.drop_last(), symbols);
        if occurs_among(symbols, list.last().0) {
            before.push(list.last())
        } else {
            before
        }
    }
}

/// The amounts alone.
pub open spec fn amounts_of(list: Seq<(Seq<char>, Double)>) -> Seq<Double> {
    Seq::new(list.len(), |i: int| list[i].1)
}

fn scope(list: &Vec<(String, Double)>, symbols: &Vec<String>) -> (r: Vec<(String, Double)>)
    ensures
        entries(r@) == scoped(entries(list@), symbols@),
{
    let ghost all = entries(list@);
    let mut r: Vec<(String, Double)> = Vec::new();
    let mut i: usize = 0;
    proof {
        assert(all.take(0) =~= Seq::<(Seq<char>, Double)>::empty());
        assert(entries(r@) =~= Seq::<(Seq<char>, Double)>::empty());
    }
    while i < list.len()
        invariant
            i <= list@.len(),
            all == entries(list@),
            entries(r@) == scoped(all.take(i as int), symbols@),
        decreases list@.len() - i,
    {
        let ghost before = entries(r@);
        proof {
            assert(all.take(i as int + 1).drop_last() =~= all.take(i as int));
        }
        if is_held(symbols, list[i].0.as_str()) {
            r.push((list[i].0.clone(), list[i].1));
            proof {
                assert(entries(r@) =~= before.push(all[i as int]));
            }
        }
        i = i + 1;
    }
    proof {
        assert(all.take(all.len() as int) =~= all);
    }
    r
}

fn sum_of(list: &Vec<(String, Double)>) -> (r: Double)
    ensures
        r == total(amounts_of(entries(list@))),
{
    let mut values: Vec<Double> = Vec::new();
    let mut i: usize = 0;
    while i < list.len()
        invariant
            i <= list@.len(),
            values@.len() == i,
            forall|k: int| 0 <= k < i ==> #[trigger] values@[k] == list@[k].1,
        decreases list@.len() - i,
    {
        values.push(list[i].1);
        i = i + 1;
    }
    proof {
        assert(values@ =~= amounts_of(entries(list@)));
    }
    sum(&values)
}

impl IncomeSummary {
    /// Nothing earned and nothing paid.
    pub open spec fn is_none(self) -> bool {
        let zero = Double { bits: ZERO };
        &&& self.funding_by_symbol@ == Seq::<(String, Double)>::empty()
        &&& self.trading_fees_by_symbol@ == Seq::<(String, Double)>::empty()
        &&& self.closed_pnl_by_symbol@ == Seq::<(String, Double)>::empty()
        &&& self.closed_position_pnl == zero
        &&& self.funding_income == zero
        &&& self.trading_fees == zero
    }

    pub fn new() -> (summary: IncomeSummary)
        ensures
            summary.is_none(),
    {
        let zero = Double { bits: ZERO };
        IncomeSummary {
            funding_by_symbol: Vec::new(),
            trading_fees_by_symbol: Vec::new(),
            closed_pnl_by_symbol: Vec::new(),
            closed_position_pnl: zero,
            funding_income: zero,
            trading_fees: zero,
        }
    }

    /// What is left: what was closed and the funding, less the fees.
    pub open spec fn realized(self) -> Double {
        self.closed_position_pnl.add_spec(self.funding_income).sub_spec(self.trading_fees)
    }

    pub fn realized_pnl(&self) -> (r: Double)
        ensures
            r == self.realized(),
    {
        self.closed_position_pnl.add(self.funding_income).sub(self.trading_fees)
    }

    /// Whether this is another summary, cut down to some symbols.
    pub open spec fn is_scoped(self, whole: IncomeSummary, symbols: Seq<String>) -> bool {
        &&& entries(self.funding_by_symbol@) == scoped(entries(whole.funding_by_symbol@), symbols)
        &&& entries(self.trading_fees_by_symbol@) == scoped(entries(whole.trading_fees_by_symbol@), symbols)
        &&& entries(self.closed_pnl_by_symbol@) == scoped(entries(whole.closed_pnl_by_symbol@), symbols)
        &&& self.closed_position_pnl == total(amounts_of(entries(self.closed_pnl_by_symbol@)))
        &&& self.funding_income == total(amounts_of(entries(self.funding_by_symbol@)))
        &&& self.trading_fees == total(amounts_of(entries(self.trading_fees_by_symbol@)))
    }

    /// The summary of some symbols.
    pub fn for_symbols(&self, symbols: &Vec<String>) -> (summary: IncomeSummary)
        ensures
            summary.is_scoped(*self, symbols@),
    {
        let funding_by_symbol = scope(&self.funding_by_symbol, symbols);
        let trading_fees_by_symbol = scope(&self.trading_fees_by_symbol, symbols);
        let closed_pnl_by_symbol = scope(&self.closed_pnl_by_symbol, symbols);
        IncomeSummary {
            closed_position_pnl: sum_of(&closed_pnl_by_symbol),
            funding_income: sum_of(&funding_by_symbol),
            trading_fees: sum_of(&trading_fees_by_symbol),
            funding_by_symbol,
            trading_fees_by_symbol,
            closed_pnl_by_symbol,
        }
    }

    /// The summary of three statements of Binance: funding, commissions and
    /// settled gains. Commissions are booked as what they cost.
    pub fn of_binance(funding: &Json, commissions: &Json, realized: &Json) -> (summary: IncomeSummary)
        ensures
            ({
                let none = Seq::<(Seq<char>, Double)>::empty();
                let zero = Double { bits: ZERO };
                &&& entries(summary.funding_by_symbol@) == posted(none, funding.elements(), "income"@, false)
                &&& summary.funding_income == posted_sum(zero, funding.elements(), "income"@, false)
                &&& entries(summary.trading_fees_by_symbol@) == posted(
                    none,
                    commissions.elements(),
                    "income"@,
                    true,
                )
                &&& summary.trading_fees == posted_sum(zero, commissions.elements(), "income"@, true)
                &&& entries(summary.closed_pnl_by_symbol@) == posted(
                    none,
                    realized.elements(),
                    "income"@,
                    false,
                )
                &&& summary.closed_position_pnl == posted_sum(zero, realized.elements(), "income"@, false)
            }),
    {
        let mut summary = IncomeSummary::new();
        proof {
            assert(entries(Seq::<(String, Double)>::empty()) =~= Seq::<(Seq<char>, Double)>::empty());
        }
        let zero = Double { bits: ZERO };
        summary.funding_income = post(&mut summary.funding_by_symbol, zero, funding, "income", false);
        summary.trading_fees = post(
            &mut summary.trading_fees_by_symbol,
            zero,
            commissions,
            "income",
            true,
        );
        summary.closed_position_pnl = post(
            &mut summary.closed_pnl_by_symbol,
            zero,
            realized,
            "income",
            false,
        );
        summary
    }

    /// Whether this is another summary with a page of Bybit's statement added.
    pub open spec fn adds_page(self, old: IncomeSummary, items: Seq<Json>) -> bool {
        &&& entries(self.closed_pnl_by_symbol@) == posted(
            entries(old.closed_pnl_by_symbol@),
            items,
            "cashFlow"@,
            false,
        )
        &&& self.closed_position_pnl == posted_sum(old.closed_position_pnl, items, "cashFlow"@, false)
        &&& entries(self.funding_by_symbol@) == posted(
            entries(old.funding_by_symbol@),
            items,
            "funding"@,
            false,
        )
        &&& self.funding_income == posted_sum(old.funding_income, items, "funding"@, false)
        &&& entries(self.trading_fees_by_symbol@) == posted(
            entries(old.trading_fees_by_symbol@),
            items,
            "fee"@,
            false,
        )
        &&& self.trading_fees == posted_sum(old.trading_fees, items, "fee"@, false)
    }
}

/// The most pages that are read of Bybit's statement.
pub const STATEMENT_PAGES: u8 = 20;

/// Reading Bybit's statement page by page.
pub struct BybitStatement {
    pub start: i64,
    pub end: i64,
    pub pages: u8,
    pub cursor: Option<String>,
    pub summary: IncomeSummary,
}

/// How far back a statement goes, in milliseconds: seven days.
pub const STATEMENT_MILLIS: i64 = 604800000;

/// The path of a page of Bybit's statement.
pub open spec fn statement_path(start: int, end: int, cursor: Option<String>) -> Seq<char> {
    let path =
        "/v5/account/transaction-log?accountType=UNIFIED&category=linear&currency=USDT&startTime="@
        + decimal(start) + "&endTime="@ + decimal(end) + "&limit=50"@;
    match cursor {
        Some(c) => path + "&cursor="@ + c@,
        None => path,
    }
}

/// The query of one of Binance's statements.
pub open spec fn income_query(kind: Seq<char>, start: int, now: int) -> Seq<char> {
    "incomeType="@ + kind + "&startTime="@ + decimal(start) + "&endTime="@ + decimal(now)
        + "&limit=1000&timestamp="@ + decimal(now)
}

/// The query of one of Binance's statements over the last seven days.
pub fn binance_income_query(kind: &str, now: i64) -> (query: String)
    requires
        now >= i64::MIN + STATEMENT_MILLIS,
    ensures
        query@ == income_query(kind@, now - STATEMENT_MILLIS, now as int),
{
    let mut query = join("incomeType=", kind);
    query.append("&startTime=");
    query.append(int_text(now - STATEMENT_MILLIS).as_str());
    query.append("&endTime=");
    query.append(int_text(now).as_str());
    query.append("&limit=1000&timestamp=");
    query.append(int_text(now).as_str());
    query
}

/// Where the next page of a statement begins, if there is one.
pub open spec fn next_cursor(answer: Json) -> Option<Seq<char>> {
    match answer.member("result"@).member("nextPageCursor"@).string() {
        Some(c) => if c.len() > 0 {
            Some(c)
        } else {
            None
        },
        None => None,
    }
}

impl BybitStatement {
    pub open spec fn wf(self) -> bool {
        self.pages <= STATEMENT_PAGES
    }

    pub fn new(now: i64) -> (s: BybitStatement)
        requires
            now >= i64::MIN + STATEMENT_MILLIS,
        ensures
            s.wf(),
            s.start == now - STATEMENT_MILLIS,
            s.end == now,
            s.pages == 0,
            s.cursor is None,
            s.summary.is_none(),
    {
        BybitStatement {
            start: now - STATEMENT_MILLIS,
            end: now,
            pages: 0,
            cursor: None,
            summary: IncomeSummary::new(),
        }
    }

    /// The path of the next page.
    pub fn path(&self) -> (path: String)
        ensures
            path@ == statement_path(self.start as int, self.end as int, self.cursor),
    {
        let mut path = join(
            "/v5/account/transaction-log?accountType=UNIFIED&category=linear&currency=USDT&startTime=",
            int_text(self.start).as_str(),
        );
        path.append("&endTime=");
        path.append(int_text(self.end).as_str());
        path.append("&limit=50");
        if let Some(cursor) = &self.cursor {
            path.append("&cursor=");
            path.append(cursor.as_str());
        }
        path
    }

    /// Takes in a page. The result says whether another one has to be read: at
    /// most twenty are.
    pub fn on_page(&mut self, answer: &Json) -> (r: Result<bool, Failure>)
        requires
            old(self).wf(),
            old(self).pages < STATEMENT_PAGES,
        ensures
            final(self).wf(),
            final(self).start == old(self).start,
            final(self).end == old(self).end,
            if accepted(*answer) {
                &&& final(self).pages == old(self).pages + 1
                &&& final(self).summary.adds_page(
                    old(self).summary,
                    answer.member("result"@).member("list"@).elements(),
                )
                &&& match next_cursor(*answer) {
                    Some(c) => final(self).cursor is Some && final(self).cursor->0@ == c,
                    None => final(self).cursor is None,
                }
                &&& r == Ok::<bool, Failure>(
                    next_cursor(*answer) is Some && final(self).pages < STATEMENT_PAGES,
                )
            } else {
                &&& *final(self) == *old(self)
                &&& r matches Err(f)
                &&& f.cause is None
                &&& f.reason matches Reason::TransactionLogRejected { message }
                &&& message@ == rendered(answer.member("retMsg"@))
            },
    {
        if !is_accepted(answer) {
            return Err(
                Failure::new(Reason::TransactionLogRejected { message: render(answer.get("retMsg")) }),
            );
        }
        let list = answer.get("result").get("list");
        self.summary.closed_position_pnl = post(
            &mut self.summary.closed_pnl_by_symbol,
            self.summary.closed_position_pnl,
            list,
            "cashFlow",
            false,
        );
        self.summary.funding_income = post(
            &mut self.summary.funding_by_symbol,
            self.summary.funding_income,
            list,
            "funding",
            false,
        );
        self.summary.trading_fees = post(
            &mut self.summary.trading_fees_by_symbol,
            self.summary.trading_fees,
            list,
            "fee",
            false,
        );
        self.pages = self.pages + 1;
        self.cursor = match answer.get("result").get("nextPageCursor").as_str() {
            Some(c) => {
                if c.unicode_len() > 0 {
                    Some(c.to_owned())
                } else {
                    None
                }
            },
            None => None,
        };
        Ok(self.cursor.is_some() && self.pages < STATEMENT_PAGES)
    }
}

/// Whether what was kept of the funding at a bucket still counts.
pub fn is_current(bucket: Option<i64>, now: i64) -> (b: bool)
    ensures
        b == (bucket is Some && bucket->0 == funding_bucket(now as int)),
{
    match bucket {
        Some(kept) => kept == funding_refresh_bucket(now),
        None => false,
    }
}

} // verus!
