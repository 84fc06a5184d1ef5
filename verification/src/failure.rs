//! Why a request was refused or a trade was given up.

use crate::num::constants::HUNDRED;
use crate::num::decimal::{fixed, fixed_text};
use crate::num::Double;
use crate::text::{digits, digits_text, occurs};
use crate::trading::amounts::{format_qty, quantity_text};
use vstd::prelude::*;
use vstd::string::StringExecFns;

verus! {

/// What went wrong.
#[derive(Debug)]
pub enum Reason {
    ThresholdRange,
    OrderNotionalRange,
    IntervalRange,
    PositionNotFound,
    RuleNotFound,
    RuleNotArmed,
    OpportunityGone,
    SpreadWait { current: Double, threshold: Double },
    ObservationOnly,
    NotionalRange,
    LeverageRange,
    TargetRange,
    OrderTargetRange,
    IntervalSecondsRange,
    TaskActive,
    LeavesTooLittle { tolerance: Double },
    TaskNotFound,
    NotionalMinimum,
    LeverageAdjust,
    BalancePreflight,
    UnsupportedExchange { exchange: String },
    InsufficientBalance { exchange: String, available: Double, required: Double },
    BorrowPreflight,
    BorrowLimit { maximum: Double, required: Double, base: String },
    CredentialsMissing { exchange: String },
    NoBorrowable { asset: String },
    InvalidFill { exchange: String, client_order_id: String },
    Slippage { exchange: String, actual_bps: Double, limit: u64, client_order_id: String },
    ZeroQuantity,
    ExistingPositions,
    OneLeg { token: String },
    LeverageSetup,
    PhaseTwoExhausted { attempts: u64, anomalies: u64, mismatch: Double, percent: Double },
    SpreadNoFillResidual { mismatch: Double },
    IncompleteLeg { mismatch: Double },
    SpreadNoFill,
    ReductionTooLarge,
    ReductionTooClose,
    LongMetadata,
    ShortMetadata,
    ZeroReduction,
    ReductionNaked { mismatch: Double, percent: Double },
    ReductionMissed { target: Double, long: Double, short: Double },
    CloseNaked,
    SpotMetadata,
    Repayment,
    DebtRemains,
    UnsupportedMarket { exchange: String, market: String },
    BybitLeverage { message: String },
    SubmitUnknown { submit_error: String, client_order_id: String },
    FillUnavailable { status: String, client_order_id: String },
    MarginRoute,
    MarginSubmitUnknown { submit_error: String, client_order_id: String },
    MarginFillUnavailable { status: String, client_order_id: String },
    BybitRejected { message: String },
    BybitSubmitUnknown { submit_error: String, client_order_id: String },
    BybitStatusFailed { message: String },
    BybitTimeout { client_order_id: String },
    BybitModeFailed { message: String },
    MarginAsset { base: String },
    BybitWalletMissing,
    TransactionLogRejected { message: String },
    OrderEnded { exchange: String, status: String, client_order_id: String },
    PartlyFilled {
        exchange: String,
        status: String,
        executed_quantity: Double,
        average_price: Double,
        client_order_id: String,
        order_id: String,
    },
    RequestRejected { venue: String, status: String, detail: String },
    InvalidResponse { venue: String },
    LongData,
    ShortData,
    HeldRoute,
    LongAsk,
    QuoteUnavailable,
    QuoteRoute,
    BybitQuote,
    BidQuote,
    AskQuote,
    SymbolShape,
    HistoryRoute,
    FundingExchange,
    NoCandles,
    NoAverage,
    BorrowExchange,
    NoBorrowRate { exchange: String, asset: String },
    BorrowRejected { message: String },
    StreamRoute,
    ListenKeyMissing,
    AuthRejected { message: String },
    TradingMode { mode: String },
    LiveCredentials,
    Outside { text: String },
}

/// A failure: what went wrong, and where something else lies behind it, that.
#[derive(Debug)]
pub struct Failure {
    pub reason: Reason,
    pub cause: Option<String>,
}

impl Reason {
    /// The text of the reason.
    pub open spec fn text(self) -> Seq<char> {
        match self {
            Reason::ThresholdRange => "threshold APY must be between -100000% and 100000%"@,
            Reason::OrderNotionalRange => "order notional must be between 10 and 1,000,000 USDT"@,
            Reason::IntervalRange => "interval must be between 0.5 and 3,600 seconds"@,
            Reason::PositionNotFound => "position not found"@,
            Reason::RuleNotFound => "auto-close rule not found"@,
            Reason::RuleNotArmed => "only an armed auto-close rule can be cancelled"@,
            Reason::OpportunityGone => "opportunity is no longer available"@,
            Reason::SpreadWait { current, threshold } => "SPREAD_WAIT: current executable spread "@ + fixed_text(current.mul_spec(Double { bits: HUNDRED }), 4) + "% is below threshold "@ + fixed_text(threshold.mul_spec(Double { bits: HUNDRED }), 4) + "%"@,
            Reason::ObservationOnly => "this opportunity is observation-only or currently has no borrowable liquidity"@,
            Reason::NotionalRange => "notionalUsdt must be between 10 and 1,000,000"@,
            Reason::LeverageRange => "leverage must be between 1 and 20"@,
            Reason::TargetRange => "targetNotionalUsdt must be between 10 and 1,000,000"@,
            Reason::OrderTargetRange => "orderNotionalUsdt must be between 10 and targetNotionalUsdt"@,
            Reason::IntervalSecondsRange => "intervalSeconds must be between 0.5 and 3,600"@,
            Reason::TaskActive => "another batch position task is already active"@,
            Reason::LeavesTooLittle { tolerance } => "targetNotionalUsdt must leave at least "@ + fixed_text(tolerance, 2) + " USDT per leg; use close for a full exit"@,
            Reason::TaskNotFound => "batch task not found"@,
            Reason::NotionalMinimum => "notionalUsdt must be at least 10"@,
            Reason::LeverageAdjust => "failed to adjust both legs' leverage"@,
            Reason::BalancePreflight => "balance preflight failed; no orders were sent"@,
            Reason::UnsupportedExchange { exchange } => "unsupported exchange "@ + exchange@,
            Reason::InsufficientBalance { exchange, available, required } => exchange@ + " available balance "@ + fixed_text(available, 2) + " is below required safety amount "@ + fixed_text(required, 2) + "; no orders were sent"@,
            Reason::BorrowPreflight => "Binance margin borrow preflight failed; no orders were sent"@,
            Reason::BorrowLimit { maximum, required, base } => "Binance margin maximum borrowable "@ + quantity_text(maximum) + " is below required "@ + quantity_text(required) + " "@ + base@ + "; no orders were sent"@,
            Reason::CredentialsMissing { exchange } => exchange@ + " credentials missing"@,
            Reason::NoBorrowable { asset } => "Binance returned no maxBorrowable amount for "@ + asset@,
            Reason::InvalidFill { exchange, client_order_id } => exchange@ + " order returned invalid fill data; clientOrderId="@ + client_order_id@,
            Reason::Slippage { exchange, actual_bps, limit, client_order_id } => exchange@ + " fill slippage "@ + fixed_text(actual_bps, 1) + "bps exceeded limit "@ + digits(limit as nat) + "bps; clientOrderId="@ + client_order_id@,
            Reason::ZeroQuantity => "calculated order quantity is zero"@,
            Reason::ExistingPositions => "failed to verify existing positions; no orders were sent"@,
            Reason::OneLeg { token } => "NAKED_EXPOSURE: "@ + token@ + " has only one expected leg; repair it before increasing"@,
            Reason::LeverageSetup => "failed to configure leverage; no orders were sent"@,
            Reason::PhaseTwoExhausted { attempts, anomalies, mismatch, percent } => "NAKED_EXPOSURE: phase two exhausted after "@ + digits(attempts as nat) + " attempts ("@ + digits(anomalies as nat) + " anomalies); actual position mismatch "@ + fixed_text(mismatch, 6) + " USDT ("@ + fixed_text(percent, 2) + "%) exceeds both 10 USDT and 1%"@,
            Reason::SpreadNoFillResidual { mismatch } => "SPREAD_NO_FILL: exchange position synchronization produced only "@ + fixed_text(mismatch, 6) + " USDT of residual mismatch"@,
            Reason::IncompleteLeg { mismatch } => "position reconciliation returned an incomplete leg with "@ + fixed_text(mismatch, 6) + " USDT residual mismatch, within protection tolerance"@,
            Reason::SpreadNoFill => "SPREAD_NO_FILL: IOC limit orders produced no balanced fill"@,
            Reason::ReductionTooLarge => "reduction must be smaller than the position; use close for a full exit"@,
            Reason::ReductionTooClose => "reduction is too close to the full position; use close for a full exit"@,
            Reason::LongMetadata => "long contract metadata unavailable"@,
            Reason::ShortMetadata => "short contract metadata unavailable"@,
            Reason::ZeroReduction => "calculated reduction quantity is zero"@,
            Reason::ReductionNaked { mismatch, percent } => "NAKED_EXPOSURE: reduction reconciliation failed; actual mismatch is "@ + fixed_text(mismatch, 2) + " USDT ("@ + fixed_text(percent, 2) + "%)"@,
            Reason::ReductionMissed { target, long, short } => "reduction target was not reached; target "@ + fixed_text(target, 2) + " USDT, actual LONG "@ + fixed_text(long, 2) + " / SHORT "@ + fixed_text(short, 2) + " USDT"@,
            Reason::CloseNaked => "NAKED_EXPOSURE: long leg close confirmed, short leg close failed; manual intervention required"@,
            Reason::SpotMetadata => "spot margin metadata unavailable after close"@,
            Reason::Repayment => "Binance margin residual debt repayment failed"@,
            Reason::DebtRemains => "Binance margin debt remains after three repayment attempts"@,
            Reason::UnsupportedMarket { exchange, market } => "unsupported "@ + exchange@ + " "@ + market@ + " market"@,
            Reason::BybitLeverage { message } => "Bybit leverage rejected: "@ + message@,
            Reason::SubmitUnknown { submit_error, client_order_id } => "Binance submit result unknown ("@ + submit_error@ + "); query clientOrderId="@ + client_order_id@ + " before any retry"@,
            Reason::FillUnavailable { status, client_order_id } => "Binance order fill data unavailable after status polling: status="@ + status@ + ", clientOrderId="@ + client_order_id@,
            Reason::MarginRoute => "Binance spot-margin route only supports opening SELL and repayment BUY"@,
            Reason::MarginSubmitUnknown { submit_error, client_order_id } => "Binance margin submit result unknown ("@ + submit_error@ + "); query clientOrderId="@ + client_order_id@ + " before any retry"@,
            Reason::MarginFillUnavailable { status, client_order_id } => "Binance margin fill data unavailable: status="@ + status@ + ", clientOrderId="@ + client_order_id@,
            Reason::BybitRejected { message } => "Bybit order rejected: "@ + message@,
            Reason::BybitSubmitUnknown { submit_error, client_order_id } => "Bybit submit result unknown ("@ + submit_error@ + "); confirmation timed out; query orderLinkId="@ + client_order_id@ + " before any retry"@,
            Reason::BybitStatusFailed { message } => "Bybit order status failed: "@ + message@,
            Reason::BybitTimeout { client_order_id } => "Bybit order confirmation timed out; query orderLinkId="@ + client_order_id@ + " before any retry"@,
            Reason::BybitModeFailed { message } => "Bybit position mode query failed: "@ + message@,
            Reason::MarginAsset { base } => "Binance margin asset "@ + base@ + " is unavailable"@,
            Reason::BybitWalletMissing => "Bybit wallet missing"@,
            Reason::TransactionLogRejected { message } => "Bybit transaction log rejected: "@ + message@,
            Reason::OrderEnded { exchange, status, client_order_id } => exchange@ + " order ended with status="@ + status@ + ", clientOrderId="@ + client_order_id@,
            Reason::PartlyFilled { exchange, status, executed_quantity, average_price, client_order_id, .. } => exchange@ + " order was not filled in full: status="@ + status@ + ", executedQty="@ + fixed_text(executed_quantity, 8) + ", avgPrice="@ + fixed_text(average_price, 8) + ", clientOrderId="@ + client_order_id@,
            Reason::RequestRejected { venue, status, detail } => venue@ + " API HTTP "@ + status@ + ": "@ + detail@,
            Reason::InvalidResponse { venue } => "invalid "@ + venue@ + " API response"@,
            Reason::LongData => "long-leg market data is unavailable"@,
            Reason::ShortData => "short-leg market data is unavailable"@,
            Reason::HeldRoute => "unsupported held-route market combination"@,
            Reason::LongAsk => "long-leg ask price is unavailable"@,
            Reason::QuoteUnavailable => "executable bid/ask quote is unavailable"@,
            Reason::QuoteRoute => "unsupported executable quote route"@,
            Reason::BybitQuote => "Bybit executable quote is unavailable"@,
            Reason::BidQuote => "executable bid quote is unavailable"@,
            Reason::AskQuote => "executable ask quote is unavailable"@,
            Reason::SymbolShape => "symbol must be an alphanumeric USDT perpetual symbol"@,
            Reason::HistoryRoute => "unsupported market history route"@,
            Reason::FundingExchange => "unsupported funding-history exchange"@,
            Reason::NoCandles => "no aligned Binance/Bybit hourly candles"@,
            Reason::NoAverage => "weighted spread average is unavailable"@,
            Reason::BorrowExchange => "unsupported spot borrow-rate exchange"@,
            Reason::NoBorrowRate { exchange, asset } => exchange@ + " returned no borrow rate for "@ + asset@,
            Reason::BorrowRejected { message } => "Bybit borrow-rate request rejected: "@ + message@,
            Reason::StreamRoute => "unsupported websocket quote route"@,
            Reason::ListenKeyMissing => "Binance listen key is missing"@,
            Reason::AuthRejected { message } => "Bybit websocket auth rejected: "@ + message@,
            Reason::TradingMode { mode } => "ARBIVIEW_TRADING_MODE must be paper or live, got "@ + mode@,
            Reason::LiveCredentials => "live mode requires BINANCE_API_KEY/SECRET and BYBIT_API_KEY/SECRET"@,
            Reason::Outside { text } => text@,
        }
    }

    pub fn message(&self) -> (s: String)
        ensures
            s@ == self.text(),
    {
        match self {
            Reason::ThresholdRange => "threshold APY must be between -100000% and 100000%".to_owned(),
            Reason::OrderNotionalRange => "order notional must be between 10 and 1,000,000 USDT".to_owned(),
            Reason::IntervalRange => "interval must be between 0.5 and 3,600 seconds".to_owned(),
            Reason::PositionNotFound => "position not found".to_owned(),
            Reason::RuleNotFound => "auto-close rule not found".to_owned(),
            Reason::RuleNotArmed => "only an armed auto-close rule can be cancelled".to_owned(),
            Reason::OpportunityGone => "opportunity is no longer available".to_owned(),
            Reason::SpreadWait { current, threshold } => {
                let mut s = "SPREAD_WAIT: current executable spread ".to_owned();
                s.append(fixed(current.mul(Double { bits: HUNDRED }), 4).as_str());
                s.append("% is below threshold ");
                s.append(fixed(threshold.mul(Double { bits: HUNDRED }), 4).as_str());
                s.append("%");
                s
            },
            Reason::ObservationOnly => "this opportunity is observation-only or currently has no borrowable liquidity".to_owned(),
            Reason::NotionalRange => "notionalUsdt must be between 10 and 1,000,000".to_owned(),
            Reason::LeverageRange => "leverage must be between 1 and 20".to_owned(),
            Reason::TargetRange => "targetNotionalUsdt must be between 10 and 1,000,000".to_owned(),
            Reason::OrderTargetRange => "orderNotionalUsdt must be between 10 and targetNotionalUsdt".to_owned(),
            Reason::IntervalSecondsRange => "intervalSeconds must be between 0.5 and 3,600".to_owned(),
            Reason::TaskActive => "another batch position task is already active".to_owned(),
            Reason::LeavesTooLittle { tolerance } => {
                let mut s = "targetNotionalUsdt must leave at least ".to_owned();
                s.append(fixed(*tolerance, 2).as_str());
                s.append(" USDT per leg; use close for a full exit");
                s
            },
            Reason::TaskNotFound => "batch task not found".to_owned(),
            Reason::NotionalMinimum => "notionalUsdt must be at least 10".to_owned(),
            Reason::LeverageAdjust => "failed to adjust both legs' leverage".to_owned(),
            Reason::BalancePreflight => "balance preflight failed; no orders were sent".to_owned(),
            Reason::UnsupportedExchange { exchange } => {
                let mut s = "unsupported exchange ".to_owned();
                s.append(exchange.as_str());
                s
            },
            Reason::InsufficientBalance { exchange, available, required } => {
                let mut s = exchange.clone();
                s.append(" available balance ");
                s.append(fixed(*available, 2).as_str());
                s.append(" is below required safety amount ");
                s.append(fixed(*required, 2).as_str());
                s.append("; no orders were sent");
                s
            },
            Reason::BorrowPreflight => "Binance margin borrow preflight failed; no orders were sent".to_owned(),
            Reason::BorrowLimit { maximum, required, base } => {
                let mut s = "Binance margin maximum borrowable ".to_owned();
                s.append(format_qty(*maximum).as_str());
                s.append(" is below required ");
                s.append(format_qty(*required).as_str());
                s.append(" ");
                s.append(base.as_str());
                s.append("; no orders were sent");
                s
            },
            Reason::CredentialsMissing { exchange } => {
                let mut s = exchange.clone();
                s.append(" credentials missing");
                s
            },
            Reason::NoBorrowable { asset } => {
                let mut s = "Binance returned no maxBorrowable amount for ".to_owned();
                s.append(asset.as_str());
                s
            },
            Reason::InvalidFill { exchange, client_order_id } => {
                let mut s = exchange.clone();
                s.append(" order returned invalid fill data; clientOrderId=");
                s.append(client_order_id.as_str());
                s
            },
            Reason::Slippage { exchange, actual_bps, limit, client_order_id } => {
                let mut s = exchange.clone();
                s.append(" fill slippage ");
                s.append(fixed(*actual_bps, 1).as_str());
                s.append("bps exceeded limit ");
                s.append(digits_text(*limit as u128).as_str());
                s.append("bps; clientOrderId=");
                s.append(client_order_id.as_str());
                s
            },
            Reason::ZeroQuantity => "calculated order quantity is zero".to_owned(),
            Reason::ExistingPositions => "failed to verify existing positions; no orders were sent".to_owned(),
            Reason::OneLeg { token } => {
                let mut s = "NAKED_EXPOSURE: ".to_owned();
                s.append(token.as_str());
                s.append(" has only one expected leg; repair it before increasing");
                s
            },
            Reason::LeverageSetup => "failed to configure leverage; no orders were sent".to_owned(),
            Reason::PhaseTwoExhausted { attempts, anomalies, mismatch, percent } => {
                let mut s = "NAKED_EXPOSURE: phase two exhausted after ".to_owned();
                s.append(digits_text(*attempts as u128).as_str());
                s.append(" attempts (");
                s.append(digits_text(*anomalies as u128).as_str());
                s.append(" anomalies); actual position mismatch ");
                s.append(fixed(*mismatch, 6).as_str());
                s.append(" USDT (");
                s.append(fixed(*percent, 2).as_str());
                s.append("%) exceeds both 10 USDT and 1%");
                s
            },
            Reason::SpreadNoFillResidual { mismatch } => {
                let mut s = "SPREAD_NO_FILL: exchange position synchronization produced only ".to_owned();
                s.append(fixed(*mismatch, 6).as_str());
                s.append(" USDT of residual mismatch");
                s
            },
            Reason::IncompleteLeg { mismatch } => {
                let mut s = "position reconciliation returned an incomplete leg with ".to_owned();
                s.append(fixed(*mismatch, 6).as_str());
                s.append(" USDT residual mismatch, within protection tolerance");
                s
            },
            Reason::SpreadNoFill => "SPREAD_NO_FILL: IOC limit orders produced no balanced fill".to_owned(),
            Reason::ReductionTooLarge => "reduction must be smaller than the position; use close for a full exit".to_owned(),
            Reason::ReductionTooClose => "reduction is too close to the full position; use close for a full exit".to_owned(),
            Reason::LongMetadata => "long contract metadata unavailable".to_owned(),
            Reason::ShortMetadata => "short contract metadata unavailable".to_owned(),
            Reason::ZeroReduction => "calculated reduction quantity is zero".to_owned(),
            Reason::ReductionNaked { mismatch, percent } => {
                let mut s = "NAKED_EXPOSURE: reduction reconciliation failed; actual mismatch is ".to_owned();
                s.append(fixed(*mismatch, 2).as_str());
                s.append(" USDT (");
                s.append(fixed(*percent, 2).as_str());
                s.append("%)");
                s
            },
            Reason::ReductionMissed { target, long, short } => {
                let mut s = "reduction target was not reached; target ".to_owned();
                s.append(fixed(*target, 2).as_str());
                s.append(" USDT, actual LONG ");
                s.append(fixed(*long, 2).as_str());
                s.append(" / SHORT ");
                s.append(fixed(*short, 2).as_str());
                s.append(" USDT");
                s
            },
            Reason::CloseNaked => "NAKED_EXPOSURE: long leg close confirmed, short leg close failed; manual intervention required".to_owned(),
            Reason::SpotMetadata => "spot margin metadata unavailable after close".to_owned(),
            Reason::Repayment => "Binance margin residual debt repayment failed".to_owned(),
            Reason::DebtRemains => "Binance margin debt remains after three repayment attempts".to_owned(),
            Reason::UnsupportedMarket { exchange, market } => {
                let mut s = "unsupported ".to_owned();
                s.append(exchange.as_str());
                s.append(" ");
                s.append(market.as_str());
                s.append(" market");
                s
            },
            Reason::BybitLeverage { message } => {
                let mut s = "Bybit leverage rejected: ".to_owned();
                s.append(message.as_str());
                s
            },
            Reason::SubmitUnknown { submit_error, client_order_id } => {
                let mut s = "Binance submit result unknown (".to_owned();
                s.append(submit_error.as_str());
                s.append("); query clientOrderId=");
                s.append(client_order_id.as_str());
                s.append(" before any retry");
                s
            },
            Reason::FillUnavailable { status, client_order_id } => {
                let mut s = "Binance order fill data unavailable after status polling: status=".to_owned();
                s.append(status.as_str());
                s.append(", clientOrderId=");
                s.append(client_order_id.as_str());
                s
            },
            Reason::MarginRoute => "Binance spot-margin route only supports opening SELL and repayment BUY".to_owned(),
            Reason::MarginSubmitUnknown { submit_error, client_order_id } => {
                let mut s = "Binance margin submit result unknown (".to_owned();
                s.append(submit_error.as_str());
                s.append("); query clientOrderId=");
                s.append(client_order_id.as_str());
                s.append(" before any retry");
                s
            },
            Reason::MarginFillUnavailable { status, client_order_id } => {
                let mut s = "Binance margin fill data unavailable: status=".to_owned();
                s.append(status.as_str());
                s.append(", clientOrderId=");
                s.append(client_order_id.as_str());
                s
            },
            Reason::BybitRejected { message } => {
                let mut s = "Bybit order rejected: ".to_owned();
                s.append(message.as_str());
                s
            },
            Reason::BybitSubmitUnknown { submit_error, client_order_id } => {
                let mut s = "Bybit submit result unknown (".to_owned();
                s.append(submit_error.as_str());
                s.append("); confirmation timed out; query orderLinkId=");
                s.append(client_order_id.as_str());
                s.append(" before any retry");
                s
            },
            Reason::BybitStatusFailed { message } => {
                let mut s = "Bybit order status failed: ".to_owned();
                s.append(message.as_str());
                s
            },
            Reason::BybitTimeout { client_order_id } => {
                let mut s = "Bybit order confirmation timed out; query orderLinkId=".to_owned();
                s.append(client_order_id.as_str());
                s.append(" before any retry");
                s
            },
            Reason::BybitModeFailed { message } => {
                let mut s = "Bybit position mode query failed: ".to_owned();
                s.append(message.as_str());
                s
            },
            Reason::MarginAsset { base } => {
                let mut s = "Binance margin asset ".to_owned();
                s.append(base.as_str());
                s.append(" is unavailable");
                s
            },
            Reason::BybitWalletMissing => "Bybit wallet missing".to_owned(),
            Reason::TransactionLogRejected { message } => {
                let mut s = "Bybit transaction log rejected: ".to_owned();
                s.append(message.as_str());
                s
            },
            Reason::OrderEnded { exchange, status, client_order_id } => {
                let mut s = exchange.clone();
                s.append(" order ended with status=");
                s.append(status.as_str());
                s.append(", clientOrderId=");
                s.append(client_order_id.as_str());
                s
            },
            Reason::PartlyFilled { exchange, status, executed_quantity, average_price, client_order_id, .. } => {
                let mut s = exchange.clone();
                s.append(" order was not filled in full: status=");
                s.append(status.as_str());
                s.append(", executedQty=");
                s.append(fixed(*executed_quantity, 8).as_str());
                s.append(", avgPrice=");
                s.append(fixed(*average_price, 8).as_str());
                s.append(", clientOrderId=");
                s.append(client_order_id.as_str());
                s
            },
            Reason::RequestRejected { venue, status, detail } => {
                let mut s = venue.clone();
                s.append(" API HTTP ");
                s.append(status.as_str());
                s.append(": ");
                s.append(detail.as_str());
                s
            },
            Reason::InvalidResponse { venue } => {
                let mut s = "invalid ".to_owned();
                s.append(venue.as_str());
                s.append(" API response");
                s
            },
            Reason::LongData => "long-leg market data is unavailable".to_owned(),
            Reason::ShortData => "short-leg market data is unavailable".to_owned(),
            Reason::HeldRoute => "unsupported held-route market combination".to_owned(),
            Reason::LongAsk => "long-leg ask price is unavailable".to_owned(),
            Reason::QuoteUnavailable => "executable bid/ask quote is unavailable".to_owned(),
            Reason::QuoteRoute => "unsupported executable quote route".to_owned(),
            Reason::BybitQuote => "Bybit executable quote is unavailable".to_owned(),
            Reason::BidQuote => "executable bid quote is unavailable".to_owned(),
            Reason::AskQuote => "executable ask quote is unavailable".to_owned(),
            Reason::SymbolShape => "symbol must be an alphanumeric USDT perpetual symbol".to_owned(),
            Reason::HistoryRoute => "unsupported market history route".to_owned(),
            Reason::FundingExchange => "unsupported funding-history exchange".to_owned(),
            Reason::NoCandles => "no aligned Binance/Bybit hourly candles".to_owned(),
            Reason::NoAverage => "weighted spread average is unavailable".to_owned(),
            Reason::BorrowExchange => "unsupported spot borrow-rate exchange".to_owned(),
            Reason::NoBorrowRate { exchange, asset } => {
                let mut s = exchange.clone();
                s.append(" returned no borrow rate for ");
                s.append(asset.as_str());
                s
            },
            Reason::BorrowRejected { message } => {
                let mut s = "Bybit borrow-rate request rejected: ".to_owned();
                s.append(message.as_str());
                s
            },
            Reason::StreamRoute => "unsupported websocket quote route".to_owned(),
            Reason::ListenKeyMissing => "Binance listen key is missing".to_owned(),
            Reason::AuthRejected { message } => {
                let mut s = "Bybit websocket auth rejected: ".to_owned();
                s.append(message.as_str());
                s
            },
            Reason::TradingMode { mode } => {
                let mut s = "ARBIVIEW_TRADING_MODE must be paper or live, got ".to_owned();
                s.append(mode.as_str());
                s
            },
            Reason::LiveCredentials => "live mode requires BINANCE_API_KEY/SECRET and BYBIT_API_KEY/SECRET".to_owned(),
            Reason::Outside { text } => text.clone(),
        }
    }
}

impl Failure {
    /// The failure without anything behind it.
    pub fn new(reason: Reason) -> (f: Failure)
        ensures
            f == (Failure { reason, cause: None }),
    {
        Failure { reason, cause: None }
    }

    /// Whether this tells of a step that another failure stopped.
    pub open spec fn wraps(self, reason: Reason, inner: Failure) -> bool {
        self.reason == reason && self.cause is Some && self.cause->0@ == inner.chain()
    }

    /// The failure of a step that another failure stopped.
    pub fn in_step(reason: Reason, inner: Failure) -> (f: Failure)
        ensures
            f.wraps(reason, inner),
    {
        Failure { reason, cause: Some(inner.detail()) }
    }

    /// The failure with its cause.
    pub fn because(reason: Reason, cause: String) -> (f: Failure)
        ensures
            f == (Failure { reason, cause: Some(cause) }),
    {
        Failure { reason, cause: Some(cause) }
    }

    /// The reason, followed by the cause where there is one.
    pub open spec fn chain(self) -> Seq<char> {
        match self.cause {
            Some(cause) => self.reason.text() + ": "@ + cause@,
            None => self.reason.text(),
        }
    }

    /// What the requester is told.
    pub fn message(&self) -> (s: String)
        ensures
            s@ == self.reason.text(),
    {
        self.reason.message()
    }

    /// What is written to a task.
    pub fn detail(&self) -> (s: String)
        ensures
            s@ == self.chain(),
    {
        match &self.cause {
            Some(cause) => {
                let mut s = self.reason.message();
                s.append(": ");
                s.append(cause.as_str());
                s
            },
            None => self.reason.message(),
        }
    }
}

/// The HTTP status that a failure is answered with: a bad gateway where a leg
/// stands without its hedge, a bad request otherwise.
pub open spec fn status_code(message: Seq<char>) -> u16 {
    if occurs(message, "NAKED_EXPOSURE"@) {
        502
    } else {
        400
    }
}

pub fn http_status(message: &str) -> (status: u16)
    ensures
        status == status_code(message@),
{
    if crate::text::contains(message, "NAKED_EXPOSURE") {
        502
    } else {
        400
    }
}

} // verus!
