//! What the service is told at its start.

use crate::failure::{Failure, Reason};
use crate::num::constants::TEN;
use crate::num::Double;
use crate::parsing::{parse_i64, parse_unsigned, split_whitespace, unsigned, whole, words};
use crate::text::{join, pieces, same, split, texts};
use vstd::prelude::*;

verus! {

/// The key to an account on an exchange.
pub struct ExchangeCredentials {
    pub api_key: String,
    pub api_secret: String,
}

impl Clone for ExchangeCredentials {
    fn clone(&self) -> (r: Self)
        ensures
            r == *self,
    {
        ExchangeCredentials { api_key: self.api_key.clone(), api_secret: self.api_secret.clone() }
    }
}

/// Whether trades are simulated or real.
#[derive(Clone, Copy, Debug, PartialEq, Eq, Structural)]
pub enum TradingMode {
    Paper,
    Live,
}

/// Where the bot reports, and whom it listens to.
pub struct TelegramConfig {
    pub token: String,
    pub chat_id: i64,
    pub topic_id: Option<i64>,
    pub authorized_users: Vec<i64>,
}

/// The settings of the service.
pub struct Config {
    pub port: u16,
    pub cmc_api_key: String,
    pub binance: Option<ExchangeCredentials>,
    pub bybit: Option<ExchangeCredentials>,
    pub trading_mode: TradingMode,
    pub web_origin: String,
    pub position_tolerance_usdt: Double,
    pub max_slippage_bps: u32,
    pub telegram: Option<TelegramConfig>,
    pub spread_strategy_enabled: bool,
    pub spread_strategy_state_path: Option<String>,
    pub auto_close_state_path: Option<String>,
    pub managed_symbols_state_path: Option<String>,
    pub position_funding_state_path: Option<String>,
}

/// One environment variable, with the number that its text stands for.
pub struct Setting {
    pub name: String,
    pub value: String,
    pub number: Option<Double>,
}

/// The first variable of a name.
pub open spec fn lookup(settings: Seq<Setting>, name: Seq<char>) -> Option<Setting>
    decreases settings.len(),
{
    if settings.len() == 0 {
        None
    } else if settings[0].name@ == name {
        Some(settings[0])
    } else {
        lookup(settings.drop_first(), name)
    }
}

fn find<'a>(settings: &'a Vec<Setting>, name: &str) -> (r: Option<&'a Setting>)
    ensures
        match r {
            Some(s) => lookup(settings@, name@) == Some(*s),
            None => lookup(settings@, name@) is None,
        },
{
    let mut i: usize = 0;
    proof {
        assert(settings@.skip(0) =~= settings@);
    }
    while i < settings.len()
        invariant
            i <= settings@.len(),
            lookup(settings@, name@) == lookup(settings@.skip(i as int), name@),
        decreases settings@.len() - i,
    {
        proof {
            assert(settings@.skip(i as int)[0] == settings@[i as int]);
            assert(settings@.skip(i as int).drop_first() =~= settings@.skip(i as int + 1));
        }
        if same(settings[i].name.as_str(), name) {
            return Some(&settings[i]);
        }
        i = i + 1;
    }
    None
}

/// The text of a variable, if it is set.
pub open spec fn text_of_setting(settings: Seq<Setting>, name: Seq<char>) -> Option<Seq<char>> {
    match lookup(settings, name) {
        Some(s) => Some(s.value@),
        None => None,
    }
}

/// The text of a variable, or what stands in for it.
pub open spec fn text_or(settings: Seq<Setting>, name: Seq<char>, default: Seq<char>) -> Seq<char> {
    match text_of_setting(settings, name) {
        Some(t) => t,
        None => default,
    }
}

fn text_or_default(settings: &Vec<Setting>, name: &str, default: &str) -> (r: String)
    ensures
        r@ == text_or(settings@, name@, default@),
{
    match find(settings, name) {
        Some(s) => s.value.clone(),
        None => default.to_owned(),
    }
}

/// Whether a text is there exactly where another is, and equals it.
pub open spec fn same_option(a: Option<String>, b: Option<Seq<char>>) -> bool {
    match (a, b) {
        (Some(x), Some(y)) => x@ == y,
        (None, None) => true,
        _ => false,
    }
}

fn optional_text(settings: &Vec<Setting>, name: &str) -> (r: Option<String>)
    ensures
        same_option(r, text_of_setting(settings@, name@)),
{
    match find(settings, name) {
        Some(s) => Some(s.value.clone()),
        None => None,
    }
}

/// Whether credentials are those of the variables that begin with a prefix:
/// both have to be set.
pub open spec fn credentials_of(r: Option<ExchangeCredentials>, settings: Seq<Setting>, prefix: Seq<char>) -> bool {
    let key = text_of_setting(settings, prefix + "_API_KEY"@);
    let secret = text_of_setting(settings, prefix + "_API_SECRET"@);
    match r {
        Some(c) => key == Some(c.api_key@) && secret == Some(c.api_secret@),
        None => key is None || secret is None,
    }
}

/// The credentials of an exchange.
pub fn credentials(settings: &Vec<Setting>, prefix: &str) -> (r: Option<ExchangeCredentials>)
    ensures
        credentials_of(r, settings@, prefix@),
{
    let key = find(settings, join(prefix, "_API_KEY").as_str());
    let secret = find(settings, join(prefix, "_API_SECRET").as_str());
    match (key, secret) {
        (Some(k), Some(s)) => Some(
            ExchangeCredentials { api_key: k.value.clone(), api_secret: s.value.clone() },
        ),
        _ => None,
    }
}

/// Whether a whole number fits an `i64`.
pub open spec fn fits(k: int) -> bool {
    i64::MIN <= k <= i64::MAX
}

/// The account number that a text holds, white space around it aside.
pub open spec fn user_of(s: Seq<char>) -> Option<i64> {
    let w = words(s);
    if w.len() == 1 && whole(w[0]) is Some && fits(whole(w[0])->0) {
        Some(whole(w[0])->0 as i64)
    } else {
        None
    }
}

/// The account numbers in a list of texts; what is no number is left out.
pub open spec fn users_of(parts: Seq<Seq<char>>) -> Seq<i64>
    decreases parts.len(),
{
    if parts.len() == 0 {
        Seq::empty()
    } else {
        let before = users_of(parts.drop_last());
        match user_of(parts.last()) {
            Some(k) => before.push(k),
            None => before,
        }
    }
}

fn parse_user(s: &str) -> (r: Option<i64>)
    ensures
        r == user_of(s@),
{
    let w = split_whitespace(s);
    proof {
        assert(texts(w@).len() == w@.len());
    }
    if w.len() != 1 {
        return None;
    }
    proof {
        assert(texts(w@)[0] == w@[0]@);
    }
    parse_i64(w[0].as_str())
}

fn parse_users(s: &str) -> (r: Vec<i64>)
    ensures
        r@ == users_of(pieces(s@, ',')),
{
    let parts = split(s, ',');
    let ghost all = texts(parts@);
    let mut users: Vec<i64> = Vec::new();
    let mut i: usize = 0;
    proof {
        assert(all.take(0) =~= Seq::empty());
    }
    while i < parts.len()
        invariant
            i <= parts@.len(),
            all == texts(parts@),
            users@ == users_of(all.take(i as int)),
        decreases parts@.len() - i,
    {
        let ghost next = all.take(i as int + 1);
        proof {
            assert(next.drop_last() =~= all.take(i as int));
            assert(next.last() == parts@[i as int]@);
        }
        if let Some(k) = parse_user(parts[i].as_str()) {
            users.push(k);
        }
        i = i + 1;
    }
    proof {
        assert(all.take(all.len() as int) =~= all);
    }
    users
}

/// The number that a variable holds, if it holds one.
pub open spec fn number_of(settings: Seq<Setting>, name: Seq<char>) -> Option<i64> {
    match text_of_setting(settings, name) {
        Some(t) => user_of(t),
        None => None,
    }
}

fn optional_number(settings: &Vec<Setting>, name: &str) -> (r: Option<i64>)
    ensures
        r == number_of(settings@, name@),
{
    match find(settings, name) {
        Some(s) => parse_user(s.value.as_str()),
        None => None,
    }
}

/// Whether a bot is set up as the variables say: only where it is switched on
/// and both its token and its chat are given.
pub open spec fn telegram_of(r: Option<TelegramConfig>, settings: Seq<Setting>) -> bool {
    let token = text_of_setting(settings, "TELEGRAM_BOT_TOKEN"@);
    let chat = number_of(settings, "TELEGRAM_CHAT_ID"@);
    if text_of_setting(settings, "TELEGRAM_ENABLED"@) == Some("true"@) && token is Some && chat is Some {
        &&& r matches Some(c)
        &&& c.token@ == token->0
        &&& c.chat_id == chat->0
        &&& c.topic_id == number_of(settings, "TELEGRAM_TOPIC_ID"@)
        &&& c.authorized_users@ == users_of(
            pieces(text_or(settings, "TELEGRAM_AUTHORIZED_USERS"@, ""@), ','),
        )
    } else {
        r is None
    }
}

/// The bot of the service, if there is one.
pub fn telegram(settings: &Vec<Setting>) -> (r: Option<TelegramConfig>)
    ensures
        telegram_of(r, settings@),
{
    if !same(text_or_default(settings, "TELEGRAM_ENABLED", "").as_str(), "true") {
        proof {
            reveal_strlit("");
            reveal_strlit("true");
        }
        return None;
    }
    proof {
        reveal_strlit("");
        reveal_strlit("true");
        assert(""@.len() != "true"@.len());
    }
    let token = optional_text(settings, "TELEGRAM_BOT_TOKEN");
    let chat = optional_number(settings, "TELEGRAM_CHAT_ID");
    match (token, chat) {
        (Some(token), Some(chat_id)) => {
            let users = text_or_default(settings, "TELEGRAM_AUTHORIZED_USERS", "");
            Some(
                TelegramConfig {
                    token,
                    chat_id,
                    topic_id: optional_number(settings, "TELEGRAM_TOPIC_ID"),
                    authorized_users: parse_users(users.as_str()),
                },
            )
        },
        _ => None,
    }
}

/// A small number that a variable holds, or what stands in for it.
pub open spec fn small_or(settings: Seq<Setting>, name: Seq<char>, limit: u64, default: u64) -> u64 {
    match text_of_setting(settings, name) {
        Some(t) => match unsigned(t) {
            Some(k) => if k <= limit {
                k as u64
            } else {
                default
            },
            None => default,
        },
        None => default,
    }
}

fn small_number(settings: &Vec<Setting>, name: &str, limit: u64, default: u64) -> (r: u64)
    ensures
        r == small_or(settings@, name@, limit, default),
{
    match find(settings, name) {
        Some(s) => match parse_unsigned(s.value.as_str(), limit) {
            Some(k) => k,
            None => default,
        },
        None => default,
    }
}

impl Config {
    /// Whether the configuration may send real orders: only with both keys.
    pub open spec fn wf(self) -> bool {
        self.trading_mode == TradingMode::Live ==> self.binance is Some && self.bybit is Some
    }

    /// Whether this is what the variables say.
    pub open spec fn reads(self, settings: Seq<Setting>) -> bool {
        &&& self.trading_mode == (if text_or(settings, "ARBIVIEW_TRADING_MODE"@, "paper"@) == "live"@ {
            TradingMode::Live
        } else {
            TradingMode::Paper
        })
        &&& credentials_of(self.binance, settings, "BINANCE"@)
        &&& credentials_of(self.bybit, settings, "BYBIT"@)
        &&& self.port == small_or(settings, "PORT"@, 65535, 8080)
        &&& self.cmc_api_key@ == text_or(settings, "CMC_API_KEY"@, ""@)
        &&& self.web_origin@ == text_or(settings, "WEB_ORIGIN"@, "http://localhost:3000"@)
        &&& self.position_tolerance_usdt == (match lookup(settings, "POSITION_TOLERANCE_USDT"@) {
            Some(Setting { number: Some(x), .. }) => x,
            _ => Double { bits: TEN },
        })
        &&& self.max_slippage_bps == small_or(settings, "MAX_SLIPPAGE_BPS"@, 4294967295, 50)
        &&& telegram_of(self.telegram, settings)
        &&& self.spread_strategy_enabled == (text_of_setting(settings, "SPREAD_STRATEGY_ENABLED"@) == Some(
            "true"@,
        ))
        &&& same_option(
            self.spread_strategy_state_path,
            text_of_setting(settings, "SPREAD_STRATEGY_STATE_PATH"@),
        )
        &&& same_option(self.auto_close_state_path, text_of_setting(settings, "AUTO_CLOSE_STATE_PATH"@))
        &&& same_option(
            self.managed_symbols_state_path,
            text_of_setting(settings, "MANAGED_SYMBOLS_STATE_PATH"@),
        )
        &&& same_option(
            self.position_funding_state_path,
            text_of_setting(settings, "POSITION_FUNDING_STATE_PATH"@),
        )
    }

    /// Reads the settings from the environment variables. An unknown trading
    /// mode is refused, and so is live trading without both keys.
    pub fn from_env(settings: &Vec<Setting>) -> (r: Result<Config, Failure>)
        ensures
            ({
                let mode = text_or(settings@, "ARBIVIEW_TRADING_MODE"@, "paper"@);
                let binance = text_of_setting(settings@, "BINANCE"@ + "_API_KEY"@) is Some && text_of_setting(
                    settings@,
                    "BINANCE"@ + "_API_SECRET"@,
                ) is Some;
                let bybit = text_of_setting(settings@, "BYBIT"@ + "_API_KEY"@) is Some && text_of_setting(
                    settings@,
                    "BYBIT"@ + "_API_SECRET"@,
                ) is Some;
                if mode != "paper"@ && mode != "live"@ {
                    &&& r matches Err(f)
                    &&& f.cause is None
                    &&& f.reason matches Reason::TradingMode { mode: got }
                    &&& got@ == mode
                } else if mode == "live"@ && !(binance && bybit) {
                    &&& r matches Err(f)
                    &&& f.cause is None
                    &&& f.reason is LiveCredentials
                } else {
                    &&& r matches Ok(config)
                    &&& config.wf()
                    &&& config.reads(settings@)
                }
            }),
    {
        let mode = text_or_default(settings, "ARBIVIEW_TRADING_MODE", "paper");
        let trading_mode = if same(mode.as_str(), "live") {
            TradingMode::Live
        } else if same(mode.as_str(), "paper") {
            TradingMode::Paper
        } else {
            return Err(Failure::new(Reason::TradingMode { mode }));
        };
        let binance = credentials(settings, "BINANCE");
        let bybit = credentials(settings, "BYBIT");
        if trading_mode == TradingMode::Live && (binance.is_none() || bybit.is_none()) {
            return Err(Failure::new(Reason::LiveCredentials));
        }
        let position_tolerance_usdt = match find(settings, "POSITION_TOLERANCE_USDT") {
            Some(s) => match s.number {
                Some(x) => x,
                None => Double { bits: TEN },
            },
            None => Double { bits: TEN },
        };
        let spread_strategy_enabled: bool = match find(settings, "SPREAD_STRATEGY_ENABLED") {
            Some(s) => same(s.value.as_str(), "true"),
            None => false,
        };
        Ok(
            Config {
                port: small_number(settings, "PORT", 65535, 8080) as u16,
                cmc_api_key: text_or_default(settings, "CMC_API_KEY", ""),
                binance,
                bybit,
                trading_mode,
                web_origin: text_or_default(settings, "WEB_ORIGIN", "http://localhost:3000"),
                position_tolerance_usdt,
                max_slippage_bps: small_number(settings, "MAX_SLIPPAGE_BPS", 4294967295, 50) as u32,
                telegram: telegram(settings),
                spread_strategy_enabled,
                spread_strategy_state_path: optional_text(settings, "SPREAD_STRATEGY_STATE_PATH"),
                auto_close_state_path: optional_text(settings, "AUTO_CLOSE_STATE_PATH"),
                managed_symbols_state_path: optional_text(settings, "MANAGED_SYMBOLS_STATE_PATH"),
                position_funding_state_path: optional_text(settings, "POSITION_FUNDING_STATE_PATH"),
            },
        )
    }
}

} // verus!
