//! What the bot is told: the words of a command, and the parts of a button.

use crate::config::TelegramConfig;
use crate::models::Position;
use crate::num::constants::{HALF, HUNDRED, MILLION, SECONDS_PER_HOUR, TEN};
use crate::num::Double;
use crate::text::{chars_of, join, lemma_pieces_nonempty, lower, pieces, same, same_ignoring_case, split, texts};
use vstd::prelude::*;
use vstd::string::StringExecFns;

verus! {

/// A number, with its shortest decimal text.
#[derive(Debug)]
pub struct Amount {
    pub value: Double,
    pub shown: String,
}

impl Clone for Amount {
    fn clone(&self) -> (r: Self)
        ensures
            r == *self,
    {
        Amount { value: self.value, shown: self.shown.clone() }
    }
}

/// A word, with the number that it spells where it spells one.
#[derive(Debug)]
pub struct Word {
    pub text: String,
    pub number: Option<Amount>,
}

impl Clone for Word {
    fn clone(&self) -> (r: Self)
        ensures
            r == *self,
    {
        Word {
            text: self.text.clone(),
            number: match &self.number {
                Some(a) => Some(a.clone()),
                None => None,
            },
        }
    }
}

/// Whether a message comes from where the bot listens and from someone it
/// listens to: everyone there, where nobody is named.
pub open spec fn listens_to(config: TelegramConfig, chat: i64, user: Option<i64>, topic: Option<i64>) -> bool {
    &&& chat == config.chat_id
    &&& config.topic_id is Some ==> topic == config.topic_id
    &&& config.authorized_users@.len() == 0 || (user is Some && config.authorized_users@.contains(user->0))
}

/// Whether a message comes from where the bot listens and from someone it
/// listens to.
pub fn authorized(config: &TelegramConfig, chat_id: i64, user_id: Option<i64>, topic_id: Option<i64>) -> (b: bool)
    ensures
        b == listens_to(*config, chat_id, user_id, topic_id),
{
    if chat_id != config.chat_id {
        return false;
    }
    if let Some(expected) = config.topic_id {
        match topic_id {
            Some(topic) => {
                if topic != expected {
                    return false;
                }
            },
            None => return false,
        }
    }
    if config.authorized_users.len() == 0 {
        return true;
    }
    let user: i64 = match user_id {
        Some(id) => id,
        None => return false,
    };
    let mut i: usize = 0;
    while i < config.authorized_users.len()
        invariant
            i <= config.authorized_users@.len(),
            chat_id == config.chat_id,
            config.topic_id is Some ==> topic_id == config.topic_id,
            user_id == Some(user),
            forall|k: int| 0 <= k < i ==> config.authorized_users@[k] != user,
        decreases config.authorized_users@.len() - i,
    {
        if config.authorized_users[i] == user {
            proof {
                assert(config.authorized_users@[i as int] == user);
            }
            return true;
        }
        i = i + 1;
    }
    false
}

/// Whether an answer is the one that is due: the value, or the fault.
pub open spec fn answers<T>(r: Result<T, String>, due: Result<T, Seq<char>>) -> bool {
    match (r, due) {
        (Ok(a), Ok(b)) => a == b,
        (Err(e), Err(fault)) => e@ == fault,
        _ => false,
    }
}

/// The number of a word, or why it spells none.
pub open spec fn number_in(word: Word) -> Result<Amount, Seq<char>> {
    match word.number {
        Some(a) => Ok(a),
        None => if word.text@.len() == 0 {
            Err("cannot parse float from empty string"@)
        } else {
            Err("invalid float literal"@)
        },
    }
}

/// The number of a word.
pub fn plain_number(word: &Word) -> (r: Result<Amount, String>)
    ensures
        answers(r, number_in(*word)),
{
    match &word.number {
        Some(a) => Ok(a.clone()),
        None => Err(
            if word.text.as_str().unicode_len() == 0 {
                "cannot parse float from empty string".to_owned()
            } else {
                "invalid float literal".to_owned()
            },
        ),
    }
}

/// The number of a word that has to be there.
pub open spec fn named_number(word: Option<Word>, name: Seq<char>) -> Result<Amount, Seq<char>> {
    match word {
        None => Err("缺少"@ + name),
        Some(w) => match w.number {
            Some(a) => Ok(a),
            None => Err(name + "格式错误"@),
        },
    }
}

/// The same word, outside a reference.
pub open spec fn deref(word: Option<&Word>) -> Option<Word> {
    match word {
        Some(w) => Some(*w),
        None => None,
    }
}

/// The number of a word that has to be there.
pub fn parse_f64(word: Option<&Word>, name: &str) -> (r: Result<Amount, String>)
    ensures
        answers(r, named_number(deref(word), name@)),
{
    match word {
        None => Err(join("缺少", name)),
        Some(w) => match &w.number {
            Some(a) => Ok(a.clone()),
            None => Err(join(name, "格式错误")),
        },
    }
}

/// The digits of a small number, and why there are none.
pub open spec fn small_digits(s: Seq<char>, value: nat) -> Result<u8, Seq<char>>
    decreases s.len(),
{
    if s.len() == 0 {
        Ok(value as u8)
    } else if !('0' <= s[0] && s[0] <= '9') {
        Err("invalid digit found in string"@)
    } else {
        let next = (value * 10 + (s[0] as int - '0' as int)) as nat;
        if next > u8::MAX {
            Err("number too large to fit in target type"@)
        } else {
            small_digits(s.drop_first(), next)
        }
    }
}

/// The small number that a text spells, or why it spells none.
pub open spec fn small_number(s: Seq<char>) -> Result<u8, Seq<char>> {
    if s.len() == 0 {
        Err("cannot parse integer from empty string"@)
    } else if s.len() == 1 && (s[0] == '+' || s[0] == '-') {
        Err("invalid digit found in string"@)
    } else if s[0] == '+' {
        small_digits(s.drop_first(), 0)
    } else {
        small_digits(s, 0)
    }
}

/// The small number that a text spells.
pub fn parse_u8(s: &str) -> (r: Result<u8, String>)
    ensures
        answers(r, small_number(s@)),
{
    let v = chars_of(s);
    if v.len() == 0 {
        return Err("cannot parse integer from empty string".to_owned());
    }
    if v.len() == 1 && (v[0] == '+' || v[0] == '-') {
        return Err("invalid digit found in string".to_owned());
    }
    let mut i: usize = if v[0] == '+' {
        1
    } else {
        0
    };
    let mut value: u32 = 0;
    proof {
        assert(v@.skip(0) =~= v@);
        assert(v@.skip(1) =~= v@.drop_first());
    }
    while i < v.len()
        invariant
            i <= v@.len(),
            v@ == s@,
            value <= u8::MAX,
            small_number(s@) == small_digits(v@.skip(i as int), value as nat),
        decreases v@.len() - i,
    {
        proof {
            assert(v@.skip(i as int)[0] == v@[i as int]);
            assert(v@.skip(i as int).drop_first() =~= v@.skip(i as int + 1));
        }
        let c = v[i];
        if !('0' <= c && c <= '9') {
            return Err("invalid digit found in string".to_owned());
        }
        value = value * 10 + (c as u32 - '0' as u32);
        if value > u8::MAX as u32 {
            return Err("number too large to fit in target type".to_owned());
        }
        i = i + 1;
    }
    Ok(value as u8)
}

/// Whether a word asks for everything.
pub open spec fn means_all(word: Word) -> bool {
    lower(word.text@) == lower("all"@)
}

/// The size that a position is to be reduced by, and whether it is to be closed.
pub open spec fn close_target(word: Word, position: Position) -> Result<(Double, bool), Seq<char>> {
    if means_all(word) {
        Ok((position.notional_usdt, true))
    } else {
        match word.number {
            Some(a) => Ok((a.value, false)),
            None => Err("目标金额必须是数字或 all："@ + word.text@),
        }
    }
}

/// The size that a position is to be reduced by, and whether it is to be closed.
pub fn parse_close_target(word: &Word, position: &Position) -> (r: Result<(Double, bool), String>)
    ensures
        answers(r, close_target(*word, *position)),
{
    if same_ignoring_case(word.text.as_str(), "all") {
        return Ok((position.notional_usdt, true));
    }
    match &word.number {
        Some(a) => Ok((a.value, false)),
        None => Err(join("目标金额必须是数字或 all：", word.text.as_str())),
    }
}

/// Whether a number lies between two others.
pub open spec fn between(x: Double, low: Double, high: Double) -> bool {
    low.le_spec(x) && x.le_spec(high)
}

/// What is wrong with the settings of a batch task.
pub open spec fn batch_fault(target: Double, order: Double, interval: Double) -> Option<Seq<char>> {
    if !between(target, Double { bits: TEN }, Double { bits: MILLION }) {
        Some("目标金额范围为 10–1,000,000 USDT"@)
    } else if !between(order, Double { bits: TEN }, target) {
        Some("单笔金额必须在 10 USDT 与目标金额之间"@)
    } else if !between(interval, Double { bits: HALF }, Double { bits: SECONDS_PER_HOUR }) {
        Some("批次间隔范围为 0.5–3,600 秒"@)
    } else {
        None
    }
}

/// Whether the settings of a batch task are in order.
pub fn validate_batch_settings(target: Double, order: Double, interval: Double) -> (r: Result<(), String>)
    ensures
        match batch_fault(target, order, interval) {
            None => r is Ok,
            Some(fault) => r matches Err(e) && e@ == fault,
        },
{
    if !(target.ge(Double { bits: TEN }) && target.le(Double { bits: MILLION })) {
        return Err("目标金额范围为 10–1,000,000 USDT".to_owned());
    }
    if !(order.ge(Double { bits: TEN }) && order.le(target)) {
        return Err("单笔金额必须在 10 USDT 与目标金额之间".to_owned());
    }
    if !(interval.ge(Double { bits: HALF }) && interval.le(Double { bits: SECONDS_PER_HOUR })) {
        return Err("批次间隔范围为 0.5–3,600 秒".to_owned());
    }
    Ok(())
}

/// Whether a leverage is one that can be set.
pub open spec fn leverage_ok(leverage: u8) -> bool {
    1 <= leverage <= 20
}

/// What the bot is asked for. Nothing of it trades: what would is confirmed by a
/// button first.
#[allow(inconsistent_fields)]
pub enum Command {
    Help,
    Opportunities,
    Positions,
    Account,
    Protection,
    SpreadStrategy,
    Open { token: String, notional: Amount, leverage: Option<u8> },
    BatchOpen { token: String, target: Amount, order: Amount, interval: Amount, leverage: Option<u8> },
    GuardOpen { token: String, target: Amount, leverage: Option<u8>, threshold: Option<Word> },
    Reduce { token: String, amount: Option<Word> },
    BatchReduce { token: String, target: Word, order: Amount, interval: Amount },
    NoLossClose { token: String, target: Word, threshold: Option<Double> },
    Leverage { token: String, leverage: u8 },
    Close { token: String },
    AutoClose { token: String, threshold: Amount, order: Option<Amount>, interval: Option<Amount> },
    AutoCloseList,
    AutoCloseCancel { id: String },
    Unknown,
}

/// One of the words of a command.
pub open spec fn word_at(words: Seq<Word>, i: int) -> Option<Word> {
    if 0 <= i < words.len() {
        Some(words[i])
    } else {
        None
    }
}

fn nth<'a>(words: &'a Vec<Word>, i: usize) -> (r: Option<&'a Word>)
    ensures
        deref(r) == word_at(words@, i as int),
{
    if i < words.len() {
        Some(&words[i])
    } else {
        None
    }
}

/// The name of a command: what its first word has before the first `@`.
pub open spec fn command_name(words: Seq<Word>) -> Seq<char> {
    if words.len() == 0 {
        ""@
    } else {
        pieces(words[0].text@, '@')[0]
    }
}

/// A leverage that may be left out.
pub open spec fn leverage_in(word: Option<Word>) -> Result<Option<u8>, Seq<char>> {
    match word {
        None => Ok(None),
        Some(w) => match small_number(w.text@) {
            Ok(n) => Ok(Some(n)),
            Err(fault) => Err(fault),
        },
    }
}

fn optional_leverage(word: Option<&Word>) -> (r: Result<Option<u8>, String>)
    ensures
        answers(r, leverage_in(deref(word))),
{
    match word {
        None => Ok(None),
        Some(w) => match parse_u8(w.text.as_str()) {
            Ok(n) => Ok(Some(n)),
            Err(e) => Err(e),
        },
    }
}

/// A number that may be left out.
pub open spec fn number_if(word: Option<Word>) -> Result<Option<Amount>, Seq<char>> {
    match word {
        None => Ok(None),
        Some(w) => match number_in(w) {
            Ok(a) => Ok(Some(a)),
            Err(fault) => Err(fault),
        },
    }
}

fn optional_number(word: Option<&Word>) -> (r: Result<Option<Amount>, String>)
    ensures
        answers(r, number_if(deref(word))),
{
    match word {
        None => Ok(None),
        Some(w) => match plain_number(w) {
            Ok(a) => Ok(Some(a)),
            Err(e) => Err(e),
        },
    }
}

/// The opening that a command asks for.
pub open spec fn open_in(words: Seq<Word>) -> Result<Command, Seq<char>> {
    match word_at(words, 1) {
        None => Err("用法：/open TOKEN 金额 [杠杆]"@),
        Some(token) => match named_number(word_at(words, 2), "金额"@) {
            Err(fault) => Err(fault),
            Ok(notional) => match leverage_in(word_at(words, 3)) {
                Err(fault) => Err(fault),
                Ok(leverage) => Ok(Command::Open { token: token.text, notional, leverage }),
            },
        },
    }
}

fn read_open(words: &Vec<Word>) -> (r: Result<Command, String>)
    ensures
        answers(r, open_in(words@)),
{
    let token = match nth(words, 1) {
        Some(w) => w.text.clone(),
        None => return Err("用法：/open TOKEN 金额 [杠杆]".to_owned()),
    };
    let notional = match parse_f64(nth(words, 2), "金额") {
        Ok(a) => a,
        Err(e) => return Err(e),
    };
    match optional_leverage(nth(words, 3)) {
        Ok(leverage) => Ok(Command::Open { token, notional, leverage }),
        Err(e) => Err(e),
    }
}

/// The opening in batches that a command asks for.
pub open spec fn batch_open_in(words: Seq<Word>) -> Result<Command, Seq<char>> {
    match word_at(words, 1) {
        None => Err("用法：/batch_open TOKEN 目标金额 单笔金额 间隔秒数 [杠杆]"@),
        Some(token) => match named_number(word_at(words, 2), "目标金额"@) {
            Err(fault) => Err(fault),
            Ok(target) => match named_number(word_at(words, 3), "单笔金额"@) {
                Err(fault) => Err(fault),
                Ok(order) => match named_number(word_at(words, 4), "间隔秒数"@) {
                    Err(fault) => Err(fault),
                    Ok(interval) => match leverage_in(word_at(words, 5)) {
                        Err(fault) => Err(fault),
                        Ok(leverage) => Ok(
                            Command::BatchOpen { token: token.text, target, order, interval, leverage },
                        ),
                    },
                },
            },
        },
    }
}

fn read_batch_open(words: &Vec<Word>) -> (r: Result<Command, String>)
    ensures
        answers(r, batch_open_in(words@)),
{
    let token = match nth(words, 1) {
        Some(w) => w.text.clone(),
        None => return Err("用法：/batch_open TOKEN 目标金额 单笔金额 间隔秒数 [杠杆]".to_owned()),
    };
    let target = match parse_f64(nth(words, 2), "目标金额") {
        Ok(a) => a,
        Err(e) => return Err(e),
    };
    let order = match parse_f64(nth(words, 3), "单笔金额") {
        Ok(a) => a,
        Err(e) => return Err(e),
    };
    let interval = match parse_f64(nth(words, 4), "间隔秒数") {
        Ok(a) => a,
        Err(e) => return Err(e),
    };
    match optional_leverage(nth(words, 5)) {
        Ok(leverage) => Ok(Command::BatchOpen { token, target, order, interval, leverage }),
        Err(e) => Err(e),
    }
}

/// The guarded opening that a command asks for. The threshold is read once the
/// route is known.
pub open spec fn guard_open_in(words: Seq<Word>) -> Result<Command, Seq<char>> {
    match word_at(words, 1) {
        None => Err("用法：/guard_open TOKEN 目标金额 [杠杆] [最低价差%]"@),
        Some(token) => match named_number(word_at(words, 2), "目标金额"@) {
            Err(fault) => Err(fault),
            Ok(target) => match leverage_in(word_at(words, 3)) {
                Err(fault) => Err(fault),
                Ok(leverage) => Ok(
                    Command::GuardOpen {
                        token: token.text,
                        target,
                        leverage,
                        threshold: word_at(words, 4),
                    },
                ),
            },
        },
    }
}

fn copy_word(word: Option<&Word>) -> (r: Option<Word>)
    ensures
        r == deref(word),
{
    match word {
        Some(w) => Some(w.clone()),
        None => None,
    }
}

fn read_guard_open(words: &Vec<Word>) -> (r: Result<Command, String>)
    ensures
        answers(r, guard_open_in(words@)),
{
    let token = match nth(words, 1) {
        Some(w) => w.text.clone(),
        None => return Err("用法：/guard_open TOKEN 目标金额 [杠杆] [最低价差%]".to_owned()),
    };
    let target = match parse_f64(nth(words, 2), "目标金额") {
        Ok(a) => a,
        Err(e) => return Err(e),
    };
    match optional_leverage(nth(words, 3)) {
        Ok(leverage) => Ok(
            Command::GuardOpen { token, target, leverage, threshold: copy_word(nth(words, 4)) },
        ),
        Err(e) => Err(e),
    }
}

/// The reduction in batches that a command asks for.
pub open spec fn batch_reduce_in(words: Seq<Word>) -> Result<Command, Seq<char>> {
    match (word_at(words, 1), word_at(words, 2)) {
        (None, _) => Err("用法：/batch_reduce TOKEN 目标金额 单笔金额 间隔秒数"@),
        (Some(_), None) => Err("缺少目标金额"@),
        (Some(token), Some(target)) => match named_number(word_at(words, 3), "单笔金额"@) {
            Err(fault) => Err(fault),
            Ok(order) => match named_number(word_at(words, 4), "间隔秒数"@) {
                Err(fault) => Err(fault),
                Ok(interval) => Ok(Command::BatchReduce { token: token.text, target, order, interval }),
            },
        },
    }
}

fn read_batch_reduce(words: &Vec<Word>) -> (r: Result<Command, String>)
    ensures
        answers(r, batch_reduce_in(words@)),
{
    let token = match nth(words, 1) {
        Some(w) => w.text.clone(),
        None => return Err("用法：/batch_reduce TOKEN 目标金额 单笔金额 间隔秒数".to_owned()),
    };
    let target = match nth(words, 2) {
        Some(w) => w.clone(),
        None => return Err("缺少目标金额".to_owned()),
    };
    let order = match parse_f64(nth(words, 3), "单笔金额") {
        Ok(a) => a,
        Err(e) => return Err(e),
    };
    match parse_f64(nth(words, 4), "间隔秒数") {
        Ok(interval) => Ok(Command::BatchReduce { token, target, order, interval }),
        Err(e) => Err(e),
    }
}

/// A percentage that may be left out, as a share.
pub open spec fn share_if(word: Option<Word>) -> Result<Option<Double>, Seq<char>> {
    match word {
        None => Ok(None),
        Some(w) => match w.number {
            Some(a) => Ok(Some(a.value.div_spec(Double { bits: HUNDRED }))),
            None => Err("最高平仓价差必须是数字"@),
        },
    }
}

/// The closing without a loss that a command asks for.
pub open spec fn no_loss_close_in(words: Seq<Word>) -> Result<Command, Seq<char>> {
    match (word_at(words, 1), word_at(words, 2)) {
        (None, _) => Err("用法：/no_loss_close TOKEN 目标金额 [最高平仓价差%]"@),
        (Some(_), None) => Err("缺少目标金额"@),
        (Some(token), Some(target)) => match share_if(word_at(words, 3)) {
            Err(fault) => Err(fault),
            Ok(threshold) => Ok(Command::NoLossClose { token: token.text, target, threshold }),
        },
    }
}

fn read_no_loss_close(words: &Vec<Word>) -> (r: Result<Command, String>)
    ensures
        answers(r, no_loss_close_in(words@)),
{
    let token = match nth(words, 1) {
        Some(w) => w.text.clone(),
        None => return Err("用法：/no_loss_close TOKEN 目标金额 [最高平仓价差%]".to_owned()),
    };
    let target = match nth(words, 2) {
        Some(w) => w.clone(),
        None => return Err("缺少目标金额".to_owned()),
    };
    let threshold = match nth(words, 3) {
        None => None,
        Some(w) => match &w.number {
            Some(a) => Some(a.value.div(Double { bits: HUNDRED })),
            None => return Err("最高平仓价差必须是数字".to_owned()),
        },
    };
    Ok(Command::NoLossClose { token, target, threshold })
}

/// The leverage that a command asks for.
pub open spec fn leverage_command_in(words: Seq<Word>) -> Result<Command, Seq<char>> {
    match (word_at(words, 1), word_at(words, 2)) {
        (None, _) => Err("用法：/leverage TOKEN 杠杆"@),
        (Some(_), None) => Err("缺少杠杆"@),
        (Some(token), Some(w)) => match small_number(w.text@) {
            Err(fault) => Err(fault),
            Ok(leverage) => if leverage_ok(leverage) {
                Ok(Command::Leverage { token: token.text, leverage })
            } else {
                Err("杠杆范围为 1–20×"@)
            },
        },
    }
}

fn read_leverage(words: &Vec<Word>) -> (r: Result<Command, String>)
    ensures
        answers(r, leverage_command_in(words@)),
{
    let token = match nth(words, 1) {
        Some(w) => w.text.clone(),
        None => return Err("用法：/leverage TOKEN 杠杆".to_owned()),
    };
    let leverage: u8 = match nth(words, 2) {
        Some(w) => match parse_u8(w.text.as_str()) {
            Ok(n) => n,
            Err(e) => return Err(e),
        },
        None => return Err("缺少杠杆".to_owned()),
    };
    if leverage < 1 || leverage > 20 {
        return Err("杠杆范围为 1–20×".to_owned());
    }
    Ok(Command::Leverage { token, leverage })
}

/// The rule that a command asks for.
pub open spec fn auto_close_in(words: Seq<Word>) -> Result<Command, Seq<char>> {
    match word_at(words, 1) {
        None => Err("用法：/autoclose TOKEN APY阈值 [单笔金额] [间隔秒数]"@),
        Some(token) => match named_number(word_at(words, 2), "APY 阈值"@) {
            Err(fault) => Err(fault),
            Ok(threshold) => match number_if(word_at(words, 3)) {
                Err(fault) => Err(fault),
                Ok(order) => match number_if(word_at(words, 4)) {
                    Err(fault) => Err(fault),
                    Ok(interval) => Ok(
                        Command::AutoClose { token: token.text, threshold, order, interval },
                    ),
                },
            },
        },
    }
}

fn read_auto_close(words: &Vec<Word>) -> (r: Result<Command, String>)
    ensures
        answers(r, auto_close_in(words@)),
{
    let token = match nth(words, 1) {
        Some(w) => w.text.clone(),
        None => return Err("用法：/autoclose TOKEN APY阈值 [单笔金额] [间隔秒数]".to_owned()),
    };
    let threshold = match parse_f64(nth(words, 2), "APY 阈值") {
        Ok(a) => a,
        Err(e) => return Err(e),
    };
    let order = match optional_number(nth(words, 3)) {
        Ok(a) => a,
        Err(e) => return Err(e),
    };
    match optional_number(nth(words, 4)) {
        Ok(interval) => Ok(Command::AutoClose { token, threshold, order, interval }),
        Err(e) => Err(e),
    }
}

/// What the words of a message ask for.
pub open spec fn command_in(words: Seq<Word>) -> Result<Command, Seq<char>> {
    let name = command_name(words);
    if name == "/start"@ || name == "/help"@ {
        Ok(Command::Help)
    } else if name == "/opportunities"@ || name == "/opps"@ {
        Ok(Command::Opportunities)
    } else if name == "/positions"@ || name == "/status"@ {
        Ok(Command::Positions)
    } else if name == "/account"@ || name == "/balance"@ {
        Ok(Command::Account)
    } else if name == "/protection"@ {
        Ok(Command::Protection)
    } else if name == "/spread_strategy"@ {
        Ok(Command::SpreadStrategy)
    } else if name == "/open"@ {
        open_in(words)
    } else if name == "/batch_open"@ {
        batch_open_in(words)
    } else if name == "/guard_open"@ {
        guard_open_in(words)
    } else if name == "/reduce"@ {
        match word_at(words, 1) {
            None => Err("用法：/reduce TOKEN 金额"@),
            Some(token) => Ok(Command::Reduce { token: token.text, amount: word_at(words, 2) }),
        }
    } else if name == "/batch_reduce"@ {
        batch_reduce_in(words)
    } else if name == "/no_loss_close"@ {
        no_loss_close_in(words)
    } else if name == "/leverage"@ {
        leverage_command_in(words)
    } else if name == "/close"@ {
        match word_at(words, 1) {
            None => Err("用法：/close TOKEN"@),
            Some(token) => Ok(Command::Close { token: token.text }),
        }
    } else if name == "/autoclose"@ {
        auto_close_in(words)
    } else if name == "/autoclose_list"@ {
        Ok(Command::AutoCloseList)
    } else if name == "/autoclose_cancel"@ {
        match word_at(words, 1) {
            None => Err("用法：/autoclose_cancel RULE_ID"@),
            Some(id) => Ok(Command::AutoCloseCancel { id: id.text }),
        }
    } else {
        Ok(Command::Unknown)
    }
}

fn read_name(words: &Vec<Word>) -> (name: String)
    ensures
        name@ == command_name(words@),
{
    if words.len() == 0 {
        return "".to_owned();
    }
    let parts = split(words[0].text.as_str(), '@');
    proof {
        lemma_pieces_nonempty(words@[0].text@, '@');
        assert(texts(parts@)[0] == parts@[0]@);
    }
    parts[0].clone()
}

/// What the words of a message ask for.
pub fn handle_command(words: &Vec<Word>) -> (r: Result<Command, String>)
    ensures
        answers(r, command_in(words@)),
{
    let owned = read_name(words);
    let name = owned.as_str();
    if same(name, "/start") || same(name, "/help") {
        Ok(Command::Help)
    } else if same(name, "/opportunities") || same(name, "/opps") {
        Ok(Command::Opportunities)
    } else if same(name, "/positions") || same(name, "/status") {
        Ok(Command::Positions)
    } else if same(name, "/account") || same(name, "/balance") {
        Ok(Command::Account)
    } else if same(name, "/protection") {
        Ok(Command::Protection)
    } else if same(name, "/spread_strategy") {
        Ok(Command::SpreadStrategy)
    } else if same(name, "/open") {
        read_open(words)
    } else if same(name, "/batch_open") {
        read_batch_open(words)
    } else if same(name, "/guard_open") {
        read_guard_open(words)
    } else if same(name, "/reduce") {
        match nth(words, 1) {
            None => Err("用法：/reduce TOKEN 金额".to_owned()),
            Some(token) => Ok(
                Command::Reduce { token: token.text.clone(), amount: copy_word(nth(words, 2)) },
            ),
        }
    } else if same(name, "/batch_reduce") {
        read_batch_reduce(words)
    } else if same(name, "/no_loss_close") {
        read_no_loss_close(words)
    } else if same(name, "/leverage") {
        read_leverage(words)
    } else if same(name, "/close") {
        match nth(words, 1) {
            None => Err("用法：/close TOKEN".to_owned()),
            Some(token) => Ok(Command::Close { token: token.text.clone() }),
        }
    } else if same(name, "/autoclose") {
        read_auto_close(words)
    } else if same(name, "/autoclose_list") {
        Ok(Command::AutoCloseList)
    } else if same(name, "/autoclose_cancel") {
        match nth(words, 1) {
            None => Err("用法：/autoclose_cancel RULE_ID".to_owned()),
            Some(id) => Ok(Command::AutoCloseCancel { id: id.text.clone() }),
        }
    } else {
        Ok(Command::Unknown)
    }
}

/// The threshold of a guarded opening: what was said, or the present gap.
pub open spec fn threshold_or(word: Option<Word>, spread: Double) -> Result<Double, Seq<char>> {
    match word {
        None => Ok(spread),
        Some(w) => match number_in(w) {
            Ok(a) => Ok(a.value.div_spec(Double { bits: HUNDRED })),
            Err(fault) => Err(fault),
        },
    }
}

/// The threshold of a guarded opening: what was said, or the present gap.
pub fn guard_threshold(word: Option<&Word>, spread: Double) -> (r: Result<Double, String>)
    ensures
        answers(r, threshold_or(deref(word), spread)),
{
    match word {
        None => Ok(spread),
        Some(w) => match plain_number(w) {
            Ok(a) => Ok(a.value.div(Double { bits: HUNDRED })),
            Err(e) => Err(e),
        },
    }
}

} // verus!
