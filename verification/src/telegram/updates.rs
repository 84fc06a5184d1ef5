//! Messages and pressed buttons: which of them the bot acts on.

use crate::config::TelegramConfig;
use crate::models::copy_text;
use crate::models::Opportunity;
use crate::telegram::questions::{batch_open_mark, guard_open_mark, open_mark};
use crate::telegram::replies::{bar, route_mark};
use crate::telegram::text::initial;
use crate::telegram::words::{authorized, listens_to};
use crate::parsing::{split_whitespace, words};
use crate::text::{digits, join, pieces, split, texts};
use vstd::prelude::*;
use vstd::string::StringExecFns;

verus! {

/// A message.
#[derive(Debug)]
pub struct Message {
    pub chat_id: i64,
    pub user_id: Option<i64>,
    pub text: Option<String>,
    pub topic_id: Option<i64>,
}

/// The message that a pressed button stands below.
#[derive(Debug)]
pub struct CallbackMessage {
    pub chat_id: i64,
    pub message_id: i64,
    pub topic_id: Option<i64>,
}

/// A pressed button.
#[derive(Debug)]
pub struct CallbackQuery {
    pub id: String,
    pub user_id: i64,
    pub message: Option<CallbackMessage>,
    pub data: Option<String>,
}

/// What happened.
#[derive(Debug)]
pub struct Update {
    pub update_id: i64,
    pub message: Option<Message>,
    pub callback_query: Option<CallbackQuery>,
}

/// What is done about it.
pub enum Handling {
    /// Nothing.
    Ignore,
    /// A command is carried out.
    Command(String),
    /// A pressed button is acknowledged, and where it sends something that is
    /// carried out.
    Pressed { query_id: String, message_id: i64, data: Option<String> },
}

/// What is done about something that happened.
pub open spec fn handling_of(config: TelegramConfig, update: Update) -> Handling {
    match (update.message, update.callback_query) {
        (Some(m), _) => if listens_to(config, m.chat_id, m.user_id, m.topic_id) && m.text is Some {
            Handling::Command(m.text->0)
        } else {
            Handling::Ignore
        },
        (None, Some(q)) => match q.message {
            Some(m) => if listens_to(config, m.chat_id, Some(q.user_id), m.topic_id) {
                Handling::Pressed { query_id: q.id, message_id: m.message_id, data: q.data }
            } else {
                Handling::Ignore
            },
            None => Handling::Ignore,
        },
        (None, None) => Handling::Ignore,
    }
}

/// What is done about something that happened: only what comes from someone the
/// bot listens to counts.
pub fn handle_update(config: &TelegramConfig, update: &Update) -> (r: Handling)
    ensures
        r == handling_of(*config, *update),
{
    if let Some(m) = &update.message {
        if !authorized(config, m.chat_id, m.user_id, m.topic_id) {
            return Handling::Ignore;
        }
        return match &m.text {
            Some(text) => Handling::Command(text.clone()),
            None => Handling::Ignore,
        };
    }
    if let Some(q) = &update.callback_query {
        if let Some(m) = &q.message {
            if authorized(config, m.chat_id, Some(q.user_id), m.topic_id) {
                return Handling::Pressed {
                    query_id: q.id.clone(),
                    message_id: m.message_id,
                    data: copy_text(&q.data),
                };
            }
        }
    }
    Handling::Ignore
}

/// What the bot has done about all that happened up to an update.
pub fn next_offset(update_id: i64) -> (offset: i64)
    requires
        update_id < i64::MAX,
    ensures
        offset == update_id + 1,
{
    update_id + 1
}

/// Whether a method of Telegram went through, or what is wrong with its answer.
pub fn check_call(method: &str, ok: bool, description: Option<String>, has_result: bool) -> (r: Result<(), String>)
    ensures
        if !ok {
            r matches Err(e) && e@ == "Telegram "@ + method@ + ": "@ + (match description {
                Some(text) => text@,
                None => "unknown error"@,
            })
        } else if !has_result {
            r matches Err(e) && e@ == "Telegram "@ + method@ + " returned no result"@
        } else {
            r is Ok
        },
{
    if !ok {
        let mut e = join("Telegram ", method);
        e.append(": ");
        match description {
            Some(text) => {
                e.append(text.as_str());
            },
            None => {
                e.append("unknown error");
            },
        }
        return Err(e);
    }
    if !has_result {
        let mut e = join("Telegram ", method);
        e.append(" returned no result");
        return Err(e);
    }
    Ok(())
}

/// What comes from elsewhere, or from someone the bot does not listen to, is not
/// acted on.
pub proof fn lemma_strangers_are_ignored(config: TelegramConfig, update: Update)
    requires
        update.message is Some ==> !listens_to(
            config,
            (update.message->0).chat_id,
            (update.message->0).user_id,
            (update.message->0).topic_id,
        ),
        update.message is None && update.callback_query is Some && (update.callback_query->0).message is Some
            ==> !listens_to(
            config,
            ((update.callback_query->0).message->0).chat_id,
            Some((update.callback_query->0).user_id),
            ((update.callback_query->0).message->0).topic_id,
        ),
    ensures
        handling_of(config, update) is Ignore,
{
}

/// Whether a text can be a part of what a button sends.
pub open spec fn is_part(s: Seq<char>) -> bool {
    forall|i: int| 0 <= i < s.len() ==> #[trigger] s[i] != '|'
}

/// What stands before a bar is read back as a part of its own.
pub proof fn lemma_bar_reads_back(first: Seq<char>, rest: Seq<char>)
    requires
        is_part(first),
    ensures
        pieces(bar(first, rest), '|') == seq![first] + pieces(rest, '|'),
    decreases first.len(),
{
    reveal_strlit("|");
    let whole = bar(first, rest);
    if first.len() == 0 {
        assert(whole =~= seq!['|'] + rest);
        assert(whole.drop_first() =~= rest);
        assert(first =~= Seq::<char>::empty());
    } else {
        let shorter = first.drop_first();
        assert forall|i: int| 0 <= i < shorter.len() implies #[trigger] shorter[i] != '|' by {
            assert(shorter[i] == first[i + 1]);
        }
        lemma_bar_reads_back(shorter, rest);
        assert(whole.drop_first() =~= bar(shorter, rest));
        assert(whole[0] == first[0]);
        let found = seq![shorter] + pieces(rest, '|');
        assert(seq![first[0]] + shorter =~= first);
        assert(found.update(0, seq![first[0]] + found[0]) =~= seq![first] + pieces(rest, '|'));
    }
}

/// A part alone is read back as itself.
pub proof fn lemma_part_reads_back(s: Seq<char>)
    requires
        is_part(s),
    ensures
        pieces(s, '|') == seq![s],
    decreases s.len(),
{
    if s.len() == 0 {
        assert(s =~= Seq::<char>::empty());
    } else {
        let shorter = s.drop_first();
        assert forall|i: int| 0 <= i < shorter.len() implies #[trigger] shorter[i] != '|' by {
            assert(shorter[i] == s[i + 1]);
        }
        lemma_part_reads_back(shorter);
        assert(seq![s[0]] + shorter =~= s);
        assert(seq![shorter].update(0, s) =~= seq![s]);
    }
}

/// The digits of a number are a part.
proof fn lemma_digits_are_a_part(n: nat)
    ensures
        is_part(digits(n)),
    decreases n,
{
    if n >= 10 {
        lemma_digits_are_a_part(n / 10);
    }
}

/// Whether the names of a route can stand on a button.
pub open spec fn nameable(offer: Opportunity) -> bool {
    is_part(offer.token.symbol@) && is_part(offer.long.exchange@) && is_part(offer.short.exchange@)
}

proof fn lemma_route_reads_back(offer: Opportunity, rest: Seq<char>)
    requires
        nameable(offer),
    ensures
        pieces(bar(route_mark(offer), rest), '|') == seq![
            offer.token.symbol@,
            initial(offer.long.exchange@),
            initial(offer.short.exchange@),
        ] + pieces(rest, '|'),
{
    let symbol = offer.token.symbol@;
    let long = initial(offer.long.exchange@);
    let short = initial(offer.short.exchange@);
    assert(bar(route_mark(offer), rest) =~= bar(symbol, bar(long, bar(short, rest))));
    lemma_bar_reads_back(symbol, bar(long, bar(short, rest)));
    lemma_bar_reads_back(long, bar(short, rest));
    lemma_bar_reads_back(short, rest);
    assert(seq![symbol] + (seq![long] + (seq![short] + pieces(rest, '|'))) =~= seq![symbol, long, short] + pieces(
        rest,
        '|',
    ));
}

/// The button that confirms an opening sends what was asked: the route, the
/// size and the leverage.
pub proof fn lemma_open_button_says_what_was_asked(offer: Opportunity, notional: Seq<char>, leverage: u8)
    requires
        nameable(offer),
        is_part(notional),
    ensures
        pieces(open_mark(offer, notional, leverage), '|') == seq![
            "ox"@,
            offer.token.symbol@,
            initial(offer.long.exchange@),
            initial(offer.short.exchange@),
            notional,
            digits(leverage as nat),
        ],
{
    reveal_strlit("ox");
    let last = digits(leverage as nat);
    lemma_digits_are_a_part(leverage as nat);
    lemma_bar_reads_back("ox"@, bar(route_mark(offer), bar(notional, last)));
    lemma_route_reads_back(offer, bar(notional, last));
    lemma_bar_reads_back(notional, last);
    lemma_part_reads_back(last);
    assert(pieces(open_mark(offer, notional, leverage), '|') =~= seq![
        "ox"@,
        offer.token.symbol@,
        initial(offer.long.exchange@),
        initial(offer.short.exchange@),
        notional,
        last,
    ]);
}

/// The button that confirms an opening in batches sends what was asked.
pub proof fn lemma_batch_button_says_what_was_asked(
    offer: Opportunity,
    target: Seq<char>,
    order: Seq<char>,
    interval: Seq<char>,
    leverage: u8,
)
    requires
        nameable(offer),
        is_part(target),
        is_part(order),
        is_part(interval),
    ensures
        pieces(batch_open_mark(offer, target, order, interval, leverage), '|') == seq![
            "box"@,
            offer.token.symbol@,
            initial(offer.long.exchange@),
            initial(offer.short.exchange@),
            target,
            order,
            interval,
            digits(leverage as nat),
        ],
{
    reveal_strlit("box");
    let last = digits(leverage as nat);
    let sizes = bar(target, bar(order, bar(interval, last)));
    lemma_digits_are_a_part(leverage as nat);
    lemma_bar_reads_back("box"@, bar(route_mark(offer), sizes));
    lemma_route_reads_back(offer, sizes);
    lemma_bar_reads_back(target, bar(order, bar(interval, last)));
    lemma_bar_reads_back(order, bar(interval, last));
    lemma_bar_reads_back(interval, last);
    lemma_part_reads_back(last);
    assert(pieces(batch_open_mark(offer, target, order, interval, leverage), '|') =~= seq![
        "box"@,
        offer.token.symbol@,
        initial(offer.long.exchange@),
        initial(offer.short.exchange@),
        target,
        order,
        interval,
        last,
    ]);
}

/// The button that confirms a guarded opening sends what was asked.
pub proof fn lemma_guard_button_says_what_was_asked(
    offer: Opportunity,
    target: Seq<char>,
    leverage: u8,
    threshold: Seq<char>,
)
    requires
        nameable(offer),
        is_part(target),
        is_part(threshold),
    ensures
        pieces(guard_open_mark(offer, target, leverage, threshold), '|') == seq![
            "gox"@,
            offer.token.symbol@,
            initial(offer.long.exchange@),
            initial(offer.short.exchange@),
            target,
            digits(leverage as nat),
            threshold,
        ],
{
    reveal_strlit("gox");
    let middle = digits(leverage as nat);
    let sizes = bar(target, bar(middle, threshold));
    lemma_digits_are_a_part(leverage as nat);
    lemma_bar_reads_back("gox"@, bar(route_mark(offer), sizes));
    lemma_route_reads_back(offer, sizes);
    lemma_bar_reads_back(target, bar(middle, threshold));
    lemma_bar_reads_back(middle, threshold);
    lemma_part_reads_back(threshold);
    assert(pieces(guard_open_mark(offer, target, leverage, threshold), '|') =~= seq![
        "gox"@,
        offer.token.symbol@,
        initial(offer.long.exchange@),
        initial(offer.short.exchange@),
        target,
        middle,
        threshold,
    ]);
}

/// The words of a message.
pub fn message_words(text: &str) -> (parts: Vec<String>)
    ensures
        texts(parts@) == words(text@),
{
    split_whitespace(text)
}

/// The parts of what a button sends: what stands between the bars.
pub fn payload_parts(data: &str) -> (parts: Vec<String>)
    ensures
        texts(parts@) == pieces(data@, '|'),
{
    split(data, '|')
}

} // verus!
