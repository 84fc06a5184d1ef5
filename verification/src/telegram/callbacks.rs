//! The buttons of the bot.

use crate::telegram::words::{answers, Word};
use crate::text::same;
use vstd::prelude::*;

verus! {

/// What a button asks for. Those that trade stand below a question that names
/// what they do; the others show something, or ask.
pub enum Callback {
    Opportunities,
    Positions,
    Account,
    Protection,
    AutoCloseList,
    Task { id: String },
    Offer { token: String, long: String, short: String },
    OfferHistory { token: String, long: String, short: String },
    PositionHistory { id: String },
    AskOpen { token: String, long: String, short: String, amount: Word, leverage: String },
    Open { token: String, long: String, short: String, amount: Word, leverage: String },
    AskBatchOpen { token: String, long: String, short: String, target: Word, order: Word, interval: Word, leverage: String },
    BatchOpen { token: String, long: String, short: String, target: Word, order: Word, interval: Word, leverage: String },
    GuardOpen { token: String, long: String, short: String, target: Word, leverage: String, threshold: Word },
    Position { id: String },
    AskAdd { id: String, amount: Word },
    AskReduce { id: String, amount: Word },
    Reduce { id: String, amount: Word },
    AskBatchReduce { id: String, target: Word, order: Word, interval: Word },
    BatchReduce { id: String, target: Word, order: Word, interval: Word },
    NoLossClose { id: String, target: Word },
    NoLossCloseAt { id: String, target: Word, threshold: Word },
    AskCancelTask { id: String },
    CancelTask { id: String },
    AskLeverage { id: String, leverage: String },
    Leverage { id: String, leverage: String },
    AskClose { id: String },
    Close { id: String },
    AskAutoClose { id: String, threshold: Word, amount: Word, interval: Word },
    AutoClose { id: String, threshold: Word, amount: Word, interval: Word },
    CancelAutoClose { id: String },
}

/// What the parts of a button ask for, if it is one of the bot's.
pub open spec fn callback_in(parts: Seq<Word>) -> Result<Callback, Seq<char>> {
    let n = parts.len();
    if n == 0 {
        Err("按钮已失效，请重新查询"@)
    } else {
        let tag = parts[0].text@;
        if tag == "opps"@ && n == 1 {
            Ok(Callback::Opportunities)
        } else if tag == "pos"@ && n == 1 {
            Ok(Callback::Positions)
        } else if tag == "acct"@ && n == 1 {
            Ok(Callback::Account)
        } else if tag == "protect"@ && n == 1 {
            Ok(Callback::Protection)
        } else if tag == "al"@ && n == 1 {
            Ok(Callback::AutoCloseList)
        } else if tag == "bt"@ && n == 2 {
            Ok(
                Callback::Task { id: parts[1].text },
            )
        } else if tag == "o"@ && n == 4 {
            Ok(
                Callback::Offer { token: parts[1].text, long: parts[2].text, short: parts[3].text },
            )
        } else if tag == "oh"@ && n == 4 {
            Ok(
                Callback::OfferHistory { token: parts[1].text, long: parts[2].text, short: parts[3].text },
            )
        } else if tag == "ph"@ && n == 2 {
            Ok(
                Callback::PositionHistory { id: parts[1].text },
            )
        } else if tag == "oc"@ && n == 6 {
            Ok(
                Callback::AskOpen { token: parts[1].text, long: parts[2].text, short: parts[3].text, amount: parts[4], leverage: parts[5].text },
            )
        } else if tag == "ox"@ && n == 6 {
            Ok(
                Callback::Open { token: parts[1].text, long: parts[2].text, short: parts[3].text, amount: parts[4], leverage: parts[5].text },
            )
        } else if tag == "boc"@ && n == 8 {
            Ok(
                Callback::AskBatchOpen { token: parts[1].text, long: parts[2].text, short: parts[3].text, target: parts[4], order: parts[5], interval: parts[6], leverage: parts[7].text },
            )
        } else if tag == "box"@ && n == 8 {
            Ok(
                Callback::BatchOpen { token: parts[1].text, long: parts[2].text, short: parts[3].text, target: parts[4], order: parts[5], interval: parts[6], leverage: parts[7].text },
            )
        } else if tag == "gox"@ && n == 7 {
            Ok(
                Callback::GuardOpen { token: parts[1].text, long: parts[2].text, short: parts[3].text, target: parts[4], leverage: parts[5].text, threshold: parts[6] },
            )
        } else if tag == "p"@ && n == 2 {
            Ok(
                Callback::Position { id: parts[1].text },
            )
        } else if tag == "ac"@ && n == 3 {
            Ok(
                Callback::AskAdd { id: parts[1].text, amount: parts[2] },
            )
        } else if tag == "rc"@ && n == 3 {
            Ok(
                Callback::AskReduce { id: parts[1].text, amount: parts[2] },
            )
        } else if tag == "rx"@ && n == 3 {
            Ok(
                Callback::Reduce { id: parts[1].text, amount: parts[2] },
            )
        } else if tag == "brc"@ && n == 5 {
            Ok(
                Callback::AskBatchReduce { id: parts[1].text, target: parts[2], order: parts[3], interval: parts[4] },
            )
        } else if tag == "brx"@ && n == 5 {
            Ok(
                Callback::BatchReduce { id: parts[1].text, target: parts[2], order: parts[3], interval: parts[4] },
            )
        } else if tag == "nlx"@ && n == 3 {
            Ok(
                Callback::NoLossClose { id: parts[1].text, target: parts[2] },
            )
        } else if tag == "nlx"@ && n == 4 {
            Ok(
                Callback::NoLossCloseAt { id: parts[1].text, target: parts[2], threshold: parts[3] },
            )
        } else if tag == "bcc"@ && n == 2 {
            Ok(
                Callback::AskCancelTask { id: parts[1].text },
            )
        } else if tag == "bcx"@ && n == 2 {
            Ok(
                Callback::CancelTask { id: parts[1].text },
            )
        } else if tag == "lc"@ && n == 3 {
            Ok(
                Callback::AskLeverage { id: parts[1].text, leverage: parts[2].text },
            )
        } else if tag == "lx"@ && n == 3 {
            Ok(
                Callback::Leverage { id: parts[1].text, leverage: parts[2].text },
            )
        } else if tag == "cc"@ && n == 2 {
            Ok(
                Callback::AskClose { id: parts[1].text },
            )
        } else if tag == "cx"@ && n == 2 {
            Ok(
                Callback::Close { id: parts[1].text },
            )
        } else if tag == "auc"@ && n == 5 {
            Ok(
                Callback::AskAutoClose { id: parts[1].text, threshold: parts[2], amount: parts[3], interval: parts[4] },
            )
        } else if tag == "aux"@ && n == 5 {
            Ok(
                Callback::AutoClose { id: parts[1].text, threshold: parts[2], amount: parts[3], interval: parts[4] },
            )
        } else if tag == "ax"@ && n == 2 {
            Ok(
                Callback::CancelAutoClose { id: parts[1].text },
            )
        } else {
            Err("按钮已失效，请重新查询"@)
        }
    }
}

/// What the parts of a button ask for.
pub fn handle_callback(parts: &Vec<Word>) -> (r: Result<Callback, String>)
    ensures
        answers(r, callback_in(parts@)),
{
    let n: usize = parts.len();
    if n == 0 {
        return Err("按钮已失效，请重新查询".to_owned());
    }
    let tag = parts[0].text.as_str();
    if same(tag, "opps") && n == 1 {
        Ok(Callback::Opportunities)
    } else if same(tag, "pos") && n == 1 {
        Ok(Callback::Positions)
    } else if same(tag, "acct") && n == 1 {
        Ok(Callback::Account)
    } else if same(tag, "protect") && n == 1 {
        Ok(Callback::Protection)
    } else if same(tag, "al") && n == 1 {
        Ok(Callback::AutoCloseList)
    } else if same(tag, "bt") && n == 2 {
        Ok(
            Callback::Task {
                id: parts[1].text.clone(),
            },
        )
    } else if same(tag, "o") && n == 4 {
        Ok(
            Callback::Offer {
                token: parts[1].text.clone(),
                long: parts[2].text.clone(),
                short: parts[3].text.clone(),
            },
        )
    } else if same(tag, "oh") && n == 4 {
        Ok(
            Callback::OfferHistory {
                token: parts[1].text.clone(),
                long: parts[2].text.clone(),
                short: parts[3].text.clone(),
            },
        )
    } else if same(tag, "ph") && n == 2 {
        Ok(
            Callback::PositionHistory {
                id: parts[1].text.clone(),
            },
        )
    } else if same(tag, "oc") && n == 6 {
        Ok(
            Callback::AskOpen {
                token: parts[1].text.clone(),
                long: parts[2].text.clone(),
                short: parts[3].text.clone(),
                amount: parts[4].clone(),
                leverage: parts[5].text.clone(),
            },
        )
    } else if same(tag, "ox") && n == 6 {
        Ok(
            Callback::Open {
                token: parts[1].text.clone(),
                long: parts[2].text.clone(),
                short: parts[3].text.clone(),
                amount: parts[4].clone(),
                leverage: parts[5].text.clone(),
            },
        )
    } else if same(tag, "boc") && n == 8 {
        Ok(
            Callback::AskBatchOpen {
                token: parts[1].text.clone(),
                long: parts[2].text.clone(),
                short: parts[3].text.clone(),
                target: parts[4].clone(),
                order: parts[5].clone(),
                interval: parts[6].clone(),
                leverage: parts[7].text.clone(),
            },
        )
    } else if same(tag, "box") && n == 8 {
        Ok(
            Callback::BatchOpen {
                token: parts[1].text.clone(),
                long: parts[2].text.clone(),
                short: parts[3].text.clone(),
                target: parts[4].clone(),
                order: parts[5].clone(),
                interval: parts[6].clone(),
                leverage: parts[7].text.clone(),
            },
        )
    } else if same(tag, "gox") && n == 7 {
        Ok(
            Callback::GuardOpen {
                token: parts[1].text.clone(),
                long: parts[2].text.clone(),
                short: parts[3].text.clone(),
                target: parts[4].clone(),
                leverage: parts[5].text.clone(),
                threshold: parts[6].clone(),
            },
        )
    } else if same(tag, "p") && n == 2 {
        Ok(
            Callback::Position {
                id: parts[1].text.clone(),
            },
        )
    } else if same(tag, "ac") && n == 3 {
        Ok(
            Callback::AskAdd {
                id: parts[1].text.clone(),
                amount: parts[2].clone(),
            },
        )
    } else if same(tag, "rc") && n == 3 {
        Ok(
            Callback::AskReduce {
                id: parts[1].text.clone(),
                amount: parts[2].clone(),
            },
        )
    } else if same(tag, "rx") && n == 3 {
        Ok(
            Callback::Reduce {
                id: parts[1].text.clone(),
                amount: parts[2].clone(),
            },
        )
    } else if same(tag, "brc") && n == 5 {
        Ok(
            Callback::AskBatchReduce {
                id: parts[1].text.clone(),
                target: parts[2].clone(),
                order: parts[3].clone(),
                interval: parts[4].clone(),
            },
        )
    } else if same(tag, "brx") && n == 5 {
        Ok(
            Callback::BatchReduce {
                id: parts[1].text.clone(),
                target: parts[2].clone(),
                order: parts[3].clone(),
                interval: parts[4].clone(),
            },
        )
    } else if same(tag, "nlx") && n == 3 {
        Ok(
            Callback::NoLossClose {
                id: parts[1].text.clone(),
                target: parts[2].clone(),
            },
        )
    } else if same(tag, "nlx") && n == 4 {
        Ok(
            Callback::NoLossCloseAt {
                id: parts[1].text.clone(),
                target: parts[2].clone(),
                threshold: parts[3].clone(),
            },
        )
    } else if same(tag, "bcc") && n == 2 {
        Ok(
            Callback::AskCancelTask {
                id: parts[1].text.clone(),
            },
        )
    } else if same(tag, "bcx") && n == 2 {
        Ok(
            Callback::CancelTask {
                id: parts[1].text.clone(),
            },
        )
    } else if same(tag, "lc") && n == 3 {
        Ok(
            Callback::AskLeverage {
                id: parts[1].text.clone(),
                leverage: parts[2].text.clone(),
            },
        )
    } else if same(tag, "lx") && n == 3 {
        Ok(
            Callback::Leverage {
                id: parts[1].text.clone(),
                leverage: parts[2].text.clone(),
            },
        )
    } else if same(tag, "cc") && n == 2 {
        Ok(
            Callback::AskClose {
                id: parts[1].text.clone(),
            },
        )
    } else if same(tag, "cx") && n == 2 {
        Ok(
            Callback::Close {
                id: parts[1].text.clone(),
            },
        )
    } else if same(tag, "auc") && n == 5 {
        Ok(
            Callback::AskAutoClose {
                id: parts[1].text.clone(),
                threshold: parts[2].clone(),
                amount: parts[3].clone(),
                interval: parts[4].clone(),
            },
        )
    } else if same(tag, "aux") && n == 5 {
        Ok(
            Callback::AutoClose {
                id: parts[1].text.clone(),
                threshold: parts[2].clone(),
                amount: parts[3].clone(),
                interval: parts[4].clone(),
            },
        )
    } else if same(tag, "ax") && n == 2 {
        Ok(
            Callback::CancelAutoClose {
                id: parts[1].text.clone(),
            },
        )
    } else {
        Err("按钮已失效，请重新查询".to_owned())
    }
}

/// Whether a button trades: it sends orders, sets a leverage, or starts what
/// will.
pub open spec fn trades(callback: Callback) -> bool {
    match callback {
        Callback::Open { .. } => true,
        Callback::BatchOpen { .. } => true,
        Callback::GuardOpen { .. } => true,
        Callback::Reduce { .. } => true,
        Callback::BatchReduce { .. } => true,
        Callback::NoLossClose { .. } => true,
        Callback::NoLossCloseAt { .. } => true,
        Callback::Leverage { .. } => true,
        Callback::Close { .. } => true,
        Callback::AutoClose { .. } => true,
        _ => false,
    }
}

/// Whether a button is one that confirms a trade.
pub open spec fn confirms_trade(tag: Seq<char>) -> bool {
    tag == "ox"@ || tag == "box"@ || tag == "gox"@ || tag == "rx"@ || tag == "brx"@ || tag == "nlx"@ || tag == "lx"@ || tag == "cx"@ || tag == "aux"@
}

/// Only a button that confirms a trade trades.
pub proof fn lemma_trades_are_confirmed(parts: Seq<Word>)
    requires
        callback_in(parts) is Ok,
        trades(callback_in(parts)->Ok_0),
    ensures
        parts.len() > 0,
        confirms_trade(parts[0].text@),
{
}

} // verus!
