//! The desk: what it holds, and what it was told to do.

use crate::config::{Config, TradingMode};
use crate::failure::{Failure, Reason};
use crate::models::{AutoCloseRule, BatchIncreaseTask, HedgeProtectionEvent, OpportunitiesResponse, Opportunity, Position};
use crate::num::Double;
use crate::parsing::{trim, trimmed};
use crate::sorting::occurs_among;
use crate::text::{join, same, to_ascii_uppercase, upper};
use crate::trading::live::plain;
use crate::trading::protection::ProtectedRoute;
use crate::trading::rules::{rearm, rearmed};
use crate::trading::tasks::active;
use vstd::prelude::*;

verus! {

/// The desk that opens, watches and closes hedged positions.
pub struct TradingService {
    pub config: Config,
    pub paper_positions: Vec<Position>,
    pub batch_tasks: Vec<BatchIncreaseTask>,
    pub auto_close_rules: Vec<AutoCloseRule>,
    pub managed_symbols: Vec<String>,
    pub protected_routes: Vec<ProtectedRoute>,
    pub position_funding_baselines: Vec<(String, Double)>,
    pub protection_events: Vec<HedgeProtectionEvent>,
}

/// The most events that are kept.
pub const PROTECTION_EVENTS_KEPT: usize = 100;

/// Whether at most one task holds the desk.
pub open spec fn one_active(tasks: Seq<BatchIncreaseTask>) -> bool {
    forall|i: int, j: int|
        0 <= i < j < tasks.len() ==> !(active(#[trigger] tasks[i]) && active(#[trigger] tasks[j]))
}

pub fn is_held(list: &Vec<String>, text: &str) -> (b: bool)
    ensures
        b == occurs_among(list@, text@),
{
    let mut i: usize = 0;
    while i < list.len()
        invariant
            i <= list@.len(),
            forall|j: int| 0 <= j < i ==> (#[trigger] list@[j])@ != text@,
        decreases list@.len() - i,
    {
        if same(list[i].as_str(), text) {
            return true;
        }
        i = i + 1;
    }
    false
}

/// Whether a list is another one with a text added, unless it was there or is
/// empty.
pub open spec fn added(new: Seq<String>, old: Seq<String>, text: Seq<char>) -> bool {
    if text.len() == 0 || occurs_among(old, text) {
        new == old
    } else {
        new.len() == old.len() + 1 && new.drop_last() == old && new.last()@ == text
    }
}

fn insert_text(list: &mut Vec<String>, text: String) -> (inserted: bool)
    ensures
        added(final(list)@, old(list)@, text@),
        inserted == (text@.len() > 0 && !occurs_among(old(list)@, text@)),
{
    if text.as_str().unicode_len() == 0 || is_held(list, text.as_str()) {
        return false;
    }
    let ghost before = list@;
    list.push(text);
    proof {
        assert(list@.drop_last() =~= before);
    }
    true
}

/// Whether a list is another one with texts added, one after the other.
pub open spec fn all_added(new: Seq<String>, old: Seq<String>, more: Seq<Seq<char>>) -> bool
    decreases more.len(),
{
    if more.len() == 0 {
        new == old
    } else {
        exists|mid: Seq<String>|
            all_added(mid, old, more.drop_last()) && #[trigger] added(new, mid, more.last())
    }
}

/// The symbols of a list of names, in their usual form.
pub open spec fn usual(names: Seq<String>) -> Seq<Seq<char>> {
    Seq::new(names.len(), |i: int| upper(trimmed(names[i]@)))
}

/// The symbols of the tokens that rules watch.
pub open spec fn watched(rules: Seq<AutoCloseRule>) -> Seq<Seq<char>> {
    Seq::new(rules.len(), |i: int| upper(rules[i].token@) + "USDT"@)
}

/// The first offer of an identifier.
pub open spec fn offer(offers: Seq<Opportunity>, id: Seq<char>) -> Option<int>
    decreases offers.len(),
{
    if offers.len() == 0 {
        None
    } else if offers[0].id@ == id {
        Some(0)
    } else {
        match offer(offers.drop_first(), id) {
            Some(i) => Some(i + 1),
            None => None,
        }
    }
}

fn find_offer(offers: &Vec<Opportunity>, id: &str) -> (r: Option<usize>)
    ensures
        match r {
            Some(i) => i < offers@.len() && offer(offers@, id@) == Some(i as int),
            None => offer(offers@, id@) is None,
        },
{
    let mut i: usize = 0;
    proof {
        assert(offers@.skip(0) =~= offers@);
    }
    while i < offers.len()
        invariant
            i <= offers@.len(),
            offer(offers@, id@) == match offer(offers@.skip(i as int), id@) {
                Some(j) => Some(j + i),
                None => None,
            },
        decreases offers@.len() - i,
    {
        proof {
            assert(offers@.skip(i as int)[0] == offers@[i as int]);
            assert(offers@.skip(i as int).drop_first() =~= offers@.skip(i as int + 1));
        }
        if same(offers[i].id.as_str(), id) {
            return Some(i);
        }
        i = i + 1;
    }
    None
}

/// The offer of an identifier: first among the funding routes, then among those
/// over the spot market, then among the spreads.
pub open spec fn resolved(snapshot: OpportunitiesResponse, id: Seq<char>) -> Option<Opportunity> {
    if offer(snapshot.opportunities@, id) is Some {
        Some(snapshot.opportunities@[offer(snapshot.opportunities@, id)->0])
    } else if offer(snapshot.spot_opportunities@, id) is Some {
        Some(snapshot.spot_opportunities@[offer(snapshot.spot_opportunities@, id)->0])
    } else if offer(snapshot.spread_opportunities@, id) is Some {
        Some(snapshot.spread_opportunities@[offer(snapshot.spread_opportunities@, id)->0])
    } else {
        None
    }
}

/// The offer that a request names.
pub fn resolve_opportunity<'a>(snapshot: &'a OpportunitiesResponse, id: &str) -> (r: Result<&'a Opportunity, Failure>)
    ensures
        match r {
            Ok(o) => resolved(*snapshot, id@) == Some(*o),
            Err(f) => resolved(*snapshot, id@) is None && f == plain(Reason::OpportunityGone),
        },
{
    if let Some(i) = find_offer(&snapshot.opportunities, id) {
        return Ok(&snapshot.opportunities[i]);
    }
    if let Some(i) = find_offer(&snapshot.spot_opportunities, id) {
        return Ok(&snapshot.spot_opportunities[i]);
    }
    if let Some(i) = find_offer(&snapshot.spread_opportunities, id) {
        return Ok(&snapshot.spread_opportunities[i]);
    }
    Err(Failure::new(Reason::OpportunityGone))
}

impl TradingService {
    pub open spec fn wf(self) -> bool {
        &&& one_active(self.batch_tasks@)
        &&& self.protection_events@.len() <= PROTECTION_EVENTS_KEPT
    }

    /// Whether orders are real.
    pub open spec fn live(self) -> bool {
        self.config.trading_mode == TradingMode::Live
    }

    /// A desk that takes up what was left by an earlier one: rules that were
    /// being carried out are armed again, and the symbols they watch are
    /// managed.
    pub fn new(
        config: Config,
        rules: Vec<AutoCloseRule>,
        symbols: Vec<String>,
        baselines: Vec<(String, Double)>,
    ) -> (service: TradingService)
        ensures
            service.wf(),
            service.config == config,
            service.paper_positions@ == Seq::<Position>::empty(),
            service.batch_tasks@ == Seq::<BatchIncreaseTask>::empty(),
            rearmed(service.auto_close_rules@, rules@),
            all_added(service.managed_symbols@, Seq::empty(), usual(symbols@) + watched(rules@)),
            service.protected_routes@ == Seq::<ProtectedRoute>::empty(),
            service.position_funding_baselines@ == baselines@,
            service.protection_events@ == Seq::<HedgeProtectionEvent>::empty(),
    {
        let mut managed: Vec<String> = Vec::new();
        let ghost all = usual(symbols@) + watched(rules@);
        let mut i: usize = 0;
        proof {
            assert(all.take(0) =~= Seq::empty());
            assert(managed@ =~= Seq::<String>::empty());
        }
        while i < symbols.len()
            invariant
                i <= symbols@.len(),
                all == usual(symbols@) + watched(rules@),
                all_added(managed@, Seq::empty(), all.take(i as int)),
            decreases symbols@.len() - i,
        {
            let ghost before = managed@;
            let ghost next = all.take(i as int + 1);
            let symbol = to_ascii_uppercase(trim(symbols[i].as_str()).as_str());
            insert_text(&mut managed, symbol);
            proof {
                assert(next.drop_last() =~= all.take(i as int));
                assert(next.last() == upper(trimmed(symbols@[i as int]@)));
                assert(all_added(before, Seq::empty(), next.drop_last()));
            }
            i = i + 1;
        }
        let mut k: usize = 0;
        while k < rules.len()
            invariant
                k <= rules@.len(),
                all == usual(symbols@) + watched(rules@),
                all_added(managed@, Seq::empty(), all.take(symbols@.len() + k)),
            decreases rules@.len() - k,
        {
            let ghost before = managed@;
            let ghost next = all.take(symbols@.len() + k + 1);
            let symbol = join(to_ascii_uppercase(rules[k].token.as_str()).as_str(), "USDT");
            insert_text(&mut managed, symbol);
            proof {
                assert(next.drop_last() =~= all.take(symbols@.len() + k));
                assert(next.last() == watched(rules@)[k as int]);
                assert(all_added(before, Seq::empty(), next.drop_last()));
            }
            k = k + 1;
        }
        proof {
            assert(all.take(all.len() as int) =~= all);
        }
        TradingService {
            config,
            paper_positions: Vec::new(),
            batch_tasks: Vec::new(),
            auto_close_rules: rearm(&rules),
            managed_symbols: managed,
            protected_routes: Vec::new(),
            position_funding_baselines: baselines,
            protection_events: Vec::new(),
        }
    }

    /// Manages a symbol from now on. The result says whether it is new.
    pub fn remember_managed_symbol(&mut self, symbol: &str) -> (inserted: bool)
        ensures
            *final(self) == (TradingService { managed_symbols: final(self).managed_symbols, ..*old(self) }),
            added(
                final(self).managed_symbols@,
                old(self).managed_symbols@,
                upper(trimmed(symbol@)),
            ),
            inserted == (trimmed(symbol@).len() > 0 && !occurs_among(
                old(self).managed_symbols@,
                upper(trimmed(symbol@)),
            )),
    {
        let name = to_ascii_uppercase(trim(symbol).as_str());
        insert_text(&mut self.managed_symbols, name)
    }
}

/// A managed symbol stays managed, and is not managed twice.
pub proof fn lemma_added_keeps(new: Seq<String>, old: Seq<String>, text: Seq<char>, other: Seq<char>)
    requires
        added(new, old, text),
        occurs_among(old, other),
    ensures
        occurs_among(new, other),
        text.len() > 0 ==> occurs_among(new, text),
{
    let i = choose|i: int| 0 <= i < old.len() && (#[trigger] old[i])@ == other;
    if text.len() == 0 || occurs_among(old, text) {
    } else {
        assert(new.drop_last()[i] == new[i]);
        assert(new[i]@ == other);
        assert(new[new.len() - 1]@ == text);
    }
}

} // verus!
