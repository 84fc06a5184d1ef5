//! What the bot answers.

use crate::models::{Opportunity, Position};
use crate::telegram::text::{initial, short_exchange};
use crate::text::{join, lower, same, same_ignoring_case};
use vstd::prelude::*;
use vstd::string::StringExecFns;

verus! {

/// A button below a message.
#[derive(Debug)]
pub struct Button {
    pub text: String,
    pub callback_data: String,
}

/// The buttons below a message, in rows.
pub type Keyboard = Vec<Vec<Button>>;

/// A message, with its buttons.
#[derive(Debug)]
pub struct Reply {
    pub text: String,
    pub keyboard: Keyboard,
}

/// What the buttons of a row show and send.
pub open spec fn marks(row: Seq<Button>) -> Seq<(Seq<char>, Seq<char>)> {
    row.map_values(|b: Button| (b.text@, b.callback_data@))
}

/// What the buttons below a message show and send.
pub open spec fn keys(keyboard: Seq<Vec<Button>>) -> Seq<Seq<(Seq<char>, Seq<char>)>> {
    keyboard.map_values(|row: Vec<Button>| marks(row@))
}

/// A button.
pub fn button(text: &str, callback_data: &str) -> (b: Button)
    ensures
        b.text@ == text@,
        b.callback_data@ == callback_data@,
{
    Button { text: text.to_owned(), callback_data: callback_data.to_owned() }
}

/// A row of one button.
pub fn row_of_one(text: &str, data: &str) -> (row: Vec<Button>)
    ensures
        marks(row@) == seq![(text@, data@)],
{
    let mut row: Vec<Button> = Vec::new();
    row.push(button(text, data));
    proof {
        assert(marks(row@) =~= seq![(text@, data@)]);
    }
    row
}

/// A row of two buttons.
pub fn row_of_two(text: &str, data: &str, other_text: &str, other_data: &str) -> (row: Vec<Button>)
    ensures
        marks(row@) == seq![(text@, data@), (other_text@, other_data@)],
{
    let mut row: Vec<Button> = Vec::new();
    row.push(button(text, data));
    row.push(button(other_text, other_data));
    proof {
        assert(marks(row@) =~= seq![(text@, data@), (other_text@, other_data@)]);
    }
    row
}

/// Adds a row of buttons.
pub fn add_row(keyboard: &mut Vec<Vec<Button>>, row: Vec<Button>)
    ensures
        keys(final(keyboard)@) == keys(old(keyboard)@).push(marks(row@)),
{
    let ghost before = keyboard@;
    let ghost added = row@;
    keyboard.push(row);
    proof {
        assert(keys(keyboard@) =~= keys(before).push(marks(added)));
    }
}

/// No buttons.
pub fn no_rows() -> (keyboard: Vec<Vec<Button>>)
    ensures
        keys(keyboard@) == Seq::<Seq<(Seq<char>, Seq<char>)>>::empty(),
{
    let keyboard: Vec<Vec<Button>> = Vec::new();
    proof {
        assert(keys(keyboard@) =~= Seq::<Seq<(Seq<char>, Seq<char>)>>::empty());
    }
    keyboard
}

/// A message with one row of one button.
pub open spec fn one_button(reply: Reply, text: Seq<char>, mark: (Seq<char>, Seq<char>)) -> bool {
    reply.text@ == text && keys(reply.keyboard@) == seq![seq![mark]]
}

/// A message with one row of two buttons.
pub open spec fn two_buttons(
    reply: Reply,
    text: Seq<char>,
    mark: (Seq<char>, Seq<char>),
    other: (Seq<char>, Seq<char>),
) -> bool {
    reply.text@ == text && keys(reply.keyboard@) == seq![seq![mark, other]]
}

/// A message without buttons.
pub open spec fn bare(reply: Reply, text: Seq<char>) -> bool {
    reply.text@ == text && keys(reply.keyboard@) == Seq::<Seq<(Seq<char>, Seq<char>)>>::empty()
}

/// A message without buttons.
pub fn bare_reply(text: String) -> (reply: Reply)
    ensures
        bare(reply, text@),
{
    Reply { text, keyboard: no_rows() }
}

/// A message with one button.
pub fn reply_with_one(text: String, label: &str, data: &str) -> (reply: Reply)
    ensures
        one_button(reply, text@, (label@, data@)),
{
    let mut keyboard = no_rows();
    add_row(&mut keyboard, row_of_one(label, data));
    proof {
        assert(keys(keyboard@) =~= seq![seq![(label@, data@)]]);
    }
    Reply { text, keyboard }
}

/// A message with two buttons beside each other.
pub fn reply_with_two(text: String, label: &str, data: &str, other_label: &str, other_data: &str) -> (reply: Reply)
    ensures
        two_buttons(reply, text@, (label@, data@), (other_label@, other_data@)),
{
    let mut keyboard = no_rows();
    add_row(&mut keyboard, row_of_two(label, data, other_label, other_data));
    proof {
        assert(keys(keyboard@) =~= seq![seq![(label@, data@), (other_label@, other_data@)]]);
    }
    Reply { text, keyboard }
}

/// Two parts of what a button sends.
pub open spec fn bar(first: Seq<char>, rest: Seq<char>) -> Seq<char> {
    first + "|"@ + rest
}

/// Two parts of what a button sends.
pub fn with_bar(first: &str, rest: &str) -> (r: String)
    ensures
        r@ == bar(first@, rest@),
{
    join(join(first, "|").as_str(), rest)
}

/// How a button names a route: its token, and the initials of its exchanges.
pub open spec fn route_mark(offer: Opportunity) -> Seq<char> {
    bar(offer.token.symbol@, bar(initial(offer.long.exchange@), initial(offer.short.exchange@)))
}

/// How a button names a route.
pub fn route_of(offer: &Opportunity) -> (r: String)
    ensures
        r@ == route_mark(*offer),
{
    let exchanges = with_bar(
        short_exchange(offer.long.exchange.as_str()).as_str(),
        short_exchange(offer.short.exchange.as_str()).as_str(),
    );
    with_bar(offer.token.symbol.as_str(), exchanges.as_str())
}

/// Whether an exchange is the one that is named, where one is.
pub open spec fn named_so(exchange: Seq<char>, name: Option<Seq<char>>) -> bool {
    name is Some ==> lower(initial(exchange)) == lower(name->0)
}

/// Whether a route is the one that is asked for.
pub open spec fn is_asked(
    offer: Opportunity,
    token: Seq<char>,
    long: Option<Seq<char>>,
    short: Option<Seq<char>>,
) -> bool {
    &&& lower(offer.token.symbol@) == lower(token)
    &&& named_so(offer.long.exchange@, long)
    &&& named_so(offer.short.exchange@, short)
}

/// The first route that is asked for.
pub open spec fn asked_route(
    offers: Seq<Opportunity>,
    token: Seq<char>,
    long: Option<Seq<char>>,
    short: Option<Seq<char>>,
) -> Option<Opportunity>
    decreases offers.len(),
{
    if offers.len() == 0 {
        None
    } else if is_asked(offers[0], token, long, short) {
        Some(offers[0])
    } else {
        asked_route(offers.drop_first(), token, long, short)
    }
}

/// The text of an optional name.
pub open spec fn name_view(name: Option<&str>) -> Option<Seq<char>> {
    match name {
        Some(s) => Some(s@),
        None => None,
    }
}

fn is_named(exchange: &str, name: Option<&str>) -> (b: bool)
    ensures
        b == named_so(exchange@, name_view(name)),
{
    match name {
        Some(s) => same_ignoring_case(short_exchange(exchange).as_str(), s),
        None => true,
    }
}

fn find_asked<'a>(offers: &'a Vec<Opportunity>, token: &str, long: Option<&str>, short: Option<&str>) -> (r: Option<
    &'a Opportunity,
>)
    ensures
        asked_route(offers@, token@, name_view(long), name_view(short)) == (match r {
            Some(o) => Some(*o),
            None => None,
        }),
{
    let mut i: usize = 0;
    proof {
        assert(offers@.skip(0) =~= offers@);
    }
    while i < offers.len()
        invariant
            i <= offers@.len(),
            asked_route(offers@, token@, name_view(long), name_view(short)) == asked_route(
                offers@.skip(i as int),
                token@,
                name_view(long),
                name_view(short),
            ),
        decreases offers@.len() - i,
    {
        proof {
            assert(offers@.skip(i as int)[0] == offers@[i as int]);
            assert(offers@.skip(i as int).drop_first() =~= offers@.skip(i as int + 1));
        }
        let offer = &offers[i];
        if same_ignoring_case(offer.token.symbol.as_str(), token) && is_named(offer.long.exchange.as_str(), long)
            && is_named(offer.short.exchange.as_str(), short) {
            return Some(offer);
        }
        i = i + 1;
    }
    None
}

proof fn lemma_asked_in_either(
    first: Seq<Opportunity>,
    second: Seq<Opportunity>,
    token: Seq<char>,
    long: Option<Seq<char>>,
    short: Option<Seq<char>>,
)
    ensures
        asked_route(first + second, token, long, short) == (match asked_route(first, token, long, short) {
            Some(o) => Some(o),
            None => asked_route(second, token, long, short),
        }),
    decreases first.len(),
{
    if first.len() == 0 {
        assert(first + second =~= second);
    } else {
        assert((first + second)[0] == first[0]);
        assert((first + second).drop_first() =~= first.drop_first() + second);
        lemma_asked_in_either(first.drop_first(), second, token, long, short);
    }
}

/// The route that is asked for: over two contracts first, then over a coin.
pub fn find_opportunity(
    offers: &Vec<Opportunity>,
    spot_offers: &Vec<Opportunity>,
    token: &str,
    long: Option<&str>,
    short: Option<&str>,
) -> (r: Result<Opportunity, String>)
    ensures
        match asked_route(offers@ + spot_offers@, token@, name_view(long), name_view(short)) {
            Some(o) => r matches Ok(x) && x.copies(o),
            None => r matches Err(e) && e@ == "该套利机会已不存在，请刷新机会列表"@,
        },
{
    proof {
        lemma_asked_in_either(offers@, spot_offers@, token@, name_view(long), name_view(short));
    }
    if let Some(o) = find_asked(offers, token, long, short) {
        return Ok(o.clone());
    }
    match find_asked(spot_offers, token, long, short) {
        Some(o) => Ok(o.clone()),
        None => Err("该套利机会已不存在，请刷新机会列表".to_owned()),
    }
}

/// The first position of a name.
pub open spec fn named_position(positions: Seq<Position>, id: Seq<char>) -> Option<Position>
    decreases positions.len(),
{
    if positions.len() == 0 {
        None
    } else if positions[0].id@ == id {
        Some(positions[0])
    } else {
        named_position(positions.drop_first(), id)
    }
}

/// The position of a name.
pub fn find_position(positions: &Vec<Position>, id: &str) -> (r: Result<Position, String>)
    ensures
        match named_position(positions@, id@) {
            Some(p) => r matches Ok(x) && x == p,
            None => r matches Err(e) && e@ == "仓位不存在或已经平仓"@,
        },
{
    let mut i: usize = 0;
    proof {
        assert(positions@.skip(0) =~= positions@);
    }
    while i < positions.len()
        invariant
            i <= positions@.len(),
            named_position(positions@, id@) == named_position(positions@.skip(i as int), id@),
        decreases positions@.len() - i,
    {
        proof {
            assert(positions@.skip(i as int)[0] == positions@[i as int]);
            assert(positions@.skip(i as int).drop_first() =~= positions@.skip(i as int + 1));
        }
        if same(positions[i].id.as_str(), id) {
            return Ok(positions[i].clone());
        }
        i = i + 1;
    }
    Err("仓位不存在或已经平仓".to_owned())
}

/// The first position of a token, however it is spelled.
pub open spec fn token_position(positions: Seq<Position>, token: Seq<char>) -> Option<Position>
    decreases positions.len(),
{
    if positions.len() == 0 {
        None
    } else if lower(positions[0].token@) == lower(token) {
        Some(positions[0])
    } else {
        token_position(positions.drop_first(), token)
    }
}

/// The position of a token.
pub fn find_position_by_token(positions: &Vec<Position>, token: &str) -> (r: Result<Position, String>)
    ensures
        match token_position(positions@, token@) {
            Some(p) => r matches Ok(x) && x == p,
            None => r matches Err(e) && e@ == "找不到 "@ + token@ + " 的套利仓位"@,
        },
{
    let mut i: usize = 0;
    proof {
        assert(positions@.skip(0) =~= positions@);
    }
    while i < positions.len()
        invariant
            i <= positions@.len(),
            token_position(positions@, token@) == token_position(positions@.skip(i as int), token@),
        decreases positions@.len() - i,
    {
        proof {
            assert(positions@.skip(i as int)[0] == positions@[i as int]);
            assert(positions@.skip(i as int).drop_first() =~= positions@.skip(i as int + 1));
        }
        if same_ignoring_case(positions[i].token.as_str(), token) {
            return Ok(positions[i].clone());
        }
        i = i + 1;
    }
    let mut e = join("找不到 ", token);
    e.append(" 的套利仓位");
    Err(e)
}

/// The leverage of an opening: what was said, or that of the position, or five.
pub open spec fn chosen_leverage(said: Option<u8>, positions: Seq<Position>, token: Seq<char>) -> u8 {
    match said {
        Some(n) => n,
        None => match token_position(positions, token) {
            Some(p) => p.leverage,
            None => 5,
        },
    }
}

/// The leverage of an opening: what was said, or that of the position, or five.
pub fn choose_leverage(said: Option<u8>, positions: &Vec<Position>, token: &str) -> (r: u8)
    ensures
        r == chosen_leverage(said, positions@, token@),
{
    match said {
        Some(n) => n,
        None => match find_position_by_token(positions, token) {
            Ok(p) => p.leverage,
            Err(_) => 5,
        },
    }
}

} // verus!
