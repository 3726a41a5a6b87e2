//! The stock of one flavor as the whole shop sees it: what is on the
//! token, what has been scooped, and what a lost token takes with it.

use crate::flavor_token::{lemma_token_new, lemma_token_serve, FlavorToken};
use crate::token_backup::{lemma_pass_lowers, merged_over, TokenBackup};
use vstd::prelude::*;

verus! {

/// The stock of one flavor.
pub struct Stock {
    /// Grams when the shop opened.
    pub initial: nat,
    /// The token, while it is in the ring or with a robot.
    pub token: Option<FlavorToken>,
    /// Grams scooped so far.
    pub scooped: nat,
    /// The amount the token held when a robot last noted it.
    pub last_noted: u32,
    /// Grams that were being scooped when a token got lost with its robot.
    pub in_flight: nat,
}

/// What can happen to the stock of a flavor.
pub enum StockEvent {
    /// A robot scoops this many grams and notes the token as it hands it on.
    Scoop(u32),
    /// The token gets lost between two robots.
    LostInTransit,
    /// The robot that holds the token is lost while it scoops this many grams.
    LostInScoop(u32),
    /// A probe has gone round the ring, past robots that had noted these
    /// amounts, and the token is made anew from it.
    Recovered(TokenBackup, Seq<u32>),
}

impl Stock {
    /// The stock when the shop opens.
    pub open spec fn opening(token: FlavorToken) -> Stock {
        Stock {
            initial: token.spec_amount() as nat,
            token: Some(token),
            scooped: 0,
            last_noted: token.spec_amount(),
            in_flight: 0,
        }
    }

    /// Whether the event can happen. A robot scoops only less than the
    /// token holds. A token can only get lost while there is one, and be
    /// made anew while there is none. The amounts that a probe meets were
    /// all noted on the token at some time, so none is below what was
    /// noted last; and the probe starts from, or meets, the one noted last.
    pub open spec fn allows(self, event: StockEvent) -> bool {
        match event {
            StockEvent::Scoop(grams) => self.token is Some && grams < self.token.unwrap().spec_amount(),
            StockEvent::LostInTransit => self.token is Some,
            StockEvent::LostInScoop(grams) => self.token is Some && grams
                < self.token.unwrap().spec_amount(),
            StockEvent::Recovered(probe, noted) => {
                &&& self.token is None
                &&& self.last_noted <= probe.spec_amount()
                &&& forall|i: int| 0 <= i < noted.len() ==> self.last_noted <= noted[i]
                &&& probe.spec_amount() == self.last_noted || exists|i: int|
                    0 <= i < noted.len() && noted[i] == self.last_noted
            },
        }
    }

    /// The stock after the event.
    pub open spec fn after(self, event: StockEvent) -> Stock {
        match event {
            StockEvent::Scoop(grams) => Stock {
                token: Some(self.token.unwrap().spec_serve(grams)),
                scooped: self.scooped + grams as nat,
                last_noted: self.token.unwrap().spec_serve(grams).spec_amount(),
                ..self
            },
            StockEvent::LostInTransit => Stock { token: None, ..self },
            StockEvent::LostInScoop(grams) => Stock {
                token: None,
                scooped: self.scooped + grams as nat,
                in_flight: self.in_flight + grams as nat,
                ..self
            },
            StockEvent::Recovered(probe, noted) => Stock {
                token: Some(
                    FlavorToken::spec_new(
                        probe.spec_flavor_id(),
                        merged_over(probe, noted).spec_amount(),
                    ),
                ),
                ..self
            },
        }
    }

    /// Grams on the token, or none while it is lost.
    pub open spec fn on_token(self) -> nat {
        match self.token {
            Some(token) => token.spec_amount() as nat,
            None => 0,
        }
    }

    /// The books balance: what the token held when it was last noted, and
    /// what has been scooped, add up to the opening stock and what was in
    /// flight when a token got lost; and a token that is there holds what
    /// was last noted.
    pub open spec fn balanced(self) -> bool {
        &&& self.last_noted + self.scooped == self.initial + self.in_flight
        &&& self.token is Some ==> self.token.unwrap().spec_amount() == self.last_noted
    }

    /// The stock after a run of events.
    pub open spec fn after_all(self, events: Seq<StockEvent>) -> Stock
        decreases events.len(),
    {
        if events.len() == 0 {
            self
        } else {
            self.after_all(events.drop_last()).after(events.last())
        }
    }

    /// Whether a run of events can happen, one after the other.
    pub open spec fn allows_all(self, events: Seq<StockEvent>) -> bool
        decreases events.len(),
    {
        events.len() == 0 || (self.allows_all(events.drop_last()) && self.after_all(
            events.drop_last(),
        ).allows(events.last()))
    }
}

/// An event that can happen keeps the books balanced.
pub proof fn lemma_event_keeps_balance(stock: Stock, event: StockEvent)
    requires
        stock.balanced(),
        stock.allows(event),
    ensures
        stock.after(event).balanced(),
        stock.after(event).initial == stock.initial,
        stock.after(event).in_flight >= stock.in_flight,
{
    match event {
        StockEvent::Scoop(grams) => {
            lemma_token_serve(stock.token.unwrap(), grams);
        },
        StockEvent::LostInTransit => {},
        StockEvent::LostInScoop(grams) => {},
        StockEvent::Recovered(probe, noted) => {
            let amount = merged_over(probe, noted).spec_amount();
            lemma_pass_lowers(probe, noted);
            lemma_recovered_amount(probe, noted, stock.last_noted);
            lemma_token_new(probe.spec_flavor_id(), amount);
        },
    }
}

/// A probe that starts no lower than `floor`, and meets only amounts no
/// lower than `floor`, ends no lower than `floor`.
pub proof fn lemma_recovered_amount(probe: TokenBackup, noted: Seq<u32>, floor: u32)
    requires
        floor <= probe.spec_amount(),
        forall|i: int| 0 <= i < noted.len() ==> floor <= noted[i],
    ensures
        floor <= merged_over(probe, noted).spec_amount(),
    decreases noted.len(),
{
    if noted.len() > 0 {
        assert forall|i: int| 0 <= i < noted.drop_last().len() implies floor
            <= noted.drop_last()[i] by {
            assert(noted.drop_last()[i] == noted[i]);
        }
        lemma_recovered_amount(probe, noted.drop_last(), floor);
        crate::token_backup::lemma_merge_monotone(
            merged_over(probe, noted.drop_last()),
            noted.last(),
        );
        assert(floor <= noted[noted.len() - 1]);
    }
}

/// At every moment of every run, what is on the token and what has been
/// scooped add up to no more than the opening stock and the grams that
/// were in flight when a token got lost; while no token has been lost in
/// a scoop, to no more than the opening stock. While the token is there,
/// the two sides are equal.
pub proof fn lemma_stock_is_conserved(token: FlavorToken, events: Seq<StockEvent>)
    requires
        Stock::opening(token).allows_all(events),
    ensures
        ({
            let now = Stock::opening(token).after_all(events);
            &&& now.balanced()
            &&& now.initial == token.spec_amount()
            &&& now.on_token() + now.scooped <= now.initial + now.in_flight
            &&& now.token is Some ==> now.on_token() + now.scooped == now.initial + now.in_flight
        }),
    decreases events.len(),
{
    if events.len() > 0 {
        lemma_stock_is_conserved(token, events.drop_last());
        lemma_event_keeps_balance(
            Stock::opening(token).after_all(events.drop_last()),
            events.last(),
        );
    }
}

/// A token is never made anew with more than it held when it was last
/// noted: what is made anew holds exactly that.
pub proof fn lemma_recovery_is_exact(stock: Stock, probe: TokenBackup, noted: Seq<u32>)
    requires
        stock.balanced(),
        stock.allows(StockEvent::Recovered(probe, noted)),
    ensures
        stock.after(StockEvent::Recovered(probe, noted)).on_token() == stock.last_noted,
{
    lemma_event_keeps_balance(stock, StockEvent::Recovered(probe, noted));
}

} // verus!
