//! The order manager of a robot: it holds the order at hand, uses the
//! tokens that come by, and starts the search for a token that stays away.

use crate::config::INITIAL_AMOUNT;
use crate::flavor_id::FlavorID;
use crate::flavor_token::FlavorToken;
use crate::messages::{
    AbortCurrentOrder, GetNewOrder, GetTokenBack, GetTokenBackup, OrderAborted, OrderPrepared,
    ScoopFlavor, SendTokenBackup, TimerWentOff, TransferToken,
};
use crate::order::copy_flavors;
use crate::token_backup::TokenBackup;
use crate::views::{lemma_views_push, views};
use std::collections::HashMap;
use vstd::prelude::*;

verus! {

/// The amount last seen on the token of each flavor, where one was seen,
/// as it is read from the tokens that the order manager keeps by the
/// place of their flavor.
pub open spec fn seen_amounts(kept: Map<usize, FlavorToken>) -> Map<FlavorID, u32> {
    Map::new(
        |f: FlavorID| kept.contains_key(f.spec_index() as usize),
        |f: FlavorID| kept[f.spec_index() as usize].spec_amount(),
    )
}

/// Keeps the token as the last one seen of its flavor.
fn note_token(kept: &mut HashMap<usize, FlavorToken>, token: FlavorToken)
    ensures
        seen_amounts(final(kept)@) == seen_amounts(old(kept)@).insert(
            token.spec_id(),
            token.spec_amount(),
        ),
{
    broadcast use vstd::std_specs::hash::group_hash_axioms;

    kept.insert(token.get_id().index(), token);
    assert(seen_amounts(kept@) =~= seen_amounts(old(kept)@).insert(
        token.spec_id(),
        token.spec_amount(),
    ));
}

/// The amount last seen of `flavor`, if any.
fn seen_of(kept: &HashMap<usize, FlavorToken>, flavor: FlavorID) -> (amount: Option<u32>)
    ensures
        amount == if seen_amounts(kept@).contains_key(flavor) {
            Some(seen_amounts(kept@)[flavor])
        } else {
            None
        },
{
    broadcast use vstd::std_specs::hash::group_hash_axioms;

    let place = flavor.index();
    match kept.get(&place) {
        Some(token) => Some(token.get_amnt()),
        None => None,
    }
}

/// What the order manager hands out.
#[derive(Debug, PartialEq, Eq, Clone)]
pub enum OrderManagerOutput {
    /// To the connection handler: pass this token on.
    GetTokenBack(GetTokenBack),
    /// To the order preparer: scoop with this token.
    ScoopFlavor(ScoopFlavor),
    /// To the connection handler: the order is ready.
    OrderPrepared(OrderPrepared),
    /// To the connection handler: the order was given up.
    OrderAborted(OrderAborted),
    /// To the connection handler: send this probe round the ring.
    SendTokenBackup(SendTokenBackup),
    /// Start the lost-token timer.
    StartTimer,
    /// Let the lost-token timer wait anew.
    ResetTimer,
    /// End the lost-token timer.
    StopTimer,
}

/// What an `OrderManagerOutput` is, mathematically.
pub enum OrderManagerOutputView {
    GetTokenBack(FlavorToken),
    ScoopFlavor(FlavorToken, u32),
    OrderPrepared(bool, Seq<char>),
    OrderAborted(bool, Seq<char>, FlavorID),
    SendTokenBackup(TokenBackup),
    StartTimer,
    ResetTimer,
    StopTimer,
}

impl DeepView for OrderManagerOutput {
    type V = OrderManagerOutputView;

    open spec fn deep_view(&self) -> OrderManagerOutputView {
        match *self {
            OrderManagerOutput::GetTokenBack(m) => OrderManagerOutputView::GetTokenBack(
                m.flavor_token,
            ),
            OrderManagerOutput::ScoopFlavor(m) => OrderManagerOutputView::ScoopFlavor(
                m.flavor_token,
                m.amount,
            ),
            OrderManagerOutput::OrderPrepared(m) => OrderManagerOutputView::OrderPrepared(
                m.order_result,
                m.id@,
            ),
            OrderManagerOutput::OrderAborted(m) => OrderManagerOutputView::OrderAborted(
                m.order_result,
                m.id@,
                m.flavor,
            ),
            OrderManagerOutput::SendTokenBackup(m) => OrderManagerOutputView::SendTokenBackup(
                m.token_backup,
            ),
            OrderManagerOutput::StartTimer => OrderManagerOutputView::StartTimer,
            OrderManagerOutput::ResetTimer => OrderManagerOutputView::ResetTimer,
            OrderManagerOutput::StopTimer => OrderManagerOutputView::StopTimer,
        }
    }
}

/// The order manager of one robot.
#[derive(Debug, PartialEq, Eq, Clone)]
pub struct OrderManager {
    flavors_needed: Vec<(FlavorID, u32)>,
    order_id: String,
    scooping: bool,
    aborted: bool,
    tokens_backup: HashMap<usize, FlavorToken>,
    rch_id: usize,
}

/// What an order manager is, mathematically.
pub struct OrderManagerView {
    /// What the order at hand still needs, in grams of each flavor.
    pub flavors_needed: Seq<(FlavorID, u32)>,
    /// The id of the order at hand.
    pub order_id: Seq<char>,
    /// Whether a token is with the order preparer.
    pub scooping: bool,
    /// Whether the robot was told to give up its orders.
    pub aborted: bool,
    /// The amount last seen on each token.
    pub seen: Map<FlavorID, u32>,
    /// The id of the robot.
    pub rch_id: usize,
}

/// A new state and what is handed out on the way to it.
pub struct OrderManagerStep {
    pub next: OrderManagerView,
    pub out: Seq<OrderManagerOutputView>,
}

/// The first place at which `flavor` stands in `needed`, if it stands there.
pub open spec fn position(needed: Seq<(FlavorID, u32)>, flavor: FlavorID) -> Option<int>
    decreases needed.len(),
{
    if needed.len() == 0 {
        None
    } else if needed[0].0 == flavor {
        Some(0)
    } else {
        match position(needed.drop_first(), flavor) {
            Some(i) => Some(i + 1),
            None => None,
        }
    }
}

/// `position` gives the first place of the flavor, and `None` exactly when
/// the flavor does not occur.
pub proof fn lemma_position(needed: Seq<(FlavorID, u32)>, flavor: FlavorID)
    ensures
        match position(needed, flavor) {
            Some(i) => 0 <= i < needed.len() && needed[i].0 == flavor && forall|j: int|
                0 <= j < i ==> (#[trigger] needed[j]).0 != flavor,
            None => forall|j: int| 0 <= j < needed.len() ==> (#[trigger] needed[j]).0 != flavor,
        },
    decreases needed.len(),
{
    if needed.len() > 0 && needed[0].0 != flavor {
        let rest = needed.drop_first();
        lemma_position(rest, flavor);
        match position(rest, flavor) {
            Some(i) => {
                assert forall|j: int| 0 <= j < i + 1 implies (#[trigger] needed[j]).0
                    != flavor by {
                    if j > 0 {
                        assert(rest[j - 1] == needed[j]);
                    }
                }
            },
            None => {
                assert forall|j: int| 0 <= j < needed.len() implies (#[trigger] needed[j]).0
                    != flavor by {
                    if j > 0 {
                        assert(rest[j - 1] == needed[j]);
                    }
                }
            },
        }
    }
}

/// The amount to start a probe for `flavor` with: what was last seen of
/// it, or `INITIAL_AMOUNT` where nothing was seen.
pub open spec fn probe_amount(seen: Map<FlavorID, u32>, flavor: FlavorID) -> u32 {
    if seen.contains_key(flavor) {
        seen[flavor]
    } else {
        INITIAL_AMOUNT
    }
}

impl OrderManagerView {
    /// A new order comes in: it replaces what was needed, and the timer starts.
    pub open spec fn get_new_order(
        self,
        flavors: Seq<(FlavorID, u32)>,
        id: Seq<char>,
    ) -> OrderManagerStep {
        OrderManagerStep {
            next: OrderManagerView { flavors_needed: flavors, order_id: id, ..self },
            out: seq![OrderManagerOutputView::StartTimer],
        }
    }

    /// A token comes by. Its amount is noted. It is passed on unchanged
    /// while another is in use or where its flavor is not needed. Where it
    /// holds no more than is needed the order is given up and the token
    /// passed on. Otherwise the token goes to the order preparer.
    pub open spec fn transfer_token(self, token: FlavorToken) -> OrderManagerStep {
        let noted = OrderManagerView {
            seen: self.seen.insert(token.spec_id(), token.spec_amount()),
            ..self
        };
        let pass_on = OrderManagerStep {
            next: noted,
            out: seq![OrderManagerOutputView::GetTokenBack(token)],
        };
        if self.scooping {
            pass_on
        } else {
            match position(self.flavors_needed, token.spec_id()) {
                None => pass_on,
                Some(i) => {
                    let grams = self.flavors_needed[i].1;
                    if grams < token.spec_amount() {
                        OrderManagerStep {
                            next: OrderManagerView {
                                flavors_needed: self.flavors_needed.remove(i),
                                scooping: true,
                                ..noted
                            },
                            out: seq![
                                OrderManagerOutputView::ResetTimer,
                                OrderManagerOutputView::ScoopFlavor(token, grams),
                            ],
                        }
                    } else {
                        OrderManagerStep {
                            next: OrderManagerView { flavors_needed: Seq::empty(), ..noted },
                            out: seq![
                                OrderManagerOutputView::StopTimer,
                                OrderManagerOutputView::OrderAborted(
                                    false,
                                    self.order_id,
                                    token.spec_id(),
                                ),
                                OrderManagerOutputView::GetTokenBack(token),
                            ],
                        }
                    }
                },
            }
        }
    }

    /// The order preparer gives a token back. Its amount is noted and it is
    /// passed on; where nothing more is needed, and the robot was not told
    /// to give up, the order is reported ready.
    pub open spec fn get_token_back(self, token: FlavorToken) -> OrderManagerStep {
        let next = OrderManagerView {
            seen: self.seen.insert(token.spec_id(), token.spec_amount()),
            scooping: false,
            ..self
        };
        if self.flavors_needed.len() == 0 && !self.aborted {
            OrderManagerStep {
                next,
                out: seq![
                    OrderManagerOutputView::GetTokenBack(token),
                    OrderManagerOutputView::StopTimer,
                    OrderManagerOutputView::OrderPrepared(true, self.order_id),
                ],
            }
        } else {
            OrderManagerStep { next, out: seq![OrderManagerOutputView::GetTokenBack(token)] }
        }
    }

    /// The robot is told to give up its order.
    pub open spec fn abort_current_order(self) -> OrderManagerStep {
        OrderManagerStep {
            next: OrderManagerView {
                flavors_needed: Seq::empty(),
                scooping: false,
                aborted: true,
                ..self
            },
            out: seq![OrderManagerOutputView::StopTimer],
        }
    }

    /// The probe as it leaves this robot: lowered to what this robot last
    /// saw of the flavor, where that is less.
    pub open spec fn merged_probe(self, probe: TokenBackup) -> TokenBackup {
        if self.seen.contains_key(probe.spec_flavor_id()) {
            probe.spec_merge(self.seen[probe.spec_flavor_id()])
        } else {
            probe
        }
    }

    /// A probe comes by: it is sent on, lowered where this robot has seen less.
    pub open spec fn get_token_backup(self, probe: TokenBackup) -> OrderManagerStep {
        OrderManagerStep {
            next: self,
            out: seq![OrderManagerOutputView::SendTokenBackup(self.merged_probe(probe))],
        }
    }

    /// The probe this robot starts for the flavor needed at place `i`.
    pub open spec fn probe_at(self, i: int) -> OrderManagerOutputView {
        OrderManagerOutputView::SendTokenBackup(
            TokenBackup::spec_new(
                self.flavors_needed[i].0,
                probe_amount(self.seen, self.flavors_needed[i].0),
                self.rch_id,
            ),
        )
    }

    /// The wait for a token ran out: one probe is started for each flavor
    /// still needed, in order, and the timer starts again.
    pub open spec fn timer_went_off(self) -> OrderManagerStep {
        OrderManagerStep {
            next: self,
            out: Seq::new(self.flavors_needed.len(), |i: int| self.probe_at(i)).push(
                OrderManagerOutputView::StartTimer,
            ),
        }
    }
}

impl View for OrderManager {
    type V = OrderManagerView;

    closed spec fn view(&self) -> OrderManagerView {
        OrderManagerView {
            flavors_needed: self.flavors_needed@,
            order_id: self.order_id@,
            scooping: self.scooping,
            aborted: self.aborted,
            seen: seen_amounts(self.tokens_backup@),
            rch_id: self.rch_id,
        }
    }
}

impl OrderManager {
    /// The order manager of robot `rch_id`, with no order and nothing seen.
    pub fn new(rch_id: usize) -> (manager: OrderManager)
        ensures
            manager@ == (OrderManagerView {
                flavors_needed: Seq::empty(),
                order_id: Seq::empty(),
                scooping: false,
                aborted: false,
                seen: Map::empty(),
                rch_id,
            }),
    {
        let manager = Self {
            flavors_needed: Vec::new(),
            order_id: String::new(),
            scooping: false,
            aborted: false,
            tokens_backup: HashMap::new(),
            rch_id,
        };
        assert(seen_amounts(manager.tokens_backup@) =~= Map::<FlavorID, u32>::empty());
        manager
    }

    /// What the order at hand still needs.
    pub fn flavors_needed(&self) -> (needed: Vec<(FlavorID, u32)>)
        ensures
            needed@ == self@.flavors_needed,
    {
        copy_flavors(&self.flavors_needed)
    }

    /// Whether a token is with the order preparer.
    pub fn is_scooping(&self) -> (scooping: bool)
        ensures
            scooping == self@.scooping,
    {
        self.scooping
    }

    /// The amount last seen of `flavor`, if any.
    pub fn last_seen(&self, flavor: FlavorID) -> (amount: Option<u32>)
        ensures
            amount == if self@.seen.contains_key(flavor) {
                Some(self@.seen[flavor])
            } else {
                None
            },
    {
        seen_of(&self.tokens_backup, flavor)
    }

    /// The place of the token's flavor among the flavors needed.
    fn get_flavor_index(&self, token: FlavorToken) -> (place: Option<usize>)
        ensures
            match place {
                Some(i) => position(self@.flavors_needed, token.spec_id()) == Some(i as int),
                None => position(self@.flavors_needed, token.spec_id()) is None,
            },
    {
        let flavor = token.get_id();
        proof {
            lemma_position(self.flavors_needed@, flavor);
        }
        let mut i: usize = 0;
        while i < self.flavors_needed.len()
            invariant
                i <= self.flavors_needed.len(),
                flavor == token.spec_id(),
                forall|j: int| 0 <= j < i ==> (#[trigger] self.flavors_needed@[j]).0 != flavor,
            decreases self.flavors_needed.len() - i,
        {
            if self.flavors_needed[i].0 == flavor {
                proof {
                    lemma_position(self.flavors_needed@, flavor);
                    let found = position(self.flavors_needed@, flavor);
                    assert(self.flavors_needed@[i as int].0 == flavor);
                    assert(found is Some);
                    let k = found.unwrap();
                    if k < i {
                        assert(self.flavors_needed@[k].0 != flavor);
                    }
                    if k > i {
                        assert(self.flavors_needed@[i as int].0 != flavor);
                    }
                }
                return Some(i);
            }
            i = i + 1;
        }
        None
    }

    /// Takes a new order.
    pub fn get_new_order(&mut self, msg: GetNewOrder) -> (out: Vec<OrderManagerOutput>)
        ensures
            final(self)@ == old(self)@.get_new_order(msg.new_order@.flavors, msg.id@).next,
            views(out@) == old(self)@.get_new_order(msg.new_order@.flavors, msg.id@).out,
    {
        self.flavors_needed = msg.new_order.get_flavors();
        self.order_id = msg.id;
        let mut out: Vec<OrderManagerOutput> = Vec::new();
        out.push(OrderManagerOutput::StartTimer);
        assert(views(out@) =~= seq![OrderManagerOutputView::StartTimer]);
        out
    }

    /// Takes a token that comes by.
    pub fn transfer_token(&mut self, msg: TransferToken) -> (out: Vec<OrderManagerOutput>)
        ensures
            final(self)@ == old(self)@.transfer_token(msg.flavor_token).next,
            views(out@) == old(self)@.transfer_token(msg.flavor_token).out,
    {
        let token = msg.flavor_token;
        note_token(&mut self.tokens_backup, token);
        let mut out: Vec<OrderManagerOutput> = Vec::new();
        if self.scooping {
            out.push(OrderManagerOutput::GetTokenBack(GetTokenBack { flavor_token: token }));
            assert(views(out@) =~= seq![OrderManagerOutputView::GetTokenBack(token)]);
            return out;
        }
        match self.get_flavor_index(token) {
            None => {
                out.push(OrderManagerOutput::GetTokenBack(GetTokenBack { flavor_token: token }));
                assert(views(out@) =~= seq![OrderManagerOutputView::GetTokenBack(token)]);
            },
            Some(i) => {
                proof {
                    lemma_position(self.flavors_needed@, token.spec_id());
                }
                let grams = self.flavors_needed[i].1;
                if token.can_serve(grams) {
                    self.scooping = true;
                    self.flavors_needed.remove(i);
                    out.push(OrderManagerOutput::ResetTimer);
                    out.push(
                        OrderManagerOutput::ScoopFlavor(
                            ScoopFlavor { flavor_token: token, amount: grams },
                        ),
                    );
                    assert(views(out@) =~= seq![
                        OrderManagerOutputView::ResetTimer,
                        OrderManagerOutputView::ScoopFlavor(token, grams),
                    ]);
                } else {
                    self.flavors_needed.clear();
                    out.push(OrderManagerOutput::StopTimer);
                    out.push(
                        OrderManagerOutput::OrderAborted(
                            OrderAborted {
                                order_result: false,
                                id: self.order_id.clone(),
                                flavor: token.get_id(),
                            },
                        ),
                    );
                    out.push(OrderManagerOutput::GetTokenBack(GetTokenBack { flavor_token: token }));
                    assert(views(out@) =~= seq![
                        OrderManagerOutputView::StopTimer,
                        OrderManagerOutputView::OrderAborted(
                            false,
                            self.order_id@,
                            token.spec_id(),
                        ),
                        OrderManagerOutputView::GetTokenBack(token),
                    ]);
                }
            },
        }
        out
    }

    /// Takes a token back from the order preparer.
    pub fn get_token_back(&mut self, msg: GetTokenBack) -> (out: Vec<OrderManagerOutput>)
        ensures
            final(self)@ == old(self)@.get_token_back(msg.flavor_token).next,
            views(out@) == old(self)@.get_token_back(msg.flavor_token).out,
    {
        let token = msg.flavor_token;
        self.scooping = false;
        note_token(&mut self.tokens_backup, token);
        let mut out: Vec<OrderManagerOutput> = Vec::new();
        out.push(OrderManagerOutput::GetTokenBack(GetTokenBack { flavor_token: token }));
        if self.flavors_needed.len() == 0 && !self.aborted {
            out.push(OrderManagerOutput::StopTimer);
            out.push(
                OrderManagerOutput::OrderPrepared(
                    OrderPrepared { order_result: true, id: self.order_id.clone() },
                ),
            );
            assert(views(out@) =~= seq![
                OrderManagerOutputView::GetTokenBack(token),
                OrderManagerOutputView::StopTimer,
                OrderManagerOutputView::OrderPrepared(true, self.order_id@),
            ]);
        } else {
            assert(views(out@) =~= seq![OrderManagerOutputView::GetTokenBack(token)]);
        }
        out
    }

    /// Gives up the order at hand.
    pub fn abort_current_order(&mut self, _msg: AbortCurrentOrder) -> (out: Vec<
        OrderManagerOutput,
    >)
        ensures
            final(self)@ == old(self)@.abort_current_order().next,
            views(out@) == old(self)@.abort_current_order().out,
    {
        self.flavors_needed.clear();
        self.scooping = false;
        self.aborted = true;
        let mut out: Vec<OrderManagerOutput> = Vec::new();
        out.push(OrderManagerOutput::StopTimer);
        assert(views(out@) =~= seq![OrderManagerOutputView::StopTimer]);
        out
    }

    /// Takes a probe that comes by and sends it on.
    pub fn get_token_backup(&mut self, msg: GetTokenBackup) -> (out: Vec<OrderManagerOutput>)
        ensures
            final(self)@ == old(self)@.get_token_backup(msg.token_backup).next,
            views(out@) == old(self)@.get_token_backup(msg.token_backup).out,
    {
        let mut token_backup = msg.token_backup;
        match seen_of(&self.tokens_backup, token_backup.get_flavor_id()) {
            Some(amount) => {
                token_backup.change_amount_if_necessary(amount);
            },
            None => {},
        }
        let mut out: Vec<OrderManagerOutput> = Vec::new();
        out.push(OrderManagerOutput::SendTokenBackup(SendTokenBackup { token_backup }));
        assert(views(out@) =~= seq![
            OrderManagerOutputView::SendTokenBackup(self@.merged_probe(msg.token_backup)),
        ]);
        out
    }

    /// Starts the search for the tokens that stay away.
    pub fn timer_went_off(&mut self, _msg: TimerWentOff) -> (out: Vec<OrderManagerOutput>)
        ensures
            final(self)@ == old(self)@.timer_went_off().next,
            views(out@) == old(self)@.timer_went_off().out,
    {
        let mut out: Vec<OrderManagerOutput> = Vec::new();
        let mut i: usize = 0;
        while i < self.flavors_needed.len()
            invariant
                i <= self.flavors_needed.len(),
                views(out@) == Seq::new(i as nat, |j: int| self@.probe_at(j)),
            decreases self.flavors_needed.len() - i,
        {
            let flavor = self.flavors_needed[i].0;
            let amount = match seen_of(&self.tokens_backup, flavor) {
                Some(amount) => amount,
                None => INITIAL_AMOUNT,
            };
            let token_backup = TokenBackup::new(flavor, amount, self.rch_id);
            let item = OrderManagerOutput::SendTokenBackup(SendTokenBackup { token_backup });
            proof {
                lemma_views_push(out@, item);
                assert(item.deep_view() == self@.probe_at(i as int));
                assert(Seq::new(i as nat, |j: int| self@.probe_at(j)).push(
                    self@.probe_at(i as int),
                ) =~= Seq::new((i + 1) as nat, |j: int| self@.probe_at(j)));
            }
            out.push(item);
            i = i + 1;
        }
        proof {
            lemma_views_push(out@, OrderManagerOutput::StartTimer);
        }
        out.push(OrderManagerOutput::StartTimer);
        out
    }
}

/// The tokens that a list of outputs carries, in order.
pub open spec fn carried_tokens(out: Seq<OrderManagerOutputView>) -> Seq<FlavorToken>
    decreases out.len(),
{
    if out.len() == 0 {
        Seq::empty()
    } else {
        let front = carried_tokens(out.drop_last());
        match out.last() {
            OrderManagerOutputView::GetTokenBack(token) => front.push(token),
            OrderManagerOutputView::ScoopFlavor(token, _) => front.push(token),
            _ => front,
        }
    }
}

/// Whether a list of outputs reports the order given up for want of `flavor`.
pub open spec fn reports_abort(out: Seq<OrderManagerOutputView>, flavor: FlavorID) -> bool {
    exists|k: int|
        0 <= k < out.len() && (#[trigger] out[k] matches OrderManagerOutputView::OrderAborted(
            _,
            _,
            f,
        ) && f == flavor)
}

/// An order is given up for want of a flavor only when the token of that
/// very flavor has come by, no other token was in use, the flavor was
/// needed, and the token held no more than the grams needed; and in that
/// case it always is.
pub proof fn lemma_abort_only_when_short(
    state: OrderManagerView,
    token: FlavorToken,
    flavor: FlavorID,
)
    ensures
        reports_abort(state.transfer_token(token).out, flavor) <==> {
            &&& flavor == token.spec_id()
            &&& !state.scooping
            &&& position(state.flavors_needed, flavor) matches Some(i)
            &&& token.spec_amount() <= state.flavors_needed[i].1
        },
{
    let out = state.transfer_token(token).out;
    lemma_position(state.flavors_needed, token.spec_id());
    if reports_abort(out, flavor) {
        let k = choose|k: int|
            0 <= k < out.len() && (#[trigger] out[k] matches OrderManagerOutputView::OrderAborted(
                _,
                _,
                f,
            ) && f == flavor);
        assert(out[k] is OrderAborted);
    }
    if flavor == token.spec_id() && !state.scooping && position(state.flavors_needed, flavor)
        is Some {
        let i = position(state.flavors_needed, flavor).unwrap();
        if token.spec_amount() <= state.flavors_needed[i].1 {
            assert(out[1] is OrderAborted);
        }
    }
}

/// No step but the coming of a token reports an order given up.
pub proof fn lemma_no_abort_otherwise(
    state: OrderManagerView,
    token: FlavorToken,
    probe: TokenBackup,
    flavors: Seq<(FlavorID, u32)>,
    id: Seq<char>,
    flavor: FlavorID,
)
    ensures
        !reports_abort(state.get_new_order(flavors, id).out, flavor),
        !reports_abort(state.get_token_back(token).out, flavor),
        !reports_abort(state.abort_current_order().out, flavor),
        !reports_abort(state.get_token_backup(probe).out, flavor),
        !reports_abort(state.timer_went_off().out, flavor),
{
}

/// A token that comes in leaves again in exactly one output, either on its
/// way round the ring or to the order preparer, and unchanged; the steps
/// that take no token hand none out. The order manager keeps no token.
#[verifier::rlimit(50)]
pub proof fn lemma_token_passes_through(
    state: OrderManagerView,
    token: FlavorToken,
    probe: TokenBackup,
    flavors: Seq<(FlavorID, u32)>,
    id: Seq<char>,
)
    ensures
        carried_tokens(state.transfer_token(token).out) == seq![token],
        carried_tokens(state.get_token_back(token).out) == seq![token],
        carried_tokens(state.get_new_order(flavors, id).out) == Seq::<FlavorToken>::empty(),
        carried_tokens(state.abort_current_order().out) == Seq::<FlavorToken>::empty(),
        carried_tokens(state.get_token_backup(probe).out) == Seq::<FlavorToken>::empty(),
        carried_tokens(state.timer_went_off().out) == Seq::<FlavorToken>::empty(),
{
    reveal_with_fuel(carried_tokens, 5);
    let a = state.transfer_token(token).out;
    assert(a.len() <= 3);
    if a.len() == 1 {
        assert(a.drop_last() =~= Seq::empty());
        assert(carried_tokens(a) =~= seq![token]);
    } else if a.len() == 2 {
        assert(a.drop_last().drop_last() =~= Seq::empty());
        assert(carried_tokens(a) =~= seq![token]);
    } else {
        assert(a.drop_last().drop_last().drop_last() =~= Seq::empty());
        assert(carried_tokens(a) =~= seq![token]);
    }
    let b = state.get_token_back(token).out;
    if b.len() == 1 {
        assert(b.drop_last() =~= Seq::empty());
        assert(carried_tokens(b) =~= seq![token]);
    } else {
        assert(b.drop_last().drop_last().drop_last() =~= Seq::empty());
        assert(carried_tokens(b.drop_last().drop_last()) =~= seq![token]);
        assert(carried_tokens(b) =~= seq![token]);
    }
    let c = state.get_new_order(flavors, id).out;
    assert(c.drop_last() =~= Seq::empty());
    let d = state.abort_current_order().out;
    assert(d.drop_last() =~= Seq::empty());
    let e = state.get_token_backup(probe).out;
    assert(e.drop_last() =~= Seq::empty());
    lemma_probes_carry_no_token(state, state.flavors_needed.len());
    let f = state.timer_went_off().out;
    assert(f.drop_last() =~= Seq::new(state.flavors_needed.len(), |i: int| state.probe_at(i)));
}

/// The probes that are started when the wait runs out carry no token.
proof fn lemma_probes_carry_no_token(state: OrderManagerView, n: nat)
    ensures
        carried_tokens(Seq::new(n, |i: int| state.probe_at(i))) == Seq::<FlavorToken>::empty(),
    decreases n,
{
    let probes = Seq::new(n, |i: int| state.probe_at(i));
    if n > 0 {
        lemma_probes_carry_no_token(state, (n - 1) as nat);
        assert(probes.drop_last() =~= Seq::new((n - 1) as nat, |i: int| state.probe_at(i)));
    }
}

/// A token goes to the order preparer only with fewer grams to scoop than
/// it holds, so that scooping never takes more than there is.
pub proof fn lemma_scoop_within_token(state: OrderManagerView, token: FlavorToken, k: int)
    requires
        0 <= k < state.transfer_token(token).out.len(),
        state.transfer_token(token).out[k] is ScoopFlavor,
    ensures
        state.transfer_token(token).out[k] matches OrderManagerOutputView::ScoopFlavor(t, grams)
            && t == token && grams < token.spec_amount(),
{
    lemma_position(state.flavors_needed, token.spec_id());
}

} // verus!
