//! Customer orders: a portion size and the grams wanted of each flavor.

use crate::flavor_id::FlavorID;
use vstd::prelude::*;
use vstd::string::*;

verus! {

/// Grams in the largest portion.
pub const KILO: u32 = 1000;

/// Grams in a half-kilo portion.
pub const MEDIO: u32 = KILO / 2;

/// Grams in a quarter-kilo portion, which is also the size of a cone.
pub const CUARTO: u32 = KILO / 4;

/// An order: one of four portion sizes, with the grams of each flavor.
#[derive(PartialEq, Eq, Debug)]
pub enum Order {
    Cucurucho((FlavorID, u32)),
    Cuarto(Vec<(FlavorID, u32)>),
    Medio(Vec<(FlavorID, u32)>),
    Kilo(Vec<(FlavorID, u32)>),
}

/// The four portion sizes.
#[derive(PartialEq, Eq, Structural, Clone, Copy, Debug)]
pub enum Portion {
    Cucurucho,
    Cuarto,
    Medio,
    Kilo,
}

/// What an order is, mathematically: its portion and the sequence of
/// `(flavor, grams)` it asks for.
pub struct OrderView {
    pub portion: Portion,
    pub flavors: Seq<(FlavorID, u32)>,
}

/// The sum of the grams over a sequence of `(flavor, grams)`.
pub open spec fn total_grams(flavors: Seq<(FlavorID, u32)>) -> nat
    decreases flavors.len(),
{
    if flavors.len() == 0 {
        0
    } else {
        total_grams(flavors.drop_last()) + flavors.last().1 as nat
    }
}

impl Portion {
    /// Grams in a portion of this size.
    pub open spec fn grams(self) -> nat {
        match self {
            Portion::Cucurucho => 250,
            Portion::Cuarto => 250,
            Portion::Medio => 500,
            Portion::Kilo => 1000,
        }
    }

    /// How many flavors a portion of this size holds.
    pub open spec fn flavor_count(self) -> nat {
        match self {
            Portion::Cucurucho => 1,
            Portion::Cuarto => 2,
            Portion::Medio => 3,
            Portion::Kilo => 4,
        }
    }
}

impl OrderView {
    /// The grams add up to the portion, and the flavor count is the one the
    /// portion holds.
    pub open spec fn wf(self) -> bool {
        &&& total_grams(self.flavors) == self.portion.grams()
        &&& self.flavors.len() == self.portion.flavor_count()
    }
}

impl View for Order {
    type V = OrderView;

    open spec fn view(&self) -> OrderView {
        match *self {
            Order::Cucurucho(one) => OrderView { portion: Portion::Cucurucho, flavors: seq![one] },
            Order::Cuarto(v) => OrderView { portion: Portion::Cuarto, flavors: v@ },
            Order::Medio(v) => OrderView { portion: Portion::Medio, flavors: v@ },
            Order::Kilo(v) => OrderView { portion: Portion::Kilo, flavors: v@ },
        }
    }
}

impl DeepView for Order {
    type V = OrderView;

    open spec fn deep_view(&self) -> OrderView {
        self@
    }
}

/// The grams of a sequence written out for up to four entries.
pub proof fn lemma_total_grams_small(s: Seq<(FlavorID, u32)>)
    ensures
        s.len() == 0 ==> total_grams(s) == 0,
        s.len() == 1 ==> total_grams(s) == s[0].1,
        s.len() == 2 ==> total_grams(s) == s[0].1 + s[1].1,
        s.len() == 3 ==> total_grams(s) == s[0].1 + s[1].1 + s[2].1,
        s.len() == 4 ==> total_grams(s) == s[0].1 + s[1].1 + s[2].1 + s[3].1,
    decreases s.len(),
{
    if s.len() > 0 && s.len() <= 4 {
        lemma_total_grams_small(s.drop_last());
    }
}

/// A copy of a list of `(flavor, grams)`.
pub fn copy_flavors(v: &Vec<(FlavorID, u32)>) -> (r: Vec<(FlavorID, u32)>)
    ensures
        r@ == v@,
{
    let mut r: Vec<(FlavorID, u32)> = Vec::new();
    let mut i: usize = 0;
    while i < v.len()
        invariant
            i <= v.len(),
            r@ == v@.subrange(0, i as int),
        decreases v.len() - i,
    {
        r.push(v[i]);
        i = i + 1;
        assert(r@ =~= v@.subrange(0, i as int));
    }
    assert(v@.subrange(0, v.len() as int) =~= v@);
    r
}

impl Order {
    /// A cone: 250 g of one flavor.
    pub fn new_cucurucho(flavor: FlavorID) -> (order: Order)
        ensures
            order@ == (OrderView { portion: Portion::Cucurucho, flavors: seq![(flavor, 250u32)] }),
            order@.wf(),
    {
        proof {
            lemma_total_grams_small(seq![(flavor, 250u32)]);
        }
        Order::Cucurucho((flavor, CUARTO))
    }

    /// A quarter kilo of exactly two flavors, 125 g each, in the order given.
    /// More than two flavors, or fewer, is refused with a message.
    pub fn new_cuarto(flavors: Vec<FlavorID>) -> (r: Result<Order, String>)
        ensures
            flavors.len() > 2 ==> r is Err && r->Err_0@ == "A cuarto can have up to 2 flavors."@,
            flavors.len() < 2 ==> r is Err && r->Err_0@ == "A cuarto needs 2 flavors."@,
            flavors.len() == 2 ==> r is Ok && r->Ok_0@.wf() && r->Ok_0@ == (OrderView {
                portion: Portion::Cuarto,
                flavors: seq![(flavors[0], 125u32), (flavors[1], 125u32)],
            }),
    {
        if flavors.len() > 2 {
            Err(String::from_str("A cuarto can have up to 2 flavors."))
        } else if flavors.len() < 2 {
            Err(String::from_str("A cuarto needs 2 flavors."))
        } else {
            let mut needed: Vec<(FlavorID, u32)> = Vec::new();
            needed.push((flavors[0], CUARTO / 2));
            needed.push((flavors[1], CUARTO / 2));
            proof {
                assert(needed@ =~= seq![(flavors[0], 125u32), (flavors[1], 125u32)]);
                lemma_total_grams_small(needed@);
            }
            Ok(Order::Cuarto(needed))
        }
    }

    /// Half a kilo of exactly three flavors. The flavors are listed second,
    /// third, first; the first two listed get 167 g and the last 166 g, so
    /// that the grams add up to 500. More than three flavors, or fewer, is
    /// refused with a message.
    pub fn new_medio(flavors: Vec<FlavorID>) -> (r: Result<Order, String>)
        ensures
            flavors.len() > 3 ==> r is Err && r->Err_0@ == "A medio can have up to 3 flavors"@,
            flavors.len() < 3 ==> r is Err && r->Err_0@ == "A medio needs 3 flavors."@,
            flavors.len() == 3 ==> r is Ok && r->Ok_0@.wf() && r->Ok_0@ == (OrderView {
                portion: Portion::Medio,
                flavors: seq![(flavors[1], 167u32), (flavors[2], 167u32), (flavors[0], 166u32)],
            }),
    {
        if flavors.len() > 3 {
            Err(String::from_str("A medio can have up to 3 flavors"))
        } else if flavors.len() < 3 {
            Err(String::from_str("A medio needs 3 flavors."))
        } else {
            let share: u32 = MEDIO / 3;
            let mut needed: Vec<(FlavorID, u32)> = Vec::new();
            needed.push((flavors[1], share + 1));
            needed.push((flavors[2], share + 1));
            needed.push((flavors[0], share));
            proof {
                assert(needed@ =~= seq![
                    (flavors[1], 167u32),
                    (flavors[2], 167u32),
                    (flavors[0], 166u32),
                ]);
                lemma_total_grams_small(needed@);
            }
            Ok(Order::Medio(needed))
        }
    }

    /// A kilo of exactly four flavors, 250 g each, in the order given. More
    /// than four flavors, or fewer, is refused with a message.
    pub fn new_kilo(flavors: Vec<FlavorID>) -> (r: Result<Order, String>)
        ensures
            flavors.len() > 4 ==> r is Err && r->Err_0@ == "A kilo can have up to 4 flavors."@,
            flavors.len() < 4 ==> r is Err && r->Err_0@ == "A kilo needs 4 flavors."@,
            flavors.len() == 4 ==> r is Ok && r->Ok_0@.wf() && r->Ok_0@ == (OrderView {
                portion: Portion::Kilo,
                flavors: seq![
                    (flavors[0], 250u32),
                    (flavors[1], 250u32),
                    (flavors[2], 250u32),
                    (flavors[3], 250u32),
                ],
            }),
    {
        if flavors.len() > 4 {
            Err(String::from_str("A kilo can have up to 4 flavors."))
        } else if flavors.len() < 4 {
            Err(String::from_str("A kilo needs 4 flavors."))
        } else {
            let mut needed: Vec<(FlavorID, u32)> = Vec::new();
            needed.push((flavors[0], CUARTO));
            needed.push((flavors[1], CUARTO));
            needed.push((flavors[2], CUARTO));
            needed.push((flavors[3], CUARTO));
            proof {
                assert(needed@ =~= seq![
                    (flavors[0], 250u32),
                    (flavors[1], 250u32),
                    (flavors[2], 250u32),
                    (flavors[3], 250u32),
                ]);
                lemma_total_grams_small(needed@);
            }
            Ok(Order::Kilo(needed))
        }
    }

    /// The `(flavor, grams)` the order asks for, in order.
    pub fn get_flavors(&self) -> (flavors: Vec<(FlavorID, u32)>)
        ensures
            flavors@ == self@.flavors,
    {
        match self {
            Order::Cucurucho(one) => {
                let mut v: Vec<(FlavorID, u32)> = Vec::new();
                v.push(*one);
                assert(v@ =~= seq![*one]);
                v
            },
            Order::Cuarto(flavors) => copy_flavors(flavors),
            Order::Medio(flavors) => copy_flavors(flavors),
            Order::Kilo(flavors) => copy_flavors(flavors),
        }
    }

    /// Which of the four portions the order is.
    pub fn portion(&self) -> (p: Portion)
        ensures
            p == self@.portion,
    {
        match self {
            Order::Cucurucho(_) => Portion::Cucurucho,
            Order::Cuarto(_) => Portion::Cuarto,
            Order::Medio(_) => Portion::Medio,
            Order::Kilo(_) => Portion::Kilo,
        }
    }
}

impl Clone for Order {
    fn clone(&self) -> (r: Order)
        ensures
            r@ == self@,
    {
        match self {
            Order::Cucurucho(one) => Order::Cucurucho(*one),
            Order::Cuarto(flavors) => Order::Cuarto(copy_flavors(flavors)),
            Order::Medio(flavors) => Order::Medio(copy_flavors(flavors)),
            Order::Kilo(flavors) => Order::Kilo(copy_flavors(flavors)),
        }
    }
}

} // verus!
