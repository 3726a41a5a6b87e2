//! The closed set of flavors the shop serves.

use crate::text::{lemma_named, stands_at, str_equal};
use vstd::prelude::*;
use vstd::string::*;

verus! {

/// One of the seven ingredients. Each flavor has exactly one token in the ring.
#[derive(PartialEq, Eq, Structural, Clone, Copy, Debug, Hash)]
pub enum FlavorID {
    Chocolate,
    Vanilla,
    Strawberry,
    Mint,
    Pistachio,
    DulceDeLeche,
    Lemon,
}

/// How many flavors there are.
pub const FLAVOR_COUNT: usize = 7;

/// The flavor at a position of the declaration order.
pub open spec fn flavor_at(i: nat) -> FlavorID
    recommends
        i < FLAVOR_COUNT,
{
    if i == 0 {
        FlavorID::Chocolate
    } else if i == 1 {
        FlavorID::Vanilla
    } else if i == 2 {
        FlavorID::Strawberry
    } else if i == 3 {
        FlavorID::Mint
    } else if i == 4 {
        FlavorID::Pistachio
    } else if i == 5 {
        FlavorID::DulceDeLeche
    } else {
        FlavorID::Lemon
    }
}

impl FlavorID {
    /// Position of the flavor in the declaration order, `0..FLAVOR_COUNT`.
    pub open spec fn spec_index(self) -> nat {
        match self {
            FlavorID::Chocolate => 0,
            FlavorID::Vanilla => 1,
            FlavorID::Strawberry => 2,
            FlavorID::Mint => 3,
            FlavorID::Pistachio => 4,
            FlavorID::DulceDeLeche => 5,
            FlavorID::Lemon => 6,
        }
    }

    /// The stable wire name of the flavor.
    pub open spec fn spec_name(self) -> Seq<char> {
        match self {
            FlavorID::Chocolate => "Chocolate"@,
            FlavorID::Vanilla => "Vanilla"@,
            FlavorID::Strawberry => "Strawberry"@,
            FlavorID::Mint => "Mint"@,
            FlavorID::Pistachio => "Pistachio"@,
            FlavorID::DulceDeLeche => "DulceDeLeche"@,
            FlavorID::Lemon => "Lemon"@,
        }
    }

    /// Position of the flavor in the declaration order.
    pub fn index(self) -> (i: usize)
        ensures
            i == self.spec_index(),
            i < FLAVOR_COUNT,
            flavor_at(i as nat) == self,
    {
        match self {
            FlavorID::Chocolate => 0,
            FlavorID::Vanilla => 1,
            FlavorID::Strawberry => 2,
            FlavorID::Mint => 3,
            FlavorID::Pistachio => 4,
            FlavorID::DulceDeLeche => 5,
            FlavorID::Lemon => 6,
        }
    }

    /// The flavor at position `i` of the declaration order, if there is one.
    pub fn from_index(i: usize) -> (f: Option<FlavorID>)
        ensures
            i < FLAVOR_COUNT ==> f == Some(flavor_at(i as nat)) && f.unwrap().spec_index() == i,
            i >= FLAVOR_COUNT ==> f is None,
    {
        if i == 0 {
            Some(FlavorID::Chocolate)
        } else if i == 1 {
            Some(FlavorID::Vanilla)
        } else if i == 2 {
            Some(FlavorID::Strawberry)
        } else if i == 3 {
            Some(FlavorID::Mint)
        } else if i == 4 {
            Some(FlavorID::Pistachio)
        } else if i == 5 {
            Some(FlavorID::DulceDeLeche)
        } else if i == 6 {
            Some(FlavorID::Lemon)
        } else {
            None
        }
    }

    /// The wire name as a string slice.
    pub fn as_str(self) -> (s: &'static str)
        ensures
            s@ == self.spec_name(),
    {
        match self {
            FlavorID::Chocolate => "Chocolate",
            FlavorID::Vanilla => "Vanilla",
            FlavorID::Strawberry => "Strawberry",
            FlavorID::Mint => "Mint",
            FlavorID::Pistachio => "Pistachio",
            FlavorID::DulceDeLeche => "DulceDeLeche",
            FlavorID::Lemon => "Lemon",
        }
    }

    /// The wire name as an owned string.
    pub fn to_string(&self) -> (s: String)
        ensures
            s@ == self.spec_name(),
    {
        String::from_str(self.as_str())
    }

    /// Reads a wire name. Succeeds exactly on the seven names, each of which
    /// gives back its own flavor.
    pub fn from_str(s: &str) -> (r: Result<FlavorID, ()>)
        ensures
            match r {
                Ok(f) => f.spec_name() == s@,
                Err(_) => forall|f: FlavorID| f.spec_name() != s@,
            },
    {
        if str_equal(s, "Chocolate") {
            Ok(FlavorID::Chocolate)
        } else if str_equal(s, "Vanilla") {
            Ok(FlavorID::Vanilla)
        } else if str_equal(s, "Strawberry") {
            Ok(FlavorID::Strawberry)
        } else if str_equal(s, "Mint") {
            Ok(FlavorID::Mint)
        } else if str_equal(s, "Pistachio") {
            Ok(FlavorID::Pistachio)
        } else if str_equal(s, "DulceDeLeche") {
            Ok(FlavorID::DulceDeLeche)
        } else if str_equal(s, "Lemon") {
            Ok(FlavorID::Lemon)
        } else {
            Err(())
        }
    }
}

/// Distinct flavors have distinct wire names, so a name read back gives the
/// flavor it was written from.
pub proof fn lemma_names_distinct(a: FlavorID, b: FlavorID)
    ensures
        a.spec_name() == b.spec_name() <==> a == b,
{
    reveal_strlit("Chocolate");
    reveal_strlit("Vanilla");
    reveal_strlit("Strawberry");
    reveal_strlit("Mint");
    reveal_strlit("Pistachio");
    reveal_strlit("DulceDeLeche");
    reveal_strlit("Lemon");
    if a != b && a.spec_name() == b.spec_name() {
        assert(a.spec_name().len() == b.spec_name().len());
        assert(a.spec_name()[0] == b.spec_name()[0]);
        assert(a.spec_name()[1] == b.spec_name()[1]);
    }
}

/// The flavor with the given name, if there is one.
pub open spec fn flavor_named(name: Seq<char>) -> Option<FlavorID> {
    if name == FlavorID::Chocolate.spec_name() {
        Some(FlavorID::Chocolate)
    } else if name == FlavorID::Vanilla.spec_name() {
        Some(FlavorID::Vanilla)
    } else if name == FlavorID::Strawberry.spec_name() {
        Some(FlavorID::Strawberry)
    } else if name == FlavorID::Mint.spec_name() {
        Some(FlavorID::Mint)
    } else if name == FlavorID::Pistachio.spec_name() {
        Some(FlavorID::Pistachio)
    } else if name == FlavorID::DulceDeLeche.spec_name() {
        Some(FlavorID::DulceDeLeche)
    } else if name == FlavorID::Lemon.spec_name() {
        Some(FlavorID::Lemon)
    } else {
        None
    }
}

impl FlavorID {
    /// Reads the wire name that stands in `chars` from `from` to `end`.
    pub fn from_chars(chars: &Vec<char>, from: usize, end: usize) -> (found: Option<FlavorID>)
        requires
            from <= end <= chars.len(),
        ensures
            found == flavor_named(chars@.subrange(from as int, end as int)),
    {
        let ghost name = chars@.subrange(from as int, end as int);
        let len = end - from;
        let found = if len == 9 && stands_at(chars, from, "Chocolate") {
            Some(FlavorID::Chocolate)
        } else if len == 7 && stands_at(chars, from, "Vanilla") {
            Some(FlavorID::Vanilla)
        } else if len == 10 && stands_at(chars, from, "Strawberry") {
            Some(FlavorID::Strawberry)
        } else if len == 4 && stands_at(chars, from, "Mint") {
            Some(FlavorID::Mint)
        } else if len == 9 && stands_at(chars, from, "Pistachio") {
            Some(FlavorID::Pistachio)
        } else if len == 12 && stands_at(chars, from, "DulceDeLeche") {
            Some(FlavorID::DulceDeLeche)
        } else if len == 5 && stands_at(chars, from, "Lemon") {
            Some(FlavorID::Lemon)
        } else {
            None
        };
        proof {
            reveal_strlit("Chocolate");
            reveal_strlit("Vanilla");
            reveal_strlit("Strawberry");
            reveal_strlit("Mint");
            reveal_strlit("Pistachio");
            reveal_strlit("DulceDeLeche");
            reveal_strlit("Lemon");
            lemma_named(chars@, from as int, end as int, "Chocolate"@);
            lemma_named(chars@, from as int, end as int, "Vanilla"@);
            lemma_named(chars@, from as int, end as int, "Strawberry"@);
            lemma_named(chars@, from as int, end as int, "Mint"@);
            lemma_named(chars@, from as int, end as int, "Pistachio"@);
            lemma_named(chars@, from as int, end as int, "DulceDeLeche"@);
            lemma_named(chars@, from as int, end as int, "Lemon"@);
            assert(found == flavor_named(name));
        }
        found
    }
}

} // verus!
