//! The token of a flavor: the one authority to scoop it.

use crate::flavor_id::{flavor_named, FlavorID};
use crate::text::{chars_of, decimal, decimal_value, parse_decimal, push_decimal};
use vstd::prelude::*;
use vstd::string::*;

verus! {

/// The token of one flavor. `amount` is what is left of the flavor, in grams,
/// across the whole shop.
#[derive(PartialEq, Eq, Structural, Clone, Copy, Debug)]
pub struct FlavorToken {
    id: FlavorID,
    amount: u32,
}

impl FlavorToken {
    /// The flavor the token stands for.
    pub closed spec fn spec_id(self) -> FlavorID {
        self.id
    }

    /// The grams left.
    pub closed spec fn spec_amount(self) -> u32 {
        self.amount
    }

    /// The text form: the flavor's name, a comma, the amount in decimal, a comma.
    pub open spec fn spec_serialize(self) -> Seq<char> {
        self.spec_id().spec_name() + seq![','] + decimal(self.spec_amount() as nat) + seq![',']
    }

    /// The token of `id` with `amount` grams left.
    pub closed spec fn spec_new(id: FlavorID, amount: u32) -> FlavorToken {
        FlavorToken { id, amount }
    }

    /// The token after `grams` have been taken out of it.
    pub closed spec fn spec_serve(self, grams: u32) -> FlavorToken
        recommends
            grams <= self.spec_amount(),
    {
        FlavorToken { id: self.id, amount: (self.amount - grams) as u32 }
    }

    /// A token of `id` with `amount` grams left.
    pub fn new(id: FlavorID, amount: u32) -> (token: FlavorToken)
        ensures
            token == Self::spec_new(id, amount),
            token.spec_id() == id,
            token.spec_amount() == amount,
    {
        Self { id, amount }
    }

    /// The text form of the token.
    pub fn serialize(&self) -> (text: String)
        ensures
            text@ == self.spec_serialize(),
    {
        let mut text = self.id.to_string();
        text.append(",");
        push_decimal(&mut text, self.amount as u64);
        text.append(",");
        proof {
            reveal_strlit(",");
            assert(","@ =~= seq![',']);
            assert(text@ =~= self.spec_serialize());
        }
        text
    }

    /// The text form of the token as UTF-8 bytes.
    pub fn as_bytes(&self) -> (bytes: Vec<u8>)
        ensures
            bytes@ == vstd::utf8::encode_utf8(self.spec_serialize()),
    {
        self.serialize().as_str().as_bytes_vec()
    }

    /// Takes `serve_amount` grams out of the token.
    pub fn serve(&mut self, serve_amount: u32)
        requires
            serve_amount <= old(self).spec_amount(),
        ensures
            *final(self) == old(self).spec_serve(serve_amount),
            final(self).spec_id() == old(self).spec_id(),
            final(self).spec_amount() + serve_amount == old(self).spec_amount(),
    {
        self.amount = self.amount - serve_amount;
    }

    /// Whether `serve_amount` grams can be taken: only when strictly more
    /// than that is left.
    pub fn can_serve(&self, serve_amount: u32) -> (yes: bool)
        ensures
            yes == (serve_amount < self.spec_amount()),
    {
        serve_amount < self.amount
    }

    /// The flavor the token stands for.
    pub fn get_id(self) -> (id: FlavorID)
        ensures
            id == self.spec_id(),
    {
        self.id
    }

    /// The grams left.
    pub fn get_amnt(self) -> (amount: u32)
        ensures
            amount == self.spec_amount(),
    {
        self.amount
    }
}

/// What a new token holds.
pub proof fn lemma_token_new(id: FlavorID, amount: u32)
    ensures
        FlavorToken::spec_new(id, amount).spec_id() == id,
        FlavorToken::spec_new(id, amount).spec_amount() == amount,
{
}

/// Serving keeps the flavor and lowers the amount by what was served.
pub proof fn lemma_token_serve(token: FlavorToken, grams: u32)
    requires
        grams <= token.spec_amount(),
    ensures
        token.spec_serve(grams).spec_id() == token.spec_id(),
        token.spec_serve(grams).spec_amount() + grams == token.spec_amount(),
{
}

/// A token is its flavor and its amount, nothing else.
pub proof fn lemma_token_extensional(a: FlavorToken, b: FlavorToken)
    ensures
        (a.spec_id() == b.spec_id() && a.spec_amount() == b.spec_amount()) <==> a == b,
{
}

/// The first place from `at` on where a comma stands, or the end.
pub open spec fn comma_from(text: Seq<char>, at: int) -> int
    decreases text.len() - at,
{
    if 0 <= at < text.len() && text[at] != ',' {
        comma_from(text, at + 1)
    } else {
        at
    }
}

/// The place before which the line feeds end that close `from..to`.
pub open spec fn trimmed_end(text: Seq<char>, from: int, to: int) -> int
    decreases to - from,
{
    if from < to <= text.len() && text[to - 1] == '\n' {
        trimmed_end(text, from, to - 1)
    } else {
        to
    }
}

/// The amount that a field stands for: digits, with or without a plus
/// sign before them, that stand for no more than `u32::MAX`.
pub open spec fn amount_of(field: Seq<char>) -> Option<u32> {
    let digits = if field.len() > 0 && field[0] == '+' {
        field.drop_first()
    } else {
        field
    };
    match decimal_value(digits) {
        Some(v) => if v <= u32::MAX {
            Some(v as u32)
        } else {
            None
        },
        None => None,
    }
}

/// The token that a text of four fields with commas between stands for:
/// the first field names the flavor, the second, without the line feeds
/// at its end, gives the amount; the other two are not looked at. A text
/// with more or fewer fields stands for no token.
pub open spec fn spec_decode(text: Seq<char>) -> Option<FlavorToken> {
    let first = comma_from(text, 0);
    let second = comma_from(text, first + 1);
    let third = comma_from(text, second + 1);
    if first < text.len() && second < text.len() && third < text.len() && comma_from(
        text,
        third + 1,
    ) >= text.len() {
        match flavor_named(text.subrange(0, first)) {
            Some(flavor) => match amount_of(
                text.subrange(first + 1, trimmed_end(text, first + 1, second)),
            ) {
                Some(amount) => Some(FlavorToken::spec_new(flavor, amount)),
                None => None,
            },
            None => None,
        }
    } else {
        None
    }
}

/// The first place from `at` on where a comma stands, or the end.
fn find_comma(chars: &Vec<char>, at: usize) -> (end: usize)
    ensures
        end == comma_from(chars@, at as int),
        at <= end,
        at < chars.len() ==> end <= chars.len(),
{
    let mut end = at;
    while end < chars.len() && chars[end] != ','
        invariant
            at <= end,
            at < chars.len() ==> end <= chars.len(),
            comma_from(chars@, at as int) == comma_from(chars@, end as int),
        decreases chars.len() - end,
    {
        end = end + 1;
    }
    end
}

impl FlavorToken {
    /// Reads a token from a text of four fields with commas between.
    pub fn decode(instance: String) -> (token: Option<FlavorToken>)
        ensures
            token == spec_decode(instance@),
    {
        let chars = chars_of(instance.as_str());
        let first = find_comma(&chars, 0);
        if first >= chars.len() {
            return None;
        }
        let second = find_comma(&chars, first + 1);
        if second >= chars.len() {
            return None;
        }
        let third = find_comma(&chars, second + 1);
        if third >= chars.len() {
            return None;
        }
        if find_comma(&chars, third + 1) < chars.len() {
            return None;
        }
        let id = match FlavorID::from_chars(&chars, 0, first) {
            Some(id) => id,
            None => return None,
        };
        let from = first + 1;
        let mut end = second;
        while from < end && chars[end - 1] == '\n'
            invariant
                from <= end <= second,
                second < chars.len(),
                trimmed_end(chars@, from as int, second as int) == trimmed_end(
                    chars@,
                    from as int,
                    end as int,
                ),
            decreases end - from,
        {
            end = end - 1;
        }
        let ghost field = chars@.subrange(from as int, end as int);
        let digits_from = if from < end && chars[from] == '+' {
            from + 1
        } else {
            from
        };
        proof {
            if from < end && chars@[from as int] == '+' {
                assert(field[0] == '+');
                assert(field.drop_first() =~= chars@.subrange(digits_from as int, end as int));
            } else {
                if field.len() > 0 {
                    assert(field[0] == chars@[from as int]);
                }
            }
        }
        match parse_decimal(&chars, digits_from, end) {
            Some(amount) => Some(FlavorToken::new(id, amount)),
            None => None,
        }
    }
}

} // verus!
