//! The text form of an order, as it stands in a record on the wire.

use crate::flavor_id::FlavorID;
use crate::order::{Order, OrderView, Portion};
use crate::flavor_id::flavor_named;
use crate::text::{
    all_digits, char_at, chars_of, decimal, decimal_value, has_at, is_at, is_digit,
    lemma_decimal_read_back, parse_decimal, push_decimal, stands_at,
};
use vstd::prelude::*;
use vstd::string::*;

verus! {

/// The text of one `(flavor, grams)`: the flavor's name in quotes and
/// the grams in decimal, in square brackets with a comma between.
pub open spec fn pair_text(pair: (FlavorID, u32)) -> Seq<char> {
    seq!['[', '"'] + pair.0.spec_name() + seq!['"', ','] + decimal(pair.1 as nat) + seq![']']
}

/// The texts of one or more `(flavor, grams)` with commas between.
pub open spec fn pairs_text(pairs: Seq<(FlavorID, u32)>) -> Seq<char>
    decreases pairs.len(),
{
    if pairs.len() == 0 {
        Seq::empty()
    } else if pairs.len() == 1 {
        pair_text(pairs[0])
    } else {
        pair_text(pairs[0]) + seq![','] + pairs_text(pairs.drop_first())
    }
}

/// The text of a list of `(flavor, grams)`: their texts with commas
/// between, in square brackets.
pub open spec fn list_text(pairs: Seq<(FlavorID, u32)>) -> Seq<char> {
    seq!['['] + pairs_text(pairs) + seq![']']
}

/// The name of a portion as it stands in the text of an order.
pub open spec fn portion_name(portion: Portion) -> Seq<char> {
    match portion {
        Portion::Cucurucho => "Cucurucho"@,
        Portion::Cuarto => "Cuarto"@,
        Portion::Medio => "Medio"@,
        Portion::Kilo => "Kilo"@,
    }
}

/// The text of an order: the name of its portion in quotes, a colon and
/// what it asks for, in braces. A cone asks for one `(flavor, grams)`,
/// the other portions for a list of them.
pub open spec fn order_text(order: OrderView) -> Seq<char> {
    seq!['{', '"'] + portion_name(order.portion) + seq!['"', ':'] + (if order.portion
        == Portion::Cucurucho {
        pair_text(order.flavors[0])
    } else {
        list_text(order.flavors)
    }) + seq!['}']
}

/// Whether the order is one that an `Order` can hold: a cone asks for
/// exactly one flavor.
pub open spec fn representable(order: OrderView) -> bool {
    order.portion == Portion::Cucurucho ==> order.flavors.len() == 1
}

/// Adding one more `(flavor, grams)` at the end of a list that is not
/// empty adds a comma and its text at the end of the text.
pub proof fn lemma_pairs_text_push(pairs: Seq<(FlavorID, u32)>, pair: (FlavorID, u32))
    requires
        pairs.len() > 0,
    ensures
        pairs_text(pairs.push(pair)) == pairs_text(pairs) + seq![','] + pair_text(pair),
    decreases pairs.len(),
{
    let more = pairs.push(pair);
    assert(more.drop_first() =~= pairs.drop_first().push(pair));
    assert(more[0] == pairs[0]);
    if pairs.len() == 1 {
        assert(more.drop_first() =~= seq![pair]);
        assert(seq![pair].len() == 1);
        assert(pairs_text(seq![pair]) == pair_text(pair));
        assert(pairs_text(more) == pair_text(pairs[0]) + seq![','] + pairs_text(
            more.drop_first(),
        ));
    } else {
        lemma_pairs_text_push(pairs.drop_first(), pair);
        assert(pairs_text(more) == pair_text(pairs[0]) + seq![','] + pairs_text(
            more.drop_first(),
        ));
        assert(pairs_text(more) =~= pairs_text(pairs) + seq![','] + pair_text(pair));
    }
}

/// Appends the text of one `(flavor, grams)`.
fn push_pair(out: &mut String, pair: (FlavorID, u32))
    ensures
        final(out)@ == old(out)@ + pair_text(pair),
{
    proof {
        reveal_strlit("[\"");
        reveal_strlit("\",");
        reveal_strlit("]");
        assert("[\""@ =~= seq!['[', '"']);
        assert("\","@ =~= seq!['"', ',']);
        assert("]"@ =~= seq![']']);
    }
    out.append("[\"");
    out.append(pair.0.as_str());
    out.append("\",");
    push_decimal(out, pair.1 as u64);
    out.append("]");
    assert(out@ =~= old(out)@ + pair_text(pair));
}

/// Appends the text of a list of `(flavor, grams)`.
fn push_list(out: &mut String, pairs: &Vec<(FlavorID, u32)>)
    ensures
        final(out)@ == old(out)@ + list_text(pairs@),
{
    proof {
        reveal_strlit("[");
        reveal_strlit(",");
        reveal_strlit("]");
        assert("["@ =~= seq!['[']);
        assert(","@ =~= seq![',']);
        assert("]"@ =~= seq![']']);
    }
    out.append("[");
    let ghost opened = out@;
    let mut i: usize = 0;
    while i < pairs.len()
        invariant
            i <= pairs.len(),
            ","@ == seq![','],
            out@ == opened + pairs_text(pairs@.subrange(0, i as int)),
        decreases pairs.len() - i,
    {
        let ghost before = pairs@.subrange(0, i as int);
        if i > 0 {
            out.append(",");
        }
        push_pair(out, pairs[i]);
        proof {
            assert(pairs@.subrange(0, i as int + 1) =~= before.push(pairs@[i as int]));
            if i > 0 {
                lemma_pairs_text_push(before, pairs@[i as int]);
                assert(out@ =~= opened + pairs_text(before.push(pairs@[i as int])));
            } else {
                assert(before.push(pairs@[i as int]) =~= seq![pairs@[i as int]]);
                assert(out@ =~= opened + pairs_text(before.push(pairs@[i as int])));
            }
        }
        i = i + 1;
    }
    out.append("]");
    proof {
        assert(pairs@.subrange(0, i as int) =~= pairs@);
        assert(out@ =~= old(out)@ + list_text(pairs@));
    }
}

impl Order {
    /// The text of the order.
    pub fn to_json(&self) -> (text: String)
        ensures
            text@ == order_text(self@),
    {
        proof {
            reveal_strlit("{\"Cucurucho\":");
            reveal_strlit("{\"Cuarto\":");
            reveal_strlit("{\"Medio\":");
            reveal_strlit("{\"Kilo\":");
            reveal_strlit("Cucurucho");
            reveal_strlit("Cuarto");
            reveal_strlit("Medio");
            reveal_strlit("Kilo");
            reveal_strlit("}");
            assert("}"@ =~= seq!['}']);
        }
        let mut text;
        match self {
            Order::Cucurucho(pair) => {
                text = String::from_str("{\"Cucurucho\":");
                assert(text@ =~= seq!['{', '"'] + portion_name(Portion::Cucurucho) + seq![
                    '"',
                    ':',
                ]);
                push_pair(&mut text, *pair);
            },
            Order::Cuarto(pairs) => {
                text = String::from_str("{\"Cuarto\":");
                assert(text@ =~= seq!['{', '"'] + portion_name(Portion::Cuarto) + seq!['"', ':']);
                push_list(&mut text, pairs);
            },
            Order::Medio(pairs) => {
                text = String::from_str("{\"Medio\":");
                assert(text@ =~= seq!['{', '"'] + portion_name(Portion::Medio) + seq!['"', ':']);
                push_list(&mut text, pairs);
            },
            Order::Kilo(pairs) => {
                text = String::from_str("{\"Kilo\":");
                assert(text@ =~= seq!['{', '"'] + portion_name(Portion::Kilo) + seq!['"', ':']);
                push_list(&mut text, pairs);
            },
        }
        text.append("}");
        assert(text@ =~= order_text(self@));
        text
    }
}

/// The first place from `at` on where no digit stands.
pub open spec fn digits_end(text: Seq<char>, at: int) -> int
    decreases text.len() - at,
{
    if 0 <= at < text.len() && is_digit(text[at]) {
        digits_end(text, at + 1)
    } else {
        at
    }
}

/// The first place from `at` on where a quote stands, or the end.
pub open spec fn quote_end(text: Seq<char>, at: int) -> int
    decreases text.len() - at,
{
    if 0 <= at < text.len() && text[at] != '"' {
        quote_end(text, at + 1)
    } else {
        at
    }
}

/// Reads a number at `at`: the digits that stand there, which must be
/// at least one, must not start with a zero unless they are a single
/// zero, and must not stand for more than `u32::MAX`. Gives the number
/// and the place after it.
pub open spec fn read_number(text: Seq<char>, at: int) -> Option<(u32, int)> {
    let end = digits_end(text, at);
    if 0 <= at < end && end <= text.len() && (end == at + 1 || text[at] != '0') {
        match decimal_value(text.subrange(at, end)) {
            Some(v) => if v <= u32::MAX {
                Some((v as u32, end))
            } else {
                None
            },
            None => None,
        }
    } else {
        None
    }
}

/// Reads the name of a flavor in quotes at `at`. Gives the flavor and
/// the place after the closing quote.
pub open spec fn read_flavor(text: Seq<char>, at: int) -> Option<(FlavorID, int)> {
    if char_at(text, at, '"') {
        let end = quote_end(text, at + 1);
        if at < end < text.len() {
            match flavor_named(text.subrange(at + 1, end)) {
                Some(flavor) => Some((flavor, end + 1)),
                None => None,
            }
        } else {
            None
        }
    } else {
        None
    }
}

/// Reads one `(flavor, grams)` at `at`. Gives it and the place after it.
pub open spec fn read_pair(text: Seq<char>, at: int) -> Option<((FlavorID, u32), int)> {
    if char_at(text, at, '[') {
        match read_flavor(text, at + 1) {
            Some((flavor, comma)) => if char_at(text, comma, ',') {
                match read_number(text, comma + 1) {
                    Some((grams, close)) => if char_at(text, close, ']') {
                        Some(((flavor, grams), close + 1))
                    } else {
                        None
                    },
                    None => None,
                }
            } else {
                None
            },
            None => None,
        }
    } else {
        None
    }
}

/// Reads one or more `(flavor, grams)` with commas between at `at`.
/// Gives them and the place after the last.
pub open spec fn read_pairs(text: Seq<char>, at: int) -> Option<(Seq<(FlavorID, u32)>, int)>
    decreases text.len() - at,
{
    match read_pair(text, at) {
        Some((pair, next)) => if at < next && char_at(text, next, ',') {
            match read_pairs(text, next + 1) {
                Some((more, end)) => Some((seq![pair] + more, end)),
                None => None,
            }
        } else {
            Some((seq![pair], next))
        },
        None => None,
    }
}

/// Reads a list of `(flavor, grams)` in square brackets at `at`. Gives
/// the list and the place after the closing bracket.
pub open spec fn read_list(text: Seq<char>, at: int) -> Option<(Seq<(FlavorID, u32)>, int)> {
    if char_at(text, at, '[') {
        if char_at(text, at + 1, ']') {
            Some((Seq::empty(), at + 2))
        } else {
            match read_pairs(text, at + 1) {
                Some((pairs, close)) => if char_at(text, close, ']') {
                    Some((pairs, close + 1))
                } else {
                    None
                },
                None => None,
            }
        }
    } else {
        None
    }
}

/// The portion whose name in quotes, after a brace and before a colon,
/// opens the text, with the place after the colon.
pub open spec fn read_portion(text: Seq<char>) -> Option<(Portion, int)> {
    if has_at(text, 0, "{\"Cucurucho\":"@) {
        Some((Portion::Cucurucho, 13))
    } else if has_at(text, 0, "{\"Cuarto\":"@) {
        Some((Portion::Cuarto, 10))
    } else if has_at(text, 0, "{\"Medio\":"@) {
        Some((Portion::Medio, 9))
    } else if has_at(text, 0, "{\"Kilo\":"@) {
        Some((Portion::Kilo, 8))
    } else {
        None
    }
}

/// Reads an order: the whole text must be the text of one order, with
/// nothing before, between or after.
pub open spec fn read_order(text: Seq<char>) -> Option<OrderView> {
    match read_portion(text) {
        Some((portion, at)) => {
            let body = if portion == Portion::Cucurucho {
                match read_pair(text, at) {
                    Some((pair, end)) => Some((seq![pair], end)),
                    None => None,
                }
            } else {
                read_list(text, at)
            };
            match body {
                Some((flavors, end)) => if char_at(text, end, '}') && end + 1 == text.len() {
                    Some(OrderView { portion, flavors })
                } else {
                    None
                },
                None => None,
            }
        },
        None => None,
    }
}

/// The first place from `at` on where no digit stands.
fn find_digits_end(chars: &Vec<char>, at: usize) -> (end: usize)
    ensures
        end == digits_end(chars@, at as int),
        at <= end,
        at < chars.len() ==> end <= chars.len(),
{
    let mut end = at;
    while end < chars.len() && chars[end] >= '0' && chars[end] <= '9'
        invariant
            at <= end,
            at < chars.len() ==> end <= chars.len(),
            digits_end(chars@, at as int) == digits_end(chars@, end as int),
        decreases chars.len() - end,
    {
        end = end + 1;
    }
    end
}

/// The first place from `at` on where a quote stands, or the end.
fn find_quote_end(chars: &Vec<char>, at: usize) -> (end: usize)
    ensures
        end == quote_end(chars@, at as int),
        at <= end,
        at < chars.len() ==> end <= chars.len(),
{
    let mut end = at;
    while end < chars.len() && chars[end] != '"'
        invariant
            at <= end,
            at < chars.len() ==> end <= chars.len(),
            quote_end(chars@, at as int) == quote_end(chars@, end as int),
        decreases chars.len() - end,
    {
        end = end + 1;
    }
    end
}

/// Reads a number at `at`.
fn take_number(chars: &Vec<char>, at: usize) -> (r: Option<(u32, usize)>)
    ensures
        match r {
            Some((n, end)) => read_number(chars@, at as int) == Some((n, end as int)) && at < end
                <= chars.len(),
            None => read_number(chars@, at as int) is None,
        },
{
    let end = find_digits_end(chars, at);
    if at < end && end <= chars.len() && (end == at + 1 || chars[at] != '0') {
        match parse_decimal(chars, at, end) {
            Some(n) => Some((n, end)),
            None => None,
        }
    } else {
        None
    }
}

/// Reads the name of a flavor in quotes at `at`.
fn take_flavor(chars: &Vec<char>, at: usize) -> (r: Option<(FlavorID, usize)>)
    ensures
        match r {
            Some((flavor, end)) => read_flavor(chars@, at as int) == Some((flavor, end as int))
                && at < end <= chars.len(),
            None => read_flavor(chars@, at as int) is None,
        },
{
    if !is_at(chars, at, '"') {
        return None;
    }
    assert(at < chars.len());
    let from = at + 1;
    let end = find_quote_end(chars, from);
    if !(end < chars.len()) {
        return None;
    }
    let found = FlavorID::from_chars(chars, from, end);
    match found {
        Some(flavor) => Some((flavor, end + 1)),
        None => None,
    }
}

/// Reads one `(flavor, grams)` at `at`.
fn take_pair(chars: &Vec<char>, at: usize) -> (r: Option<((FlavorID, u32), usize)>)
    ensures
        match r {
            Some((pair, end)) => read_pair(chars@, at as int) == Some((pair, end as int)) && at
                < end <= chars.len(),
            None => read_pair(chars@, at as int) is None,
        },
{
    if !is_at(chars, at, '[') {
        return None;
    }
    assert(at < chars.len());
    let (flavor, comma) = match take_flavor(chars, at + 1) {
        Some(found) => found,
        None => return None,
    };
    if !is_at(chars, comma, ',') {
        return None;
    }
    let (grams, close) = match take_number(chars, comma + 1) {
        Some(found) => found,
        None => return None,
    };
    if !is_at(chars, close, ']') {
        return None;
    }
    Some(((flavor, grams), close + 1))
}

/// Reads one or more `(flavor, grams)` with commas between at `at`.
fn take_pairs(chars: &Vec<char>, at: usize) -> (r: Option<(Vec<(FlavorID, u32)>, usize)>)
    ensures
        match r {
            Some((pairs, end)) => read_pairs(chars@, at as int) == Some((pairs@, end as int))
                && at < end <= chars.len(),
            None => read_pairs(chars@, at as int) is None,
        },
    decreases chars.len() - at,
{
    let (pair, next) = match take_pair(chars, at) {
        Some(found) => found,
        None => return None,
    };
    if is_at(chars, next, ',') {
        match take_pairs(chars, next + 1) {
            Some((more, end)) => {
                let mut pairs: Vec<(FlavorID, u32)> = Vec::new();
                pairs.push(pair);
                let mut k: usize = 0;
                while k < more.len()
                    invariant
                        k <= more.len(),
                        pairs@ == seq![pair] + more@.subrange(0, k as int),
                    decreases more.len() - k,
                {
                    pairs.push(more[k]);
                    k = k + 1;
                    assert(pairs@ =~= seq![pair] + more@.subrange(0, k as int));
                }
                assert(more@.subrange(0, k as int) =~= more@);
                Some((pairs, end))
            },
            None => None,
        }
    } else {
        let mut pairs: Vec<(FlavorID, u32)> = Vec::new();
        pairs.push(pair);
        assert(pairs@ =~= seq![pair]);
        Some((pairs, next))
    }
}

/// Reads a list of `(flavor, grams)` in square brackets at `at`.
fn take_list(chars: &Vec<char>, at: usize) -> (r: Option<(Vec<(FlavorID, u32)>, usize)>)
    ensures
        match r {
            Some((pairs, end)) => read_list(chars@, at as int) == Some((pairs@, end as int)),
            None => read_list(chars@, at as int) is None,
        },
{
    if !is_at(chars, at, '[') {
        return None;
    }
    assert(at < chars.len());
    if is_at(chars, at + 1, ']') {
        assert(at + 1 < chars.len());
        return Some((Vec::new(), at + 2));
    }
    let (pairs, close) = match take_pairs(chars, at + 1) {
        Some(found) => found,
        None => return None,
    };
    if !is_at(chars, close, ']') {
        return None;
    }
    Some((pairs, close + 1))
}

impl Order {
    /// Reads the text of an order. The text must be the text of one
    /// order as `to_json` writes it, with nothing added.
    pub fn from_json(text: &str) -> (r: Option<Order>)
        ensures
            match r {
                Some(order) => read_order(text@) == Some(order@),
                None => read_order(text@) is None,
            },
    {
        let chars = chars_of(text);
        let (portion, at): (Portion, usize) = if stands_at(&chars, 0, "{\"Cucurucho\":") {
            (Portion::Cucurucho, 13)
        } else if stands_at(&chars, 0, "{\"Cuarto\":") {
            (Portion::Cuarto, 10)
        } else if stands_at(&chars, 0, "{\"Medio\":") {
            (Portion::Medio, 9)
        } else if stands_at(&chars, 0, "{\"Kilo\":") {
            (Portion::Kilo, 8)
        } else {
            return None;
        };
        match portion {
            Portion::Cucurucho => {
                let (pair, end) = match take_pair(&chars, at) {
                    Some(found) => found,
                    None => return None,
                };
                if is_at(&chars, end, '}') && end + 1 == chars.len() {
                    Some(Order::Cucurucho(pair))
                } else {
                    None
                }
            },
            _ => {
                let (pairs, end) = match take_list(&chars, at) {
                    Some(found) => found,
                    None => return None,
                };
                if !(is_at(&chars, end, '}') && end + 1 == chars.len()) {
                    return None;
                }
                match portion {
                    Portion::Cuarto => Some(Order::Cuarto(pairs)),
                    Portion::Medio => Some(Order::Medio(pairs)),
                    _ => Some(Order::Kilo(pairs)),
                }
            },
        }
    }
}

/// The name of a flavor holds no quote.
pub proof fn lemma_name_is_plain(flavor: FlavorID)
    ensures
        forall|i: int|
            0 <= i < flavor.spec_name().len() ==> (#[trigger] flavor.spec_name()[i]) != '"',
        flavor_named(flavor.spec_name()) == Some(flavor),
{
    reveal_strlit("Chocolate");
    reveal_strlit("Vanilla");
    reveal_strlit("Strawberry");
    reveal_strlit("Mint");
    reveal_strlit("Pistachio");
    reveal_strlit("DulceDeLeche");
    reveal_strlit("Lemon");
    let name = flavor.spec_name();
    assert forall|i: int| 0 <= i < name.len() implies (#[trigger] name[i]) != '"' by {
        if i == 0 {
        } else if i == 1 {
        } else if i == 2 {
        } else if i == 3 {
        } else if i == 4 {
        } else if i == 5 {
        } else if i == 6 {
        } else if i == 7 {
        } else if i == 8 {
        } else if i == 9 {
        } else if i == 10 {
        } else if i == 11 {
        }
    }
    crate::flavor_id::lemma_names_distinct(flavor, FlavorID::Chocolate);
    crate::flavor_id::lemma_names_distinct(flavor, FlavorID::Vanilla);
    crate::flavor_id::lemma_names_distinct(flavor, FlavorID::Strawberry);
    crate::flavor_id::lemma_names_distinct(flavor, FlavorID::Mint);
    crate::flavor_id::lemma_names_distinct(flavor, FlavorID::Pistachio);
    crate::flavor_id::lemma_names_distinct(flavor, FlavorID::DulceDeLeche);
    crate::flavor_id::lemma_names_distinct(flavor, FlavorID::Lemon);
}

/// What stands at a place stands there part by part.
proof fn lemma_has_at_parts(text: Seq<char>, at: int, first: Seq<char>, second: Seq<char>)
    requires
        has_at(text, at, first + second),
    ensures
        has_at(text, at, first),
        has_at(text, at + first.len(), second),
{
    let both = first + second;
    assert(text.subrange(at, at + first.len()) =~= both.subrange(0, first.len() as int));
    assert(both.subrange(0, first.len() as int) =~= first);
    assert(text.subrange(at + first.len(), at + first.len() + second.len()) =~= both.subrange(
        first.len() as int,
        both.len() as int,
    ));
    assert(both.subrange(first.len() as int, both.len() as int) =~= second);
}

/// The character that stands where a text of one character stands.
proof fn lemma_has_at_char(text: Seq<char>, at: int, c: char)
    requires
        has_at(text, at, seq![c]),
    ensures
        char_at(text, at, c),
{
    assert(text.subrange(at, at + 1)[0] == c);
}

/// Digits that stand at a place, with no digit after them, end where
/// they end.
proof fn lemma_digits_end(text: Seq<char>, at: int, digits: Seq<char>)
    requires
        has_at(text, at, digits),
        all_digits(digits),
        at + digits.len() == text.len() || !is_digit(text[at + digits.len()]),
    ensures
        digits_end(text, at) == at + digits.len(),
    decreases digits.len(),
{
    if digits.len() > 0 {
        assert(text.subrange(at, at + digits.len())[0] == digits[0]);
        assert(is_digit(text[at]));
        let rest = digits.drop_first();
        assert(text.subrange(at + 1, at + 1 + rest.len()) =~= rest) by {
            assert forall|j: int| 0 <= j < rest.len() implies text.subrange(
                at + 1,
                at + 1 + rest.len(),
            )[j] == rest[j] by {
                assert(text.subrange(at, at + digits.len())[j + 1] == digits[j + 1]);
            }
        }
        assert(all_digits(rest)) by {
            assert forall|j: int| 0 <= j < rest.len() implies is_digit(#[trigger] rest[j]) by {
                assert(rest[j] == digits[j + 1]);
            }
        }
        lemma_digits_end(text, at + 1, rest);
    }
}

/// A number written out at a place, with no digit after it, is read
/// back there as itself.
proof fn lemma_read_number(text: Seq<char>, at: int, n: u32)
    requires
        has_at(text, at, decimal(n as nat)),
        at + decimal(n as nat).len() == text.len() || !is_digit(
            text[at + decimal(n as nat).len()],
        ),
    ensures
        read_number(text, at) == Some((n, at + decimal(n as nat).len())),
{
    let digits = decimal(n as nat);
    lemma_decimal_read_back(n as nat);
    lemma_digits_end(text, at, digits);
    assert(text.subrange(at, at + digits.len())[0] == digits[0]);
}

/// A text without a quote that stands at a place, with a quote after
/// it, ends at that quote.
proof fn lemma_quote_end(text: Seq<char>, at: int, plain: Seq<char>)
    requires
        has_at(text, at, plain),
        forall|i: int| 0 <= i < plain.len() ==> (#[trigger] plain[i]) != '"',
        char_at(text, at + plain.len(), '"'),
    ensures
        quote_end(text, at) == at + plain.len(),
    decreases plain.len(),
{
    if plain.len() > 0 {
        assert(text.subrange(at, at + plain.len())[0] == plain[0]);
        let rest = plain.drop_first();
        assert(text.subrange(at + 1, at + 1 + rest.len()) =~= rest) by {
            assert forall|j: int| 0 <= j < rest.len() implies text.subrange(
                at + 1,
                at + 1 + rest.len(),
            )[j] == rest[j] by {
                assert(text.subrange(at, at + plain.len())[j + 1] == plain[j + 1]);
            }
        }
        assert forall|j: int| 0 <= j < rest.len() implies (#[trigger] rest[j]) != '"' by {
            assert(rest[j] == plain[j + 1]);
        }
        lemma_quote_end(text, at + 1, rest);
    }
}

/// The text of one `(flavor, grams)` that stands at a place is read
/// back there as that `(flavor, grams)`.
#[verifier::rlimit(50)]
proof fn lemma_read_pair(text: Seq<char>, at: int, pair: (FlavorID, u32))
    requires
        has_at(text, at, pair_text(pair)),
    ensures
        read_pair(text, at) == Some((pair, at + pair_text(pair).len())),
        char_at(text, at, '['),
{
    let name = pair.0.spec_name();
    let digits = decimal(pair.1 as nat);
    let open = seq!['[', '"'];
    let mid = seq!['"', ','];
    let close = seq![']'];
    lemma_name_is_plain(pair.0);
    lemma_decimal_read_back(pair.1 as nat);
    assert(pair_text(pair) == open + name + mid + digits + close);
    lemma_has_at_parts(text, at, open + name + mid + digits, close);
    lemma_has_at_parts(text, at, open + name + mid, digits);
    lemma_has_at_parts(text, at, open + name, mid);
    lemma_has_at_parts(text, at, open, name);
    assert(text.subrange(at, at + 2)[0] == '[');
    assert(text.subrange(at, at + 2)[1] == '"');
    let after_name = at + 2 + name.len();
    assert(text.subrange(after_name, after_name + 2)[0] == '"');
    assert(text.subrange(after_name, after_name + 2)[1] == ',');
    let after_digits = after_name + 2 + digits.len();
    lemma_has_at_char(text, after_digits, ']');
    lemma_quote_end(text, at + 2, name);
    assert(text.subrange(at + 2, after_name) =~= name);
    assert(read_flavor(text, at + 1) == Some((pair.0, after_name + 1)));
    lemma_read_number(text, after_name + 2, pair.1);
}

/// The text of one or more `(flavor, grams)` that stands at a place,
/// with no comma after it, is read back there as those.
#[verifier::rlimit(50)]
proof fn lemma_read_pairs(text: Seq<char>, at: int, pairs: Seq<(FlavorID, u32)>)
    requires
        pairs.len() > 0,
        has_at(text, at, pairs_text(pairs)),
        !char_at(text, at + pairs_text(pairs).len(), ','),
    ensures
        read_pairs(text, at) == Some((pairs, at + pairs_text(pairs).len())),
        char_at(text, at, '['),
    decreases pairs.len(),
{
    let first = pair_text(pairs[0]);
    if pairs.len() == 1 {
        lemma_read_pair(text, at, pairs[0]);
        assert(seq![pairs[0]] =~= pairs);
    } else {
        let rest = pairs.drop_first();
        let comma = seq![','];
        assert(pairs_text(pairs) == first + comma + pairs_text(rest));
        lemma_has_at_parts(text, at, first + comma, pairs_text(rest));
        lemma_has_at_parts(text, at, first, comma);
        lemma_read_pair(text, at, pairs[0]);
        lemma_has_at_char(text, at + first.len(), ',');
        lemma_read_pairs(text, at + first.len() + 1, rest);
        assert(seq![pairs[0]] + rest =~= pairs);
    }
}

/// The text of a list that stands at a place is read back there as the list.
proof fn lemma_read_list(text: Seq<char>, at: int, pairs: Seq<(FlavorID, u32)>)
    requires
        has_at(text, at, list_text(pairs)),
    ensures
        read_list(text, at) == Some((pairs, at + list_text(pairs).len())),
{
    let open = seq!['['];
    let close = seq![']'];
    let inner = pairs_text(pairs);
    lemma_has_at_parts(text, at, open + inner, close);
    lemma_has_at_parts(text, at, open, inner);
    lemma_has_at_char(text, at, '[');
    lemma_has_at_char(text, at + 1 + inner.len(), ']');
    if pairs.len() == 0 {
        assert(pairs =~= Seq::empty());
    } else {
        lemma_read_pairs(text, at + 1, pairs);
    }
}

/// An order written out is read back as itself: reading the text of an
/// order gives the order, whatever its portion and whatever it asks for.
#[verifier::rlimit(50)]
pub proof fn lemma_order_read_back(order: OrderView)
    requires
        representable(order),
    ensures
        read_order(order_text(order)) == Some(order),
{
    reveal_strlit("{\"Cucurucho\":");
    reveal_strlit("{\"Cuarto\":");
    reveal_strlit("{\"Medio\":");
    reveal_strlit("{\"Kilo\":");
    reveal_strlit("Cucurucho");
    reveal_strlit("Cuarto");
    reveal_strlit("Medio");
    reveal_strlit("Kilo");
    let text = order_text(order);
    let head = seq!['{', '"'] + portion_name(order.portion) + seq!['"', ':'];
    let body = if order.portion == Portion::Cucurucho {
        pair_text(order.flavors[0])
    } else {
        list_text(order.flavors)
    };
    let close = seq!['}'];
    assert(text == head + body + close);
    assert(text.subrange(0, head.len() as int) =~= head);
    assert(text.subrange(head.len() as int, (head.len() + body.len()) as int) =~= body);
    assert(text[(head.len() + body.len()) as int] == '}');
    assert(text[0] == head[0]);
    assert(text[1] == head[1]);
    assert(text[2] == head[2]);
    assert(text[3] == head[3]);
    assert(text[4] == head[4]);
    match order.portion {
        Portion::Cucurucho => {
            assert(head =~= "{\"Cucurucho\":"@);
            lemma_read_pair(text, 13, order.flavors[0]);
            assert(seq![order.flavors[0]] =~= order.flavors);
        },
        Portion::Cuarto => {
            assert(head =~= "{\"Cuarto\":"@);
            assert(!has_at(text, 0, "{\"Cucurucho\":"@)) by {
                if has_at(text, 0, "{\"Cucurucho\":"@) {
                    assert(text.subrange(0, 13)[4] == 'c');
                }
            }
            lemma_read_list(text, 10, order.flavors);
        },
        Portion::Medio => {
            assert(head =~= "{\"Medio\":"@);
            assert(!has_at(text, 0, "{\"Cucurucho\":"@)) by {
                if has_at(text, 0, "{\"Cucurucho\":"@) {
                    assert(text.subrange(0, 13)[2] == 'C');
                }
            }
            assert(!has_at(text, 0, "{\"Cuarto\":"@)) by {
                if has_at(text, 0, "{\"Cuarto\":"@) {
                    assert(text.subrange(0, 10)[2] == 'C');
                }
            }
            lemma_read_list(text, 9, order.flavors);
        },
        Portion::Kilo => {
            assert(head =~= "{\"Kilo\":"@);
            assert(!has_at(text, 0, "{\"Cucurucho\":"@)) by {
                if has_at(text, 0, "{\"Cucurucho\":"@) {
                    assert(text.subrange(0, 13)[2] == 'C');
                }
            }
            assert(!has_at(text, 0, "{\"Cuarto\":"@)) by {
                if has_at(text, 0, "{\"Cuarto\":"@) {
                    assert(text.subrange(0, 10)[2] == 'C');
                }
            }
            assert(!has_at(text, 0, "{\"Medio\":"@)) by {
                if has_at(text, 0, "{\"Medio\":"@) {
                    assert(text.subrange(0, 9)[2] == 'M');
                }
            }
            lemma_read_list(text, 8, order.flavors);
        },
    }
}

} // verus!
