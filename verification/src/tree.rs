//! Documents as they are parsed: trees of texts, numbers, arrays and tables, before
//! anything is made of them.
use toml::de::{DeTable, DeValue};
use vstd::prelude::*;

use crate::text::to_chars;

verus! {

/// `toml::de::DeValue`: a value of a document that was parsed, which only the `toml`
/// crate looks into.
#[verifier::external_type_specification]
#[verifier::external_body]
pub struct ExDeValue<'i>(toml::de::DeValue<'i>);

/// What a value of a document is.
pub enum TreeModel {
    Text(Seq<char>),
    /// The digits of an integer, with a sign where it has one, and their radix.
    Integer(Seq<char>, u32),
    Boolean(bool),
    Float(Seq<char>),
    Datetime(Seq<char>),
    Array(Seq<TreeModel>),
    Table(Seq<(Seq<char>, TreeModel)>),
}

/// What a value that was parsed is.
pub uninterp spec fn parsed_tree(value: DeValue<'_>) -> TreeModel;

/// What the values of an array are.
pub open spec fn parsed_items(items: Seq<DeValue<'_>>) -> Seq<TreeModel> {
    items.map_values(|item: DeValue<'_>| parsed_tree(item))
}

/// What the entries of a table are, in their order in the document.
pub open spec fn parsed_entries(entries: Seq<(String, DeValue<'_>)>) -> Seq<(Seq<char>, TreeModel)> {
    entries.map_values(|entry: (String, DeValue<'_>)| (entry.0@, parsed_tree(entry.1)))
}

/// A value that was parsed, taken apart by one level.
pub enum Parsed<'i> {
    Text(String),
    Integer(String, u32),
    Boolean(bool),
    Float(String),
    Datetime(String),
    Array(Vec<DeValue<'i>>),
    Table(Vec<(String, DeValue<'i>)>),
}

impl<'i> Parsed<'i> {
    pub open spec fn view(&self) -> TreeModel {
        match self {
            Parsed::Text(text) => TreeModel::Text(text@),
            Parsed::Integer(digits, radix) => TreeModel::Integer(digits@, *radix),
            Parsed::Boolean(flag) => TreeModel::Boolean(*flag),
            Parsed::Float(text) => TreeModel::Float(text@),
            Parsed::Datetime(text) => TreeModel::Datetime(text@),
            Parsed::Array(items) => TreeModel::Array(parsed_items(items@)),
            Parsed::Table(entries) => TreeModel::Table(parsed_entries(entries@)),
        }
    }
}

/// Tells the variants of `toml::de::DeValue` apart.
#[verifier::external_body]
pub(crate) fn take_apart<'i>(value: DeValue<'i>) -> (parsed: Parsed<'i>)
    ensures
        parsed@ == parsed_tree(value),
{
    match value {
        DeValue::String(text) => Parsed::Text(text.into_owned()),
        DeValue::Integer(number) => Parsed::Integer(number.as_str().to_owned(), number.radix()),
        DeValue::Boolean(flag) => Parsed::Boolean(flag),
        DeValue::Float(number) => Parsed::Float(number.as_str().to_owned()),
        DeValue::Datetime(time) => Parsed::Datetime(time.to_string()),
        DeValue::Array(items) => Parsed::Array(items.into_iter().map(|item| item.into_inner()).collect()),
        DeValue::Table(table) => Parsed::Table(
            table.into_iter().map(|(key, value)| (key.into_inner().into_owned(), value.into_inner())).collect(),
        ),
    }
}

/// What the TOML text of a document says, or the message with which it is refused.
pub uninterp spec fn toml_document(text: Seq<char>) -> Result<Seq<(Seq<char>, TreeModel)>, Seq<char>>;

/// `toml::de::DeTable::parse`: parses a document. The result depends on the text
/// alone and is named [`toml_document`].
#[verifier::external_body]
pub(crate) fn parse_document<'i>(text: &'i str) -> (document: Result<Vec<(String, DeValue<'i>)>, String>)
    ensures
        match document {
            Ok(entries) => toml_document(text@) == Ok::<Seq<(Seq<char>, TreeModel)>, Seq<char>>(
                parsed_entries(entries@),
            ),
            Err(message) => toml_document(text@) == Err::<Seq<(Seq<char>, TreeModel)>, Seq<char>>(message@),
        },
{
    match DeTable::parse(text) {
        Ok(table) => Ok(
            table.into_inner().into_iter().map(|(key, value)| (key.into_inner().into_owned(), value.into_inner()))
                .collect(),
        ),
        Err(error) => Err(error.to_string()),
    }
}

/// The number that a digit stands for.
pub open spec fn digit_of(c: char) -> Option<nat> {
    if '0' <= c <= '9' {
        Some((c as nat - '0' as nat) as nat)
    } else if 'a' <= c <= 'z' {
        Some((c as nat - 'a' as nat + 10) as nat)
    } else if 'A' <= c <= 'Z' {
        Some((c as nat - 'A' as nat + 10) as nat)
    } else {
        None
    }
}

/// The number that digits stand for.
pub open spec fn number_of(digits: Seq<char>, radix: nat) -> Option<nat>
    decreases digits.len(),
{
    if digits.len() == 0 {
        Some(0)
    } else {
        match (number_of(digits.drop_last(), radix), digit_of(digits.last())) {
            (Some(front), Some(digit)) => if digit < radix {
                Some(front * radix + digit)
            } else {
                None
            },
            _ => None,
        }
    }
}

/// The integer that digits with a sign, where there is one, stand for.
pub open spec fn integer_of(digits: Seq<char>, radix: nat) -> Option<int> {
    if digits.len() == 0 {
        None
    } else {
        let signed = digits[0] == '-' || digits[0] == '+';
        let rest = if signed {
            digits.drop_first()
        } else {
            digits
        };
        match number_of(rest, radix) {
            Some(number) => if rest.len() == 0 {
                None
            } else if digits[0] == '-' {
                Some(-(number as int))
            } else {
                Some(number as int)
            },
            None => None,
        }
    }
}

/// The integer that digits stand for, where it fits in `u64`.
pub open spec fn unsigned_of(digits: Seq<char>, radix: nat) -> Option<u64> {
    match integer_of(digits, radix) {
        Some(number) => if 0 <= number <= u64::MAX {
            Some(number as u64)
        } else {
            None
        },
        None => None,
    }
}

/// The number that a digit stands for.
fn find_digit(c: char) -> (digit: Option<u64>)
    ensures
        match digit {
            Some(digit) => digit_of(c) == Some(digit as nat) && digit < 36,
            None => digit_of(c) is None,
        },
{
    if '0' <= c && c <= '9' {
        Some(c as u64 - '0' as u64)
    } else if 'a' <= c && c <= 'z' {
        Some(c as u64 - 'a' as u64 + 10)
    } else if 'A' <= c && c <= 'Z' {
        Some(c as u64 - 'A' as u64 + 10)
    } else {
        None
    }
}

/// A number is at least the one that its first digits stand for.
proof fn lemma_number_grows(digits: Seq<char>, radix: nat, count: int)
    requires
        0 <= count <= digits.len(),
    ensures
        number_of(digits, radix) matches Some(whole) ==> (number_of(digits.take(count), radix) matches Some(front)
            && front <= whole),
    decreases digits.len(),
{
    if count == digits.len() {
        assert(digits.take(count) =~= digits);
    } else {
        let rest = digits.drop_last();
        lemma_number_grows(rest, radix, count);
        assert(rest.take(count) =~= digits.take(count));
        if let Some(whole) = number_of(digits, radix) {
            let front = number_of(rest, radix)->0;
            let digit = digit_of(digits.last())->0;
            assert(whole == front * radix + digit);
            assert(front <= front * radix) by (nonlinear_arith)
                requires
                    radix >= 1,
            ;
        }
    }
}

/// The number that the digits from a place on stand for, where it fits in `u64`.
fn read_number(chars: &Vec<char>, start: usize, radix: u32) -> (number: Option<u64>)
    requires
        start <= chars@.len(),
    ensures
        match number {
            Some(number) => number_of(chars@.skip(start as int), radix as nat) == Some(number as nat),
            None => number_of(chars@.skip(start as int), radix as nat) matches Some(number) ==> number > u64::MAX,
        },
{
    let ghost digits = chars@.skip(start as int);
    let base: u64 = radix as u64;
    let mut number: u64 = 0;
    let mut i: usize = start;
    proof {
        assert(digits.take(0) =~= Seq::<char>::empty());
    }
    while i < chars.len()
        invariant
            start <= i <= chars@.len(),
            digits == chars@.skip(start as int),
            base == radix as nat,
            number_of(digits.take(i - start), radix as nat) == Some(number as nat),
        decreases chars.len() - i,
    {
        proof {
            assert(digits.take(i + 1 - start).drop_last() =~= digits.take(i - start));
            assert(digits.take(i + 1 - start).last() == chars@[i as int]);
            lemma_number_grows(digits, radix as nat, i + 1 - start);
        }
        let digit: u64 = match find_digit(chars[i]) {
            Some(digit) => digit,
            None => {
                return None;
            },
        };
        if digit >= base {
            return None;
        }
        number = match number.checked_mul(base) {
            Some(product) => match product.checked_add(digit) {
                Some(sum) => sum,
                None => {
                    return None;
                },
            },
            None => {
                return None;
            },
        };
        i = i + 1;
    }
    proof {
        assert(digits.take(digits.len() as int) =~= digits);
    }
    Some(number)
}

/// The integer that digits stand for, where it fits in `u64`.
pub fn read_unsigned(digits: &str, radix: u32) -> (number: Option<u64>)
    ensures
        number == unsigned_of(digits@, radix as nat),
{
    let chars: Vec<char> = to_chars(digits);
    if chars.len() == 0 {
        return None;
    }
    let negative: bool = chars[0] == '-';
    let signed: bool = negative || chars[0] == '+';
    let start: usize = if signed { 1 } else { 0 };
    proof {
        assert(digits@.skip(0) =~= digits@);
        assert(digits@.skip(1) =~= digits@.drop_first());
    }
    if start == chars.len() {
        return None;
    }
    match read_number(&chars, start, radix) {
        Some(number) => if negative && number != 0 {
            None
        } else {
            Some(number)
        },
        None => None,
    }
}

}
