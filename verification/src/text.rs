//! Text: what the rest of the library needs to know of strings.
use vstd::prelude::*;
use vstd::string::*;
use vstd::utf8::*;

verus! {

/// The number of bytes that `text` takes in UTF-8.
pub open spec fn utf8_len(text: Seq<char>) -> nat {
    encode_utf8(text).len()
}

/// The length of `text` in bytes.
pub fn byte_len(text: &str) -> (length: usize)
    ensures
        length == utf8_len(text@),
{
    let bytes: &[u8] = text.as_bytes();
    bytes.len()
}

/// The texts of strings.
pub open spec fn text_views(texts: Seq<String>) -> Seq<Seq<char>> {
    texts.map_values(|text: String| text@)
}

/// Whether two texts hold the same characters.
pub fn same(left: &str, right: &str) -> (equal: bool)
    ensures
        equal == (left@ == right@),
{
    broadcast use group_utf8_lib;

    let a: &[u8] = left.as_bytes();
    let b: &[u8] = right.as_bytes();
    proof {
        encode_utf8_decode_utf8(left@);
        encode_utf8_decode_utf8(right@);
    }
    if a.len() != b.len() {
        return false;
    }
    let mut i: usize = 0;
    while i < a.len()
        invariant
            i <= a.len(),
            a.len() == b.len(),
            a@ == encode_utf8(left@),
            b@ == encode_utf8(right@),
            forall|j: int| 0 <= j < i ==> a@[j] == b@[j],
        decreases a.len() - i,
    {
        if a[i] != b[i] {
            assert(a@ != b@);
            return false;
        }
        i = i + 1;
    }
    assert(a@ =~= b@);
    true
}

/// The characters of a text, one by one.
pub fn to_chars(text: &str) -> (chars: Vec<char>)
    ensures
        chars@ == text@,
{
    let mut chars: Vec<char> = Vec::new();
    for c in iter: text.chars()
        invariant
            chars@ == text@.take(iter.index() as int),
            iter.seq() == text@,
    {
        chars.push(c);
    }
    chars
}

/// Whether `text` begins with `prefix`.
pub fn starts_with(text: &str, prefix: &str) -> (found: bool)
    ensures
        found == prefix@.is_prefix_of(text@),
{
    let whole: Vec<char> = to_chars(text);
    let part: Vec<char> = to_chars(prefix);
    if part.len() > whole.len() {
        return false;
    }
    let mut i: usize = 0;
    while i < part.len()
        invariant
            i <= part.len() <= whole.len(),
            whole@ == text@,
            part@ == prefix@,
            forall|j: int| 0 <= j < i ==> part@[j] == whole@[j],
        decreases part.len() - i,
    {
        if part[i] != whole[i] {
            assert(text@.take(prefix@.len() as int)[i as int] != prefix@[i as int]);
            return false;
        }
        i = i + 1;
    }
    assert(prefix@ =~= text@.take(prefix@.len() as int));
    true
}

/// Whether the characters end with those of `suffix`.
pub fn chars_end_with(chars: &Vec<char>, suffix: &str) -> (found: bool)
    ensures
        found == suffix@.is_suffix_of(chars@),
{
    let part: Vec<char> = to_chars(suffix);
    if part.len() > chars.len() {
        return false;
    }
    let start: usize = chars.len() - part.len();
    let mut i: usize = 0;
    while i < part.len()
        invariant
            i <= part.len() <= chars.len(),
            start == chars.len() - part.len(),
            part@ == suffix@,
            forall|j: int| 0 <= j < i ==> part@[j] == chars@[start + j],
        decreases part.len() - i,
    {
        if part[i] != chars[start + i] {
            assert(chars@.skip(start as int)[i as int] != suffix@[i as int]);
            assert(chars@.subrange(start as int, chars@.len() as int)[i as int] != suffix@[i as int]);
            return false;
        }
        i = i + 1;
    }
    assert(suffix@ =~= chars@.subrange(start as int, chars@.len() as int));
    true
}

/// Whether the characters are exactly those of `text`.
pub fn chars_are(chars: &Vec<char>, text: &str) -> (equal: bool)
    ensures
        equal == (chars@ == text@),
{
    let other: Vec<char> = to_chars(text);
    if other.len() != chars.len() {
        return false;
    }
    let mut i: usize = 0;
    while i < chars.len()
        invariant
            i <= chars.len(),
            chars.len() == other.len(),
            other@ == text@,
            forall|j: int| 0 <= j < i ==> chars@[j] == other@[j],
        decreases chars.len() - i,
    {
        if chars[i] != other[i] {
            return false;
        }
        i = i + 1;
    }
    assert(chars@ =~= text@);
    true
}

/// What lies before and after the first `mark` in `text`.
pub open spec fn split_at_first(text: Seq<char>, mark: char) -> Option<(Seq<char>, Seq<char>)>
    decreases text.len(),
{
    if text.len() == 0 {
        None
    } else if text[0] == mark {
        Some((Seq::empty(), text.drop_first()))
    } else {
        match split_at_first(text.drop_first(), mark) {
            Some((before, after)) => Some((seq![text[0]] + before, after)),
            None => None,
        }
    }
}

/// What lies before and after the last `mark` in `text`.
pub open spec fn split_at_last(text: Seq<char>, mark: char) -> Option<(Seq<char>, Seq<char>)>
    decreases text.len(),
{
    if text.len() == 0 {
        None
    } else if text.last() == mark {
        Some((text.drop_last(), Seq::empty()))
    } else {
        match split_at_last(text.drop_last(), mark) {
            Some((before, after)) => Some((before, after.push(text.last()))),
            None => None,
        }
    }
}

/// A text splits at its first mark into what is free of the mark and the rest.
pub proof fn lemma_split_at_first(text: Seq<char>, mark: char)
    ensures
        match split_at_first(text, mark) {
            Some((before, after)) => text == before + seq![mark] + after && !before.contains(mark),
            None => !text.contains(mark),
        },
    decreases text.len(),
{
    if text.len() > 0 {
        let rest = text.drop_first();
        assert(text =~= seq![text[0]] + rest);
        if text[0] == mark {
            assert(text =~= Seq::<char>::empty() + seq![mark] + rest);
        } else {
            lemma_split_at_first(rest, mark);
            match split_at_first(rest, mark) {
                Some((before, after)) => {
                    let longer = seq![text[0]] + before;
                    assert(text =~= longer + seq![mark] + after);
                    assert forall|i: int| 0 <= i < longer.len() implies longer[i] != mark by {
                        if i > 0 {
                            assert(longer[i] == before[i - 1]);
                        }
                    }
                },
                None => {
                    assert forall|i: int| 0 <= i < text.len() implies text[i] != mark by {
                        if i > 0 {
                            assert(text[i] == rest[i - 1]);
                        }
                    }
                },
            }
        }
    }
}

/// A text splits at its last mark into the rest and what is free of the mark.
pub proof fn lemma_split_at_last(text: Seq<char>, mark: char)
    ensures
        match split_at_last(text, mark) {
            Some((before, after)) => text == before + seq![mark] + after && !after.contains(mark),
            None => !text.contains(mark),
        },
    decreases text.len(),
{
    if text.len() > 0 {
        let rest = text.drop_last();
        assert(text =~= rest.push(text.last()));
        if text.last() == mark {
            assert(text =~= rest + seq![mark] + Seq::<char>::empty());
        } else {
            lemma_split_at_last(rest, mark);
            match split_at_last(rest, mark) {
                Some((before, after)) => {
                    let longer = after.push(text.last());
                    assert(text =~= before + seq![mark] + longer);
                    assert forall|i: int| 0 <= i < longer.len() implies longer[i] != mark by {
                        if i < after.len() {
                            assert(longer[i] == after[i]);
                        }
                    }
                },
                None => {
                    assert forall|i: int| 0 <= i < text.len() implies text[i] != mark by {
                        if i < rest.len() {
                            assert(text[i] == rest[i]);
                        }
                    }
                },
            }
        }
    }
}

/// The split at the first mark is the only one whose first part is free of it.
pub proof fn lemma_split_at_first_is(before: Seq<char>, mark: char, after: Seq<char>)
    requires
        !before.contains(mark),
    ensures
        split_at_first(before + seq![mark] + after, mark) == Some((before, after)),
    decreases before.len(),
{
    let text = before + seq![mark] + after;
    if before.len() == 0 {
        assert(text[0] == mark);
        assert(text.drop_first() =~= after);
        assert(before =~= Seq::<char>::empty());
    } else {
        let rest = before.drop_first();
        assert(before[0] != mark);
        assert forall|i: int| 0 <= i < rest.len() implies rest[i] != mark by {
            assert(rest[i] == before[i + 1]);
        }
        lemma_split_at_first_is(rest, mark, after);
        assert(text.drop_first() =~= rest + seq![mark] + after);
        assert(before =~= seq![before[0]] + rest);
        assert(text[0] == before[0]);
    }
}

/// The split at the last mark is the only one whose second part is free of it.
pub proof fn lemma_split_at_last_is(before: Seq<char>, mark: char, after: Seq<char>)
    requires
        !after.contains(mark),
    ensures
        split_at_last(before + seq![mark] + after, mark) == Some((before, after)),
    decreases after.len(),
{
    let text = before + seq![mark] + after;
    if after.len() == 0 {
        assert(text.last() == mark);
        assert(text.drop_last() =~= before);
        assert(after =~= Seq::<char>::empty());
    } else {
        let rest = after.drop_last();
        assert(after.last() != mark);
        assert forall|i: int| 0 <= i < rest.len() implies rest[i] != mark by {
            assert(rest[i] == after[i]);
        }
        lemma_split_at_last_is(before, mark, rest);
        assert(text.drop_last() =~= before + seq![mark] + rest);
        assert(after =~= rest.push(after.last()));
        assert(text.last() == after.last());
    }
}

/// Splits `text` at the first `mark`.
pub fn split_first(text: &str, mark: char) -> (parts: Option<(String, String)>)
    ensures
        match parts {
            Some((before, after)) => split_at_first(text@, mark) == Some((before@, after@)),
            None => split_at_first(text@, mark) is None,
        },
{
    let chars: Vec<char> = to_chars(text);
    let mut i: usize = 0;
    while i < chars.len()
        invariant
            i <= chars.len(),
            chars@ == text@,
            forall|j: int| 0 <= j < i ==> chars@[j] != mark,
        decreases chars.len() - i,
    {
        if chars[i] == mark {
            let before: &str = text.substring_char(0, i);
            let after: &str = text.substring_char(i + 1, chars.len());
            proof {
                assert(text@ =~= before@ + seq![mark] + after@);
                assert forall|j: int| 0 <= j < before@.len() implies before@[j] != mark by {
                    assert(before@[j] == chars@[j]);
                }
                lemma_split_at_first_is(before@, mark, after@);
            }
            return Some((before.to_owned(), after.to_owned()));
        }
        i = i + 1;
    }
    proof {
        lemma_split_at_first(text@, mark);
        if let Some((before, after)) = split_at_first(text@, mark) {
            assert(chars@[before.len() as int] == mark);
        }
    }
    None
}

/// Splits `text` at the last `mark`.
pub fn split_last(text: &str, mark: char) -> (parts: Option<(String, String)>)
    ensures
        match parts {
            Some((before, after)) => split_at_last(text@, mark) == Some((before@, after@)),
            None => split_at_last(text@, mark) is None,
        },
{
    let chars: Vec<char> = to_chars(text);
    let mut i: usize = chars.len();
    while i > 0
        invariant
            i <= chars.len(),
            chars@ == text@,
            forall|j: int| i <= j < chars.len() ==> chars@[j] != mark,
        decreases i,
    {
        i = i - 1;
        if chars[i] == mark {
            let before: &str = text.substring_char(0, i);
            let after: &str = text.substring_char(i + 1, chars.len());
            proof {
                assert(text@ =~= before@ + seq![mark] + after@);
                assert forall|j: int| 0 <= j < after@.len() implies after@[j] != mark by {
                    assert(after@[j] == chars@[i + 1 + j]);
                }
                lemma_split_at_last_is(before@, mark, after@);
            }
            return Some((before.to_owned(), after.to_owned()));
        }
    }
    proof {
        lemma_split_at_last(text@, mark);
        if let Some((before, after)) = split_at_last(text@, mark) {
            assert(chars@[before.len() as int] == mark);
        }
    }
    None
}

/// An ASCII capital becomes the small letter; any other character stays.
pub open spec fn lower_char(c: char) -> char {
    if 'A' <= c <= 'Z' {
        ((c as u8) + 32) as char
    } else {
        c
    }
}

/// `text` with its ASCII capitals made small.
pub open spec fn lowercase(text: Seq<char>) -> Seq<char> {
    text.map_values(|c: char| lower_char(c))
}

/// The characters of `text`, with ASCII capitals made small.
pub fn lower_chars(text: &str) -> (chars: Vec<char>)
    ensures
        chars@ == lowercase(text@),
{
    let whole: Vec<char> = to_chars(text);
    let mut chars: Vec<char> = Vec::new();
    let mut i: usize = 0;
    while i < whole.len()
        invariant
            i <= whole.len(),
            whole@ == text@,
            chars@.len() == i,
            forall|j: int| 0 <= j < i ==> chars@[j] == lower_char(whole@[j]),
        decreases whole.len() - i,
    {
        let c: char = whole[i];
        if 'A' <= c && c <= 'Z' {
            let small: u8 = (c as u8) + 32;
            chars.push(small as char);
        } else {
            chars.push(c);
        }
        i = i + 1;
    }
    assert(chars@ =~= lowercase(text@));
    chars
}

/// The digit of value `n` in base sixteen, in small letters.
pub open spec fn hex_digit(n: int) -> char {
    if n < 10 {
        (48 + n) as char
    } else {
        (87 + n) as char
    }
}

/// Each byte as two hexadecimal digits, the high one first.
pub open spec fn hex_text(bytes: Seq<u8>) -> Seq<char> {
    Seq::new(
        2 * bytes.len(),
        |i: int|
            if i % 2 == 0 {
                hex_digit(bytes[i / 2] as int / 16)
            } else {
                hex_digit(bytes[i / 2] as int % 16)
            },
    )
}

/// The text of one digit below sixteen.
fn digit_text(n: u8) -> (text: &'static str)
    requires
        n < 16,
    ensures
        text@ == seq![hex_digit(n as int)],
{
    proof {
        reveal_strlit("0");
        reveal_strlit("1");
        reveal_strlit("2");
        reveal_strlit("3");
        reveal_strlit("4");
        reveal_strlit("5");
        reveal_strlit("6");
        reveal_strlit("7");
        reveal_strlit("8");
        reveal_strlit("9");
        reveal_strlit("a");
        reveal_strlit("b");
        reveal_strlit("c");
        reveal_strlit("d");
        reveal_strlit("e");
        reveal_strlit("f");
    }
    if n == 0 {
        "0"
    } else if n == 1 {
        "1"
    } else if n == 2 {
        "2"
    } else if n == 3 {
        "3"
    } else if n == 4 {
        "4"
    } else if n == 5 {
        "5"
    } else if n == 6 {
        "6"
    } else if n == 7 {
        "7"
    } else if n == 8 {
        "8"
    } else if n == 9 {
        "9"
    } else if n == 10 {
        "a"
    } else if n == 11 {
        "b"
    } else if n == 12 {
        "c"
    } else if n == 13 {
        "d"
    } else if n == 14 {
        "e"
    } else {
        "f"
    }
}

/// Writes bytes in hexadecimal.
pub fn encode_hex(input: &[u8]) -> (output: String)
    ensures
        output@ == hex_text(input@),
{
    let mut output: String = String::new();
    let mut i: usize = 0;
    while i < input.len()
        invariant
            i <= input.len(),
            output@ == hex_text(input@.take(i as int)),
        decreases input.len() - i,
    {
        let byte: u8 = input[i];
        output.append(digit_text(byte / 16));
        output.append(digit_text(byte % 16));
        proof {
            let done = input@.take(i + 1);
            assert(done.len() == i + 1);
            assert forall|j: int| 0 <= j < 2 * (i + 1) implies output@[j] == hex_text(done)[j] by {
                if j < 2 * i {
                    assert(output@[j] == hex_text(input@.take(i as int))[j]);
                    assert(input@.take(i as int)[j / 2] == done[j / 2]);
                }
            }
            assert(output@ =~= hex_text(done));
        }
        i = i + 1;
    }
    assert(input@.take(input@.len() as int) =~= input@);
    output
}

/// The decimal digits of `n`.
pub open spec fn decimal_text(n: nat) -> Seq<char>
    decreases n,
{
    if n < 10 {
        seq![hex_digit(n as int)]
    } else {
        decimal_text(n / 10).push(hex_digit((n % 10) as int))
    }
}

/// Writes a number in decimal.
pub fn decimal(n: u64) -> (text: String)
    ensures
        text@ == decimal_text(n as nat),
    decreases n,
{
    if n < 10 {
        digit_text(n as u8).to_owned()
    } else {
        let mut text: String = decimal(n / 10);
        text.append(digit_text((n % 10) as u8));
        assert(text@ =~= decimal_text(n as nat));
        text
    }
}

/// `left` followed by `right`.
pub fn join(left: &str, right: &str) -> (text: String)
    ensures
        text@ == left@ + right@,
{
    let mut text: String = left.to_owned();
    text.append(right);
    text
}

/// What follows `prefix` in `text`, if `text` begins with it.
pub fn strip_prefix(text: &str, prefix: &str) -> (rest: Option<String>)
    ensures
        match rest {
            Some(rest) => prefix@.is_prefix_of(text@) && rest@ == text@.skip(prefix@.len() as int),
            None => !prefix@.is_prefix_of(text@),
        },
{
    if !starts_with(text, prefix) {
        return None;
    }
    let from: usize = to_chars(prefix).len();
    let to: usize = to_chars(text).len();
    let rest: &str = text.substring_char(from, to);
    assert(rest@ =~= text@.skip(prefix@.len() as int));
    Some(rest.to_owned())
}

/// Whether `mark` stands in `text`.
pub fn contains_char(text: &str, mark: char) -> (found: bool)
    ensures
        found == text@.contains(mark),
{
    let chars: Vec<char> = to_chars(text);
    let mut i: usize = 0;
    while i < chars.len()
        invariant
            i <= chars.len(),
            chars@ == text@,
            forall|j: int| 0 <= j < i ==> text@[j] != mark,
        decreases chars.len() - i,
    {
        if chars[i] == mark {
            assert(text@[i as int] == mark);
            return true;
        }
        i = i + 1;
    }
    false
}

/// The bytes of a text in UTF-8.
pub fn to_bytes(text: &str) -> (bytes: Vec<u8>)
    ensures
        bytes@ == encode_utf8(text@),
{
    let source: &[u8] = text.as_bytes();
    let mut bytes: Vec<u8> = Vec::new();
    let mut i: usize = 0;
    while i < source.len()
        invariant
            i <= source.len(),
            source@ == encode_utf8(text@),
            bytes@ == source@.take(i as int),
        decreases source.len() - i,
    {
        bytes.push(source[i]);
        i = i + 1;
    }
    assert(source@.take(source@.len() as int) =~= source@);
    bytes
}

/// Copies of texts.
pub fn copy_texts(texts: &Vec<String>) -> (copies: Vec<String>)
    ensures
        text_views(copies@) == text_views(texts@),
{
    let mut copies: Vec<String> = Vec::new();
    let mut i: usize = 0;
    while i < texts.len()
        invariant
            i <= texts.len(),
            copies@.len() == i,
            forall|j: int| 0 <= j < i ==> (#[trigger] copies@[j])@ == texts@[j]@,
        decreases texts.len() - i,
    {
        copies.push(texts[i].clone());
        i = i + 1;
    }
    assert(text_views(copies@) =~= text_views(texts@));
    copies
}

}
