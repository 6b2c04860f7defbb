//! ASCII text forms shared by the typed values: lowercase hexadecimal,
//! decimal numbers, and text split at a separator.

use vstd::prelude::*;
use vstd::slice::slice_subrange;
use vstd::utf8::*;

verus! {

/// The lowercase hexadecimal digit of a value below 16.
pub open spec fn hex_digit(nibble: int) -> u8 {
    if nibble < 10 {
        (48 + nibble) as u8
    } else {
        (87 + nibble) as u8
    }
}

/// The value of a lowercase hexadecimal digit.
pub open spec fn hex_value(digit: u8) -> Option<int> {
    if 48 <= digit <= 57 {
        Some(digit - 48)
    } else if 97 <= digit <= 102 {
        Some(digit - 87)
    } else {
        None
    }
}

/// Two lowercase hexadecimal digits for each byte, the high half first.
pub open spec fn hex_encoding(bytes: Seq<u8>) -> Seq<u8> {
    Seq::new(
        2 * bytes.len(),
        |i: int|
            if i % 2 == 0 {
                hex_digit(bytes[i / 2] as int / 16)
            } else {
                hex_digit(bytes[i / 2] as int % 16)
            },
    )
}

/// The bytes that a text of lowercase hexadecimal digits stands for; `None`
/// where its length is odd or a character is no such digit.
pub open spec fn hex_decoding(text: Seq<u8>) -> Option<Seq<u8>> {
    if text.len() % 2 == 0 && forall|i: int|
        0 <= i < text.len() ==> hex_value(#[trigger] text[i]) is Some {
        Some(
            Seq::new(
                text.len() / 2,
                |i: int|
                    (hex_value(text[2 * i]).unwrap() * 16 + hex_value(
                        text[2 * i + 1],
                    ).unwrap()) as u8,
            ),
        )
    } else {
        None
    }
}

/// Decoding gives back the bytes that were encoded.
pub proof fn lemma_hex_roundtrip(bytes: Seq<u8>)
    ensures
        hex_decoding(hex_encoding(bytes)) == Some(bytes),
{
    let text = hex_encoding(bytes);
    assert forall|i: int| 0 <= i < text.len() implies hex_value(#[trigger] text[i]) is Some by {
        let b = bytes[i / 2];
        assert(0 <= b as int / 16 < 16 && 0 <= b as int % 16 < 16);
    }
    let back = hex_decoding(text).unwrap();
    assert forall|i: int| 0 <= i < bytes.len() implies back[i] == bytes[i] by {
        let b = bytes[i];
        assert((2 * i) / 2 == i && (2 * i + 1) / 2 == i);
        assert((2 * i) % 2 == 0 && (2 * i + 1) % 2 == 1);
        assert(hex_value(text[2 * i]) == Some(b as int / 16));
        assert(hex_value(text[2 * i + 1]) == Some(b as int % 16));
    }
    assert(back =~= bytes);
}

fn hex_digit_of(nibble: u8) -> (digit: u8)
    requires
        nibble < 16,
    ensures
        digit == hex_digit(nibble as int),
{
    if nibble < 10 {
        48 + nibble
    } else {
        87 + nibble
    }
}

fn hex_value_of(digit: u8) -> (value: Option<u8>)
    ensures
        match value {
            Some(v) => hex_value(digit) == Some(v as int) && v < 16,
            None => hex_value(digit) is None,
        },
{
    if 48 <= digit && digit <= 57 {
        Some(digit - 48)
    } else if 97 <= digit && digit <= 102 {
        Some(digit - 87)
    } else {
        None
    }
}

/// Appends the lowercase hexadecimal text of `bytes` to `buf`.
pub fn push_hex(buf: &mut Vec<u8>, bytes: &[u8])
    ensures
        final(buf)@ == old(buf)@ + hex_encoding(bytes@),
{
    let mut i: usize = 0;
    while i < bytes.len()
        invariant
            i <= bytes.len(),
            buf@.len() == old(buf)@.len() + 2 * i,
            forall|j: int| 0 <= j < old(buf)@.len() ==> buf@[j] == old(buf)@[j],
            forall|j: int|
                0 <= j < 2 * i ==> buf@[old(buf)@.len() + j] == #[trigger] hex_encoding(bytes@)[j],
        decreases bytes.len() - i,
    {
        let b = bytes[i];
        let ghost before = buf@;
        buf.push(hex_digit_of(b / 16));
        buf.push(hex_digit_of(b % 16));
        proof {
            assert((2 * i) / 2 == i && (2 * i + 1) / 2 == i);
            assert((2 * i) % 2 == 0 && (2 * i + 1) % 2 == 1);
            assert forall|j: int| 0 <= j < 2 * (i + 1) implies buf@[old(buf)@.len() + j]
                == #[trigger] hex_encoding(bytes@)[j] by {
                if j < 2 * i {
                    assert(buf@[old(buf)@.len() + j] == before[old(buf)@.len() + j]);
                }
            }
        }
        i += 1;
    }
    assert(buf@ =~= old(buf)@ + hex_encoding(bytes@));
}

/// Reads a text of lowercase hexadecimal digits.
pub fn hex_decode(text: &[u8]) -> (r: Option<Vec<u8>>)
    ensures
        match r {
            Some(bytes) => hex_decoding(text@) == Some(bytes@),
            None => hex_decoding(text@) is None,
        },
{
    if text.len() % 2 != 0 {
        return None;
    }
    let mut bytes: Vec<u8> = Vec::new();
    let mut i: usize = 0;
    while i < text.len() / 2
        invariant
            text@.len() % 2 == 0,
            i <= text@.len() / 2,
            bytes@.len() == i,
            forall|j: int| 0 <= j < 2 * i ==> hex_value(#[trigger] text@[j]) is Some,
            forall|j: int|
                0 <= j < i ==> #[trigger] bytes@[j] == (hex_value(text@[2 * j]).unwrap() * 16
                    + hex_value(text@[2 * j + 1]).unwrap()) as u8,
        decreases text@.len() / 2 - i,
    {
        let high = match hex_value_of(text[2 * i]) {
            Some(v) => v,
            None => {
                return None;
            },
        };
        let low = match hex_value_of(text[2 * i + 1]) {
            Some(v) => v,
            None => {
                return None;
            },
        };
        bytes.push(high * 16 + low);
        proof {
            assert forall|j: int| 0 <= j < 2 * (i + 1) implies hex_value(
                #[trigger] text@[j],
            ) is Some by {
                if j >= 2 * i {
                    assert(j == 2 * i || j == 2 * i + 1);
                }
            }
        }
        i += 1;
    }
    assert(bytes@ =~= hex_decoding(text@).unwrap());
    Some(bytes)
}

/// Every byte of the text is below 128.
pub open spec fn is_ascii_text(text: Seq<u8>) -> bool {
    forall|i: int| 0 <= i < text.len() ==> #[trigger] text[i] < 128
}

/// A text of bytes below 128 is well-formed UTF-8.
pub proof fn lemma_ascii_is_utf8(text: Seq<u8>)
    requires
        is_ascii_text(text),
    ensures
        valid_utf8(text),
    decreases text.len(),
{
    if text.len() > 0 {
        let b = text[0];
        assert(b < 128);
        assert(b & 0x80 == 0) by (bit_vector)
            requires
                b < 128,
        ;
        assert(is_leading_byte_width_1(b));
        assert(length_of_first_scalar(text) == 1);
        let rest = pop_first_scalar(text);
        assert(rest =~= text.skip(1));
        assert(is_ascii_text(rest)) by {
            assert forall|i: int| 0 <= i < rest.len() implies #[trigger] rest[i] < 128 by {
                assert(rest[i] == text[i + 1]);
            }
        }
        lemma_ascii_is_utf8(rest);
    }
}

/// The position of the first `mark` in `text`, or the length of `text` where
/// there is none.
pub open spec fn first_index(text: Seq<u8>, mark: u8) -> int
    decreases text.len(),
{
    if text.len() == 0 {
        0
    } else if text[0] == mark {
        0
    } else {
        1 + first_index(text.skip(1), mark)
    }
}

/// The first `mark` is where `first_index` says, and nowhere before.
pub proof fn lemma_first_index(text: Seq<u8>, mark: u8)
    ensures
        0 <= first_index(text, mark) <= text.len(),
        first_index(text, mark) < text.len() ==> text[first_index(text, mark)] == mark,
        forall|i: int| 0 <= i < first_index(text, mark) ==> text[i] != mark,
    decreases text.len(),
{
    if text.len() > 0 && text[0] != mark {
        let rest = text.skip(1);
        lemma_first_index(rest, mark);
        assert forall|i: int| 0 <= i < first_index(text, mark) implies text[i] != mark by {
            if i > 0 {
                assert(text[i] == rest[i - 1]);
            }
        }
    }
}

/// A position that holds `mark`, with none before it, is the first.
pub proof fn lemma_first_index_is(text: Seq<u8>, mark: u8, at: int)
    requires
        0 <= at <= text.len(),
        at < text.len() ==> text[at] == mark,
        forall|i: int| 0 <= i < at ==> text[i] != mark,
    ensures
        first_index(text, mark) == at,
{
    lemma_first_index(text, mark);
    let found = first_index(text, mark);
    if found < at {
        assert(text[found] == mark);
    }
}

/// Finds the first `mark` in `text`.
pub fn find_byte(text: &[u8], mark: u8) -> (at: usize)
    ensures
        at == first_index(text@, mark),
        at <= text@.len(),
{
    let mut i: usize = 0;
    while i < text.len() && text[i] != mark
        invariant
            i <= text@.len(),
            forall|j: int| 0 <= j < i ==> text@[j] != mark,
        decreases text@.len() - i,
    {
        i += 1;
    }
    proof {
        lemma_first_index_is(text@, mark, i as int);
    }
    i
}

/// The text before the first `mark` and the text behind it; `None` where the
/// text holds no `mark`.
pub open spec fn split_text(text: Seq<u8>, mark: u8) -> Option<(Seq<u8>, Seq<u8>)> {
    let at = first_index(text, mark);
    if at < text.len() {
        Some((text.take(at), text.skip(at + 1)))
    } else {
        None
    }
}

/// Two texts joined by `mark`.
pub open spec fn join_text(head: Seq<u8>, mark: u8, tail: Seq<u8>) -> Seq<u8> {
    head + seq![mark] + tail
}

/// Splitting gives back what was joined, where the head holds no `mark`.
pub proof fn lemma_split_join(head: Seq<u8>, mark: u8, tail: Seq<u8>)
    requires
        forall|i: int| 0 <= i < head.len() ==> head[i] != mark,
    ensures
        split_text(join_text(head, mark, tail), mark) == Some((head, tail)),
{
    let text = join_text(head, mark, tail);
    lemma_first_index_is(text, mark, head.len() as int);
    assert(text.take(head.len() as int) =~= head);
    assert(text.skip(head.len() as int + 1) =~= tail);
}

/// Splits `text` at its first `mark`.
pub fn split_at_byte<'a>(text: &'a [u8], mark: u8) -> (r: Option<(&'a [u8], &'a [u8])>)
    ensures
        match r {
            Some((head, tail)) => split_text(text@, mark) == Some((head@, tail@)),
            None => split_text(text@, mark) is None,
        },
{
    let at = find_byte(text, mark);
    if at < text.len() {
        let head = slice_subrange(text, 0, at);
        let tail = slice_subrange(text, at + 1, text.len());
        Some((head, tail))
    } else {
        None
    }
}

/// Whether two texts hold the same bytes.
pub fn same_bytes(a: &[u8], b: &[u8]) -> (same: bool)
    ensures
        same == (a@ == b@),
{
    if a.len() != b.len() {
        return false;
    }
    let mut i: usize = 0;
    while i < a.len()
        invariant
            a@.len() == b@.len(),
            i <= a@.len(),
            forall|j: int| 0 <= j < i ==> a@[j] == b@[j],
        decreases a@.len() - i,
    {
        if a[i] != b[i] {
            return false;
        }
        i += 1;
    }
    assert(a@ =~= b@);
    true
}

/// The decimal digits of `n`, the highest first, without leading zeros.
pub open spec fn decimal_encoding(n: nat) -> Seq<u8>
    decreases n,
{
    if n < 10 {
        seq![(48 + n) as u8]
    } else {
        decimal_encoding(n / 10).push((48 + n % 10) as u8)
    }
}

/// Whether a character is a decimal digit.
pub open spec fn is_digit(c: u8) -> bool {
    48 <= c <= 57
}

/// Every character of the text is a decimal digit.
pub open spec fn all_digits(text: Seq<u8>) -> bool {
    forall|i: int| 0 <= i < text.len() ==> is_digit(#[trigger] text[i])
}

/// The number that a text of decimal digits reads as.
pub open spec fn decimal_value(text: Seq<u8>) -> nat
    decreases text.len(),
{
    if text.len() == 0 {
        0
    } else {
        decimal_value(text.drop_last()) * 10 + (text.last() - 48) as nat
    }
}

/// The number that a decimal text stands for; `None` where the text is empty,
/// holds a character that is no digit, starts with a zero that is not the
/// whole text, or reads as more than 64 bits hold.
pub open spec fn decimal_decoding(text: Seq<u8>) -> Option<u64> {
    if text.len() >= 1 && all_digits(text) && (text.len() == 1 || text[0] != 48) && decimal_value(
        text,
    ) <= u64::MAX {
        Some(decimal_value(text) as u64)
    } else {
        None
    }
}

/// What the decimal text of a number looks like and reads as.
pub proof fn lemma_decimal_encoding(n: nat)
    ensures
        decimal_encoding(n).len() >= 1,
        all_digits(decimal_encoding(n)),
        decimal_value(decimal_encoding(n)) == n,
        decimal_encoding(n)[0] == 48 ==> n == 0,
        n == 0 ==> decimal_encoding(n).len() == 1,
    decreases n,
{
    let text = decimal_encoding(n);
    if n < 10 {
        assert(text.drop_last() =~= Seq::<u8>::empty());
        assert(decimal_value(text.drop_last()) == 0);
    } else {
        let head = decimal_encoding(n / 10);
        lemma_decimal_encoding(n / 10);
        assert(text.drop_last() =~= head);
        assert(text[0] == head[0]);
        assert forall|i: int| 0 <= i < text.len() implies is_digit(#[trigger] text[i]) by {
            if i < head.len() {
                assert(text[i] == head[i]);
            }
        }
    }
}

/// Ten to the power of `digits`.
pub open spec fn power_of_ten(digits: nat) -> nat
    decreases digits,
{
    if digits == 0 {
        1
    } else {
        10 * power_of_ten((digits - 1) as nat)
    }
}

/// A number below ten to the power of `digits` has no more than `digits`
/// decimal digits.
pub proof fn lemma_decimal_encoding_len(n: nat, digits: nat)
    requires
        digits >= 1,
        n < power_of_ten(digits),
    ensures
        decimal_encoding(n).len() <= digits,
    decreases n,
{
    if n >= 10 {
        if digits == 1 {
            assert(power_of_ten(1) == 10) by {
                reveal_with_fuel(power_of_ten, 2);
            }
        } else {
            lemma_decimal_encoding_len(n / 10, (digits - 1) as nat);
        }
    }
}

/// The decimal text of a number of 64 bits has no more than twenty digits.
pub proof fn lemma_decimal_encoding_len_u64(n: u64)
    ensures
        decimal_encoding(n as nat).len() <= 20,
{
    assert(power_of_ten(20) == 100_000_000_000_000_000_000) by {
        reveal_with_fuel(power_of_ten, 21);
    }
    lemma_decimal_encoding_len(n as nat, 20);
}

/// A text of digits reads as no less than any of its prefixes.
pub proof fn lemma_decimal_value_prefix(text: Seq<u8>, len: int)
    requires
        all_digits(text),
        0 <= len <= text.len(),
    ensures
        decimal_value(text.take(len)) <= decimal_value(text),
    decreases text.len(),
{
    if len < text.len() {
        let head = text.drop_last();
        assert(all_digits(head));
        lemma_decimal_value_prefix(head, len);
        assert(head.take(len) =~= text.take(len));
        assert(is_digit(text.last()));
    } else {
        assert(text.take(len) =~= text);
    }
}

/// Appends the decimal text of `n` to `buf`.
pub fn push_decimal(buf: &mut Vec<u8>, n: u64)
    ensures
        final(buf)@ == old(buf)@ + decimal_encoding(n as nat),
    decreases n,
{
    if n >= 10 {
        push_decimal(buf, n / 10);
    }
    let ghost before = buf@;
    buf.push(48 + (n % 10) as u8);
    proof {
        if n >= 10 {
            assert(buf@ =~= old(buf)@ + decimal_encoding(n as nat));
        } else {
            assert(buf@ =~= old(buf)@ + decimal_encoding(n as nat));
        }
    }
}

/// Reads a decimal text.
pub fn decimal_decode(text: &[u8]) -> (r: Option<u64>)
    ensures
        r == decimal_decoding(text@),
{
    if text.len() == 0 {
        return None;
    }
    if text.len() > 1 && text[0] == 48 {
        return None;
    }
    let mut value: u64 = 0;
    let mut i: usize = 0;
    while i < text.len()
        invariant
            i <= text@.len(),
            all_digits(text@.take(i as int)),
            value == decimal_value(text@.take(i as int)),
        decreases text@.len() - i,
    {
        let c = text[i];
        if c < 48 || c > 57 {
            assert(!is_digit(text@[i as int]));
            return None;
        }
        proof {
            let next = text@.take(i + 1);
            assert(next.drop_last() =~= text@.take(i as int));
            assert(next.last() == c);
            assert forall|j: int| 0 <= j < next.len() implies is_digit(#[trigger] next[j]) by {
                if j < i {
                    assert(next[j] == text@.take(i as int)[j]);
                }
            }
            if all_digits(text@) {
                lemma_decimal_value_prefix(text@, i + 1);
            }
        }
        let tens = match value.checked_mul(10) {
            Some(v) => v,
            None => {
                return None;
            },
        };
        value = match tens.checked_add((c - 48) as u64) {
            Some(v) => v,
            None => {
                return None;
            },
        };
        i += 1;
    }
    assert(text@.take(i as int) =~= text@);
    Some(value)
}

/// The text form that the tagged values share: a name, a colon, and the
/// value's bytes in lowercase hexadecimal.
pub open spec fn tagged_hex(name: Seq<u8>, bytes: Seq<u8>) -> Seq<u8> {
    join_text(name, 58, hex_encoding(bytes))
}

/// Whether a name can stand before the colon: it holds none itself, and only
/// bytes below 128.
pub open spec fn is_name(name: Seq<u8>) -> bool {
    forall|i: int| 0 <= i < name.len() ==> #[trigger] name[i] != 58 && name[i] < 128
}

/// A tagged text splits into its name and its hexadecimal part, reads back as
/// the bytes it was made of, and is well-formed UTF-8.
pub proof fn lemma_tagged_hex(name: Seq<u8>, bytes: Seq<u8>)
    requires
        is_name(name),
    ensures
        split_text(tagged_hex(name, bytes), 58) == Some((name, hex_encoding(bytes))),
        hex_decoding(hex_encoding(bytes)) == Some(bytes),
        is_ascii_text(tagged_hex(name, bytes)),
        valid_utf8(tagged_hex(name, bytes)),
        tagged_hex(name, bytes).len() == name.len() + 1 + 2 * bytes.len(),
{
    lemma_split_join(name, 58, hex_encoding(bytes));
    lemma_hex_roundtrip(bytes);
    let text = tagged_hex(name, bytes);
    assert forall|i: int| 0 <= i < text.len() implies #[trigger] text[i] < 128 by {
        if i < name.len() {
            assert(text[i] == name[i]);
        } else if i > name.len() {
            assert(text[i] == hex_encoding(bytes)[i - name.len() - 1]);
        }
    }
    lemma_ascii_is_utf8(text);
}

/// Appends the tagged text of `bytes` under `name` to `buf`.
pub fn push_tagged_hex(buf: &mut Vec<u8>, name: &[u8], bytes: &[u8])
    ensures
        final(buf)@ == old(buf)@ + tagged_hex(name@, bytes@),
{
    buf.extend_from_slice(name);
    assert(buf@ =~= old(buf)@ + name@);
    buf.push(58);
    push_hex(buf, bytes);
    assert(buf@ =~= old(buf)@ + tagged_hex(name@, bytes@));
}

} // verus!
