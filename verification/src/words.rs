//! The integers of the graph file: 32 bits each, signed, the low byte first.
use byteorder::{ByteOrder, LittleEndian};
use vstd::prelude::*;

verus! {

/// The 32 bits of `value`, read without a sign.
pub open spec fn bits(value: i32) -> int {
    if value < 0 {
        value + 0x1_0000_0000
    } else {
        value as int
    }
}

/// The four bytes that hold `value`.
pub open spec fn word(value: i32) -> Seq<u8> {
    seq![
        (bits(value) % 0x100) as u8,
        (bits(value) / 0x100 % 0x100) as u8,
        (bits(value) / 0x1_0000 % 0x100) as u8,
        (bits(value) / 0x100_0000) as u8,
    ]
}

/// The bytes that hold several integers, one after the other.
pub open spec fn words(values: Seq<i32>) -> Seq<u8>
    decreases values.len(),
{
    if values.len() == 0 {
        seq![]
    } else {
        words(values.drop_last()) + word(values.last())
    }
}

/// The integer that stands in `bytes` from position `at` on.
pub open spec fn word_at(bytes: Seq<u8>, at: int) -> int {
    let low = bytes[at] + 0x100 * bytes[at + 1] + 0x1_0000 * bytes[at + 2];
    if bytes[at + 3] < 0x80 {
        low + 0x100_0000 * bytes[at + 3]
    } else {
        low + 0x100_0000 * bytes[at + 3] - 0x1_0000_0000
    }
}

/// `byteorder::ByteOrder::write_i32` of `LittleEndian` puts the four bytes of the integer, in
/// two's complement with the low byte first, at the start of the buffer. A buffer of four bytes
/// is what it needs, and it leaves nothing of it as it was.
#[verifier::external_body]
fn word_bytes(value: i32) -> (bytes: [u8; 4])
    ensures
        bytes@ == word(value),
{
    let mut bytes = [0u8; 4];
    LittleEndian::write_i32(&mut bytes, value);
    bytes
}

/// Appends an integer to a file's bytes.
pub fn write_i32(file: &mut Vec<u8>, value: i32)
    ensures
        final(file)@ == old(file)@ + word(value),
{
    let bytes = word_bytes(value);
    file.push(bytes[0]);
    file.push(bytes[1]);
    file.push(bytes[2]);
    file.push(bytes[3]);
}

/// Four bytes for each integer.
pub proof fn lemma_words_len(values: Seq<i32>)
    ensures
        words(values).len() == 4 * values.len(),
    decreases values.len(),
{
    if values.len() != 0 {
        lemma_words_len(values.drop_last());
    }
}

/// The bytes of two lists of integers stand one after the other.
pub proof fn lemma_words_add(left: Seq<i32>, right: Seq<i32>)
    ensures
        words(left + right) == words(left) + words(right),
    decreases right.len(),
{
    if right.len() == 0 {
        assert(left + right =~= left);
        assert(words(left) + words(right) =~= words(left));
    } else {
        assert((left + right).drop_last() =~= left + right.drop_last());
        lemma_words_add(left, right.drop_last());
        assert(words(left) + words(right.drop_last()) + word(right.last()) =~= words(left) + words(
            right,
        ));
    }
}

/// An integer is read back as it was written, wherever in a file it stands.
pub proof fn law_word_round_trip(head: Seq<u8>, value: i32, tail: Seq<u8>)
    ensures
        word_at(head + word(value) + tail, head.len() as int) == value,
{
    let file = head + word(value) + tail;
    let at = head.len() as int;
    assert(file[at] == word(value)[0]);
    assert(file[at + 1] == word(value)[1]);
    assert(file[at + 2] == word(value)[2]);
    assert(file[at + 3] == word(value)[3]);
}

/// Each of several integers is read back from its place among them.
pub proof fn law_words_round_trip(head: Seq<u8>, values: Seq<i32>, tail: Seq<u8>, i: int)
    requires
        0 <= i < values.len(),
    ensures
        word_at(head + words(values) + tail, head.len() + 4 * i) == values[i],
{
    let left = values.take(i);
    let right = values.skip(i + 1);
    assert(values =~= left.push(values[i]) + right);
    lemma_words_add(left.push(values[i]), right);
    assert(left.push(values[i]).drop_last() =~= left);
    lemma_words_len(left);
    let file = head + words(values) + tail;
    assert(file =~= (head + words(left)) + word(values[i]) + (words(right) + tail));
    law_word_round_trip(head + words(left), values[i], words(right) + tail);
}

/// The four bytes of an integer, the low one first, add up to it, less 2^32 where it is negative.
pub proof fn law_low_byte_first(value: i32)
    ensures
        word(value).len() == 4,
        word(value)[0] + 0x100 * word(value)[1] + 0x1_0000 * word(value)[2] + 0x100_0000 * word(
            value,
        )[3] == (if value < 0 {
            value + 0x1_0000_0000
        } else {
            value as int
        }),
{
}

/// An integer is read from four bytes, the low one first, as one with a sign.
pub proof fn law_word_is_read(bytes: Seq<u8>, at: int)
    requires
        0 <= at,
        at + 4 <= bytes.len(),
    ensures
        i32::MIN <= word_at(bytes, at) <= i32::MAX,
        (word_at(bytes, at) - (bytes[at] + 0x100 * bytes[at + 1] + 0x1_0000 * bytes[at + 2]
            + 0x100_0000 * bytes[at + 3])) % 0x1_0000_0000 == 0,
{
}

/// The bytes of a list of integers begin with those of the first: nothing stands between them.
pub proof fn law_words_in_order(value: i32, rest: Seq<i32>)
    ensures
        words(seq![]) == Seq::<u8>::empty(),
        words(seq![value] + rest) == word(value) + words(rest),
{
    reveal_with_fuel(words, 2);
    lemma_words_add(seq![value], rest);
    assert(seq![value].drop_last() =~= Seq::<i32>::empty());
    assert(words(seq![value]) =~= word(value));
}

} // verus!
