//! Identifiers of stored things: twelve bytes, written as 24 hexadecimal digits.

use mongodb::bson::oid::ObjectId as StoredId;
use vstd::arithmetic::power::pow;
use vstd::prelude::*;

verus! {

/// An identifier: its first eight bytes and its last four, each read with the
/// most significant byte first.
#[derive(Clone, Copy, PartialEq, Eq, Structural, Debug, Hash)]
pub struct ObjectId {
    pub high: u64,
    pub low: u32,
}

/// The values of four bytes.
pub const LOW_VALUES: u64 = 0x1_0000_0000;

impl View for ObjectId {
    type V = int;

    /// The twelve bytes as one number.
    open spec fn view(&self) -> int {
        self.high * LOW_VALUES + self.low
    }
}

/// Two identifiers that stand for the same number are the same.
pub proof fn same_number_same_id(a: ObjectId, b: ObjectId)
    requires
        a@ == b@,
    ensures
        a == b,
{
}

/// The digits in the written form of an identifier.
pub const HEX_LEN: usize = 24;

/// Whether `c` is a hexadecimal digit, in either case.
pub open spec fn is_hex_digit(c: char) -> bool {
    '0' <= c <= '9' || 'a' <= c <= 'f' || 'A' <= c <= 'F'
}

/// The value of a hexadecimal digit.
pub open spec fn digit_value(c: char) -> int {
    if '0' <= c <= '9' {
        c as int - '0' as int
    } else if 'a' <= c <= 'f' {
        c as int - 'a' as int + 10
    } else {
        c as int - 'A' as int + 10
    }
}

/// The number that hexadecimal digits stand for, the first one the most
/// significant.
pub open spec fn hex_value(digits: Seq<char>) -> int
    decreases digits.len(),
{
    if digits.len() == 0 {
        0
    } else {
        16 * hex_value(digits.drop_last()) + digit_value(digits.last())
    }
}

/// Whether `text` is the written form of an identifier.
pub open spec fn is_written_id(text: Seq<char>) -> bool {
    text.len() == HEX_LEN && forall|i: int| 0 <= i < text.len() ==> is_hex_digit(#[trigger] text[i])
}

/// The lower case hexadecimal digit of a value below sixteen.
pub open spec fn digit_char(value: int) -> char {
    if value < 10 {
        ('0' as int + value) as char
    } else {
        ('a' as int + value - 10) as char
    }
}

/// The last `n` hexadecimal digits of `value`.
pub open spec fn hex_digits(n: nat, value: int) -> Seq<char>
    decreases n,
{
    if n == 0 {
        Seq::empty()
    } else {
        hex_digits((n - 1) as nat, value / 16).push(digit_char(value % 16))
    }
}

/// How `id` is written: its 24 hexadecimal digits, in lower case.
pub open spec fn hex_of(id: ObjectId) -> Seq<char> {
    hex_digits(HEX_LEN as nat, id@)
}

/// Calls `ObjectId::parse_str` of the `bson` crate that `mongodb` carries. A
/// text is accepted exactly when it has 24 characters and each is a hexadecimal
/// digit; the identifier then is the number that the digits stand for.
#[verifier::external_body]
fn stored_id_parse(text: &str) -> (r: Option<ObjectId>)
    ensures
        r is Some <==> is_written_id(text@),
        r matches Some(id) ==> id@ == hex_value(text@),
{
    let b: [u8; 12] = StoredId::parse_str(text).ok()?.bytes();
    Some(ObjectId {
        high: u64::from_be_bytes([b[0], b[1], b[2], b[3], b[4], b[5], b[6], b[7]]),
        low: u32::from_be_bytes([b[8], b[9], b[10], b[11]]),
    })
}

/// Calls `ObjectId::to_hex` of the `bson` crate that `mongodb` carries: the
/// twelve bytes as 24 lower case hexadecimal digits.
#[verifier::external_body]
fn stored_id_hex(id: &ObjectId) -> (r: String)
    ensures
        r@ == hex_of(*id),
{
    let h: [u8; 8] = id.high.to_be_bytes();
    let l: [u8; 4] = id.low.to_be_bytes();
    StoredId::from_bytes(
        [h[0], h[1], h[2], h[3], h[4], h[5], h[6], h[7], l[0], l[1], l[2], l[3]],
    ).to_hex()
}

proof fn lemma_digits_read_back(n: nat, value: int)
    requires
        0 <= value < pow(16, n),
    ensures
        hex_digits(n, value).len() == n,
        forall|i: int| 0 <= i < n ==> is_hex_digit(#[trigger] hex_digits(n, value)[i]),
        hex_value(hex_digits(n, value)) == value,
    decreases n,
{
    reveal(pow);
    if n > 0 {
        let rest = hex_digits((n - 1) as nat, value / 16);
        assert(value / 16 < pow(16, (n - 1) as nat)) by {
            assert(pow(16, n) == 16 * pow(16, (n - 1) as nat));
        }
        lemma_digits_read_back((n - 1) as nat, value / 16);
        let digits = hex_digits(n, value);
        assert(digits.drop_last() == rest);
        assert(digits.last() == digit_char(value % 16));
        assert forall|i: int| 0 <= i < n implies is_hex_digit(#[trigger] digits[i]) by {
            if i < n - 1 {
                assert(digits[i] == rest[i]);
            }
        }
    }
}

/// Reading the written form of an identifier gives the identifier back, and no
/// other identifier is written in that form.
pub proof fn written_id_reads_back(id: ObjectId, other: ObjectId)
    ensures
        is_written_id(hex_of(id)),
        hex_value(hex_of(id)) == id@,
        hex_of(id) == hex_of(other) ==> id == other,
{
    assert(pow(16, 24) == 0x1_0000_0000_0000_0000_0000_0000) by {
        reveal_with_fuel(pow, 25);
    }
    lemma_digits_read_back(24, id@);
    lemma_digits_read_back(24, other@);
    if hex_of(id) == hex_of(other) {
        same_number_same_id(id, other);
    }
}

impl ObjectId {
    /// Reads the written form of an identifier.
    pub fn from_str(text: &str) -> (r: Option<ObjectId>)
        ensures
            r is Some <==> is_written_id(text@),
            r matches Some(id) ==> id@ == hex_value(text@),
    {
        stored_id_parse(text)
    }

    /// The written form of this identifier.
    pub fn to_hex(&self) -> (r: String)
        ensures
            r@ == hex_of(*self),
    {
        stored_id_hex(self)
    }
}

/// An identifier is written in 24 digits, none of them a capital; capitals are read as
/// well.
pub proof fn identifiers_are_written_in_small_letters(id: ObjectId, text: Seq<char>)
    ensures
        hex_of(id).len() == 24,
        forall|i: int|
            0 <= i < 24 ==> '0' <= #[trigger] hex_of(id)[i] <= '9' || 'a' <= hex_of(id)[i] <= 'f',
        is_written_id(text) <==> text.len() == 24 && forall|i: int|
            0 <= i < 24 ==> '0' <= #[trigger] text[i] <= '9' || 'a' <= text[i] <= 'f' || 'A'
                <= text[i] <= 'F',
{
    lemma_small_letters(24, id@);
}

proof fn lemma_small_letters(n: nat, value: int)
    ensures
        hex_digits(n, value).len() == n,
        forall|i: int|
            0 <= i < n ==> '0' <= #[trigger] hex_digits(n, value)[i] <= '9' || 'a' <= hex_digits(
                n,
                value,
            )[i] <= 'f',
    decreases n,
{
    if n > 0 {
        lemma_small_letters((n - 1) as nat, value / 16);
        let rest = hex_digits((n - 1) as nat, value / 16);
        assert forall|i: int| 0 <= i < n implies '0' <= #[trigger] hex_digits(n, value)[i] <= '9'
            || 'a' <= hex_digits(n, value)[i] <= 'f' by {
            if i < n - 1 {
                assert(hex_digits(n, value)[i] == rest[i]);
            }
        }
    }
}

} // verus!
