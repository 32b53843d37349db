//! Text forms of event and stream identifiers (UUIDs), through the `uuid` crate.

use vstd::arithmetic::div_mod::{lemma_basic_div, lemma_div_denominator, lemma_fundamental_div_mod};
use vstd::arithmetic::power::{lemma_pow1, lemma_pow_adds, lemma_pow_positive, pow};
use vstd::prelude::*;

verus! {

/// The lowercase hexadecimal digit for `d` (0 to 15).
pub open spec fn hex_char(d: nat) -> char {
    if d < 10 {
        (d + 48) as char
    } else {
        (d + 87) as char
    }
}

/// Hex digit `k` (0 = most significant) of the 128-bit value `id`.
pub open spec fn nibble(id: u128, k: int) -> nat {
    ((id as int / pow(16, (31 - k) as nat)) % 16) as nat
}

/// Number of hyphens before character `i` of the hyphenated form.
pub open spec fn hyphens_before(i: int) -> int {
    if i < 8 {
        0
    } else if i < 13 {
        1
    } else if i < 18 {
        2
    } else if i < 23 {
        3
    } else {
        4
    }
}

/// The hyphenated lowercase form of a UUID, as in
/// `67e55044-10b1-426f-9247-bb680e5fe0c8`: the 32 hex digits of its value,
/// most significant first, in groups of 8, 4, 4, 4 and 12.
pub open spec fn uuid_hyphenated(id: u128) -> Seq<char> {
    Seq::new(
        36,
        |i: int|
            if i == 8 || i == 13 || i == 18 || i == 23 {
                '-'
            } else {
                hex_char(nibble(id, i - hyphens_before(i)))
            },
    )
}

/// The value of the first `k` hexadecimal digits of `id`.
pub open spec fn digits_value(id: u128, k: nat) -> int {
    id as int / pow(16, (32 - k) as nat)
}

/// One more digit: the value so far times sixteen plus the digit.
proof fn lemma_digits_step(id: u128, k: nat)
    requires
        k < 32,
    ensures
        digits_value(id, k + 1) == digits_value(id, k) * 16 + nibble(id, k as int),
{
    let e = (31 - k) as nat;
    let x = id as int;
    let b = pow(16, e);
    lemma_pow_adds(16, e, 1);
    lemma_pow1(16);
    lemma_pow_positive(16, e);
    assert((32 - k) as nat == e + 1);
    assert(pow(16, (32 - k) as nat) == b * 16);
    lemma_div_denominator(x, b, 16);
    lemma_fundamental_div_mod(x / b, 16);
    assert(digits_value(id, k + 1) == x / b);
}

/// No digits have value 0; all 32 digits have the value of the id.
proof fn lemma_digits_ends(id: u128)
    ensures
        digits_value(id, 0) == 0,
        digits_value(id, 32) == id,
{
    reveal_with_fuel(pow, 33);
    assert(pow(16, 0) == 1);
    assert(pow(16, 32) == 0x1_0000_0000_0000_0000_0000_0000_0000_0000);
    assert((32 - 0nat) as nat == 32);
    lemma_basic_div(id as int, pow(16, 32));
}

/// Ids that agree on their first `k` digits agree on the value of them.
proof fn lemma_digits_agree(a: u128, b: u128, k: nat)
    requires
        k <= 32,
        forall|j: int| 0 <= j < k ==> nibble(a, j) == nibble(b, j),
    ensures
        digits_value(a, k) == digits_value(b, k),
    decreases k,
{
    if k == 0 {
        lemma_digits_ends(a);
        lemma_digits_ends(b);
    } else {
        let k1 = (k - 1) as nat;
        lemma_digits_agree(a, b, k1);
        lemma_digits_step(a, k1);
        lemma_digits_step(b, k1);
    }
}

/// The place in the hyphenated text of hexadecimal digit `k`.
pub open spec fn digit_place(k: int) -> int {
    if k < 8 {
        k
    } else if k < 12 {
        k + 1
    } else if k < 16 {
        k + 2
    } else if k < 20 {
        k + 3
    } else {
        k + 4
    }
}

/// Different UUIDs have different texts.
pub proof fn lemma_uuid_text_injective(a: u128, b: u128)
    requires
        uuid_hyphenated(a) == uuid_hyphenated(b),
    ensures
        a == b,
{
    assert forall|j: int| 0 <= j < 32 implies nibble(a, j) == nibble(b, j) by {
        let i = digit_place(j);
        assert(uuid_hyphenated(a)[i] == uuid_hyphenated(b)[i]);
        assert(i != 8 && i != 13 && i != 18 && i != 23);
        assert(i - hyphens_before(i) == j);
        assert(uuid_hyphenated(a)[i] == hex_char(nibble(a, i - hyphens_before(i))));
        assert(uuid_hyphenated(b)[i] == hex_char(nibble(b, i - hyphens_before(i))));
        let da = nibble(a, j);
        let db = nibble(b, j);
        assert(da < 16 && db < 16);
        assert(hex_char(da) == hex_char(db));
        assert((hex_char(da) as int) == if da < 10 { da + 48 } else { da + 87 });
        assert((hex_char(db) as int) == if db < 10 { db + 48 } else { db + 87 });
    }
    lemma_digits_agree(a, b, 32);
    lemma_digits_ends(a);
    lemma_digits_ends(b);
}

/// The UUID that `uuid::Uuid::parse_str` reads from `text`, if it reads one.
pub uninterp spec fn uuid_parse(text: Seq<char>) -> Option<u128>;

/// The text of the error that `uuid::Uuid::parse_str` reports for `text`.
pub uninterp spec fn uuid_parse_error(text: Seq<char>) -> Seq<char>;

/// Calls `uuid::Uuid::from_u128(id).to_string()`: the hyphenated lowercase form.
#[verifier::external_body]
pub(crate) fn uuid_to_string(id: u128) -> (s: String)
    ensures
        s@ == uuid_hyphenated(id),
{
    uuid::Uuid::from_u128(id).to_string()
}

/// Calls `uuid::Uuid::parse_str`: the value of the UUID read, or the text of
/// the parse error. The contract claims only that both are functions of the
/// text, named `uuid_parse` and `uuid_parse_error`.
#[verifier::external_body]
pub(crate) fn uuid_from_str(text: &str) -> (r: Result<u128, String>)
    ensures
        match r {
            Ok(v) => uuid_parse(text@) == Some(v),
            Err(m) => uuid_parse(text@) is None && m@ == uuid_parse_error(text@),
        },
{
    match uuid::Uuid::parse_str(text) {
        Ok(u) => Ok(u.as_u128()),
        Err(e) => Err(e.to_string()),
    }
}

} // verus!
