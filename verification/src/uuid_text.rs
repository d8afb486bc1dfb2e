use vstd::prelude::*;

verus! {

/// The lower-case hexadecimal digit of `n` (0 to 15).
pub open spec fn hex_digit(n: int) -> char {
    if n < 10 {
        (48 + n) as char
    } else {
        (87 + n) as char
    }
}

/// The `k`-th hexadecimal digit of `value`, most significant first (`k` from 0 to 31).
pub open spec fn uuid_nibble(value: u128, k: int) -> int {
    ((value >> ((124 - 4 * k) as u128)) & 15) as int
}

/// The positions of the hyphens in the hyphenated form of an identifier.
pub open spec fn is_hyphen_position(i: int) -> bool {
    i == 8 || i == 13 || i == 18 || i == 23
}

/// Which hexadecimal digit stands at position `i` of the hyphenated form.
pub open spec fn digit_position(i: int) -> int {
    if i < 8 {
        i
    } else if i < 13 {
        i - 1
    } else if i < 18 {
        i - 2
    } else if i < 23 {
        i - 3
    } else {
        i - 4
    }
}

/// The hyphenated lower-case text of the identifier whose 128 bits are `value`
/// (most significant byte first), such as `67e55044-10b1-426f-9247-bb680e5fe0c8`.
pub open spec fn uuid_hyphenated(value: u128) -> Seq<char> {
    Seq::new(
        36,
        |i: int|
            if is_hyphen_position(i) {
                '-'
            } else {
                hex_digit(uuid_nibble(value, digit_position(i)))
            },
    )
}

/// Text of an identifier, through `uuid::Uuid::from_u128` and its `Display`
/// implementation (`to_string`). The claim: the text is the hyphenated lower-case
/// hexadecimal form of the 128 bits, most significant digit first, with hyphens after the
/// 8th, 12th, 16th and 20th digits.
#[verifier::external_body]
pub(crate) fn uuid_text(value: u128) -> (text: String)
    ensures
        text@ == uuid_hyphenated(value),
{
    uuid::Uuid::from_u128(value).to_string()
}


/// Where the `k`-th hexadecimal digit stands in the hyphenated form.
pub open spec fn text_position(k: int) -> int {
    if k < 8 {
        k
    } else if k < 12 {
        k + 1
    } else if k < 16 {
        k + 2
    } else if k < 20 {
        k + 3
    } else {
        k + 4
    }
}

proof fn lemma_nibble_from_text(a: u128, b: u128, k: int)
    requires
        uuid_hyphenated(a) == uuid_hyphenated(b),
        0 <= k < 32,
    ensures
        uuid_nibble(a, k) == uuid_nibble(b, k),
{
    let p = text_position(k);
    assert(!is_hyphen_position(p) && digit_position(p) == k);
    assert(uuid_hyphenated(a)[p] == uuid_hyphenated(b)[p]);
    let x = uuid_nibble(a, k);
    let y = uuid_nibble(b, k);
    lemma_low_nibble_bound(a >> ((124 - 4 * k) as u128));
    lemma_low_nibble_bound(b >> ((124 - 4 * k) as u128));
    assert(uuid_hyphenated(a)[p] == hex_digit(x));
    assert(uuid_hyphenated(b)[p] == hex_digit(y));
}

proof fn lemma_low_nibble_bound(v: u128)
    by (bit_vector)
    ensures
        v & 15 <= 15,
{
}

proof fn lemma_high_bits_equal(a: u128, b: u128, k: int)
    requires
        uuid_hyphenated(a) == uuid_hyphenated(b),
        0 <= k < 32,
    ensures
        a >> ((124 - 4 * k) as u128) == b >> ((124 - 4 * k) as u128),
    decreases k,
{
    lemma_nibble_from_text(a, b, k);
    let s = (124 - 4 * k) as u128;
    if k == 0 {
        assert(a >> 124u128 == (a >> 124u128) & 15) by (bit_vector);
        assert(b >> 124u128 == (b >> 124u128) & 15) by (bit_vector);
    } else {
        lemma_high_bits_equal(a, b, k - 1);
        assert((s + 4) as u128 == (124 - 4 * (k - 1)) as u128);
        lemma_shift_step(a, b, s);
    }
}

proof fn lemma_shift_step(a: u128, b: u128, s: u128)
    by (bit_vector)
    requires
        s <= 120,
        (a >> s) & 15 == (b >> s) & 15,
        a >> (s + 4) == b >> (s + 4),
    ensures
        a >> s == b >> s,
{
}

/// Distinct identifiers have distinct texts.
pub proof fn lemma_uuid_text_injective(a: u128, b: u128)
    requires
        uuid_hyphenated(a) == uuid_hyphenated(b),
    ensures
        a == b,
{
    lemma_high_bits_equal(a, b, 31);
    assert(a >> 0u128 == a) by (bit_vector);
    assert(b >> 0u128 == b) by (bit_vector);
}

} // verus!
