//! Building identities as text.
//!
//! An identity is the 128-bit value of a UUID. Its text is the usual one of
//! 36 characters: 32 lower-case hexadecimal digits, most significant first,
//! in groups of 8, 4, 4, 4 and 12 with a hyphen between groups.

use vstd::prelude::*;
use vstd::arithmetic::div_mod::lemma_div_denominator;

verus! {

/// The error of the `uuid` crate's parser.
#[verifier::external_type_specification]
#[verifier::external_body]
pub struct ExUuidError(uuid::Error);

/// What `uuid::Uuid::parse_str` reads out of a text: the 128-bit value of
/// the UUID, or nothing where it refuses the text. It reads several forms;
/// the one thing said of it here is that it reads back the text that the
/// crate itself writes for a value (see [`identity_text`]).
pub uninterp spec fn parsed_identity(text: Seq<char>) -> Option<u128>;

/// The digits of base 16, in order.
pub open spec fn hex_digits() -> Seq<char> {
    seq!['0', '1', '2', '3', '4', '5', '6', '7', '8', '9', 'a', 'b', 'c', 'd', 'e', 'f']
}

/// Sixteen to the power of `n`.
pub open spec fn sixteen_to(n: nat) -> int
    decreases n,
{
    if n == 0 {
        1
    } else {
        16 * sixteen_to((n - 1) as nat)
    }
}

/// The `k`-th of the 32 hexadecimal digits of `id`, the most significant
/// being the first (`k == 0`).
pub open spec fn digit_of(id: u128, k: int) -> int
    recommends
        0 <= k < 32,
{
    (id as int / sixteen_to((31 - k) as nat)) % 16
}

/// How many hyphens stand before place `i` of an identity's text.
pub open spec fn hyphens_before(i: int) -> int {
    if i < 8 {
        0
    } else if i < 13 {
        1
    } else if i < 18 {
        2
    } else if i < 23 {
        3
    } else {
        4
    }
}

/// The text of an identity.
pub open spec fn hyphenated(id: u128) -> Seq<char> {
    Seq::new(
        36,
        |i: int|
            if i == 8 || i == 13 || i == 18 || i == 23 {
                '-'
            } else {
                hex_digits()[digit_of(id, i - hyphens_before(i))]
            },
    )
}

/// Calls `uuid::Uuid::parse_str` and takes the value of the UUID with
/// `as_u128`.
///
/// Believed of the crate, not proved: the outcome depends on the text alone,
/// so that it can go by the name [`parsed_identity`].
#[verifier::external_body]
pub(crate) fn parse_identity(text: &str) -> (r: Result<u128, uuid::Error>)
    ensures
        match r {
            Ok(id) => parsed_identity(text@) == Some(id),
            Err(_) => parsed_identity(text@) is None,
        },
{
    match uuid::Uuid::parse_str(text) {
        Ok(parsed) => Ok(parsed.as_u128()),
        Err(e) => Err(e),
    }
}

/// Calls `uuid::Uuid::from_u128` and the `to_string` that the UUID has from
/// its `Display`.
///
/// Believed of the crate, not proved: the text is the hyphenated lower-case
/// one, the digits being those of the value with the most significant first;
/// and the crate's parser reads that text back as the same value.
#[verifier::external_body]
pub(crate) fn identity_text(id: u128) -> (r: String)
    ensures
        r@ == hyphenated(id),
        parsed_identity(r@) == Some(id),
{
    uuid::Uuid::from_u128(id).to_string()
}

/// Every power of sixteen is positive.
proof fn lemma_sixteen_to_positive(n: nat)
    ensures
        sixteen_to(n) > 0,
    decreases n,
{
    if n > 0 {
        lemma_sixteen_to_positive((n - 1) as nat);
    }
}

/// What the first `n` digits of `id` spell: `id` without its last `32 - n`
/// digits.
spec fn leading(id: u128, n: int) -> int {
    id as int / sixteen_to((32 - n) as nat)
}

/// Two identities with the same first `n` digits have the same leading part.
proof fn lemma_leading_agree(a: u128, b: u128, n: int)
    requires
        0 <= n <= 32,
        forall|k: int| 0 <= k < n ==> digit_of(a, k) == digit_of(b, k),
    ensures
        leading(a, n) == leading(b, n),
    decreases n,
{
    if n == 0 {
        assert(sixteen_to(32) == 0x1_0000_0000_0000_0000_0000_0000_0000_0000) by {
            reveal_with_fuel(sixteen_to, 33);
        }
    } else {
        lemma_leading_agree(a, b, n - 1);
        let unit = sixteen_to((32 - n) as nat);
        lemma_sixteen_to_positive((32 - n) as nat);
        assert(sixteen_to((33 - n) as nat) == 16 * unit);
        assert(unit * 16 == 16 * unit);
        lemma_div_denominator(a as int, unit, 16);
        lemma_div_denominator(b as int, unit, 16);
        assert(digit_of(a, n - 1) == digit_of(b, n - 1));
        assert(digit_of(a, n - 1) == (a as int / unit) % 16);
        assert(digit_of(b, n - 1) == (b as int / unit) % 16);
    }
}

/// Different identities have different texts.
pub proof fn lemma_text_tells_identities_apart(a: u128, b: u128)
    requires
        hyphenated(a) == hyphenated(b),
    ensures
        a == b,
{
    assert forall|k: int| 0 <= k < 32 implies digit_of(a, k) == digit_of(b, k) by {
        let i = if k < 8 {
            k
        } else if k < 12 {
            k + 1
        } else if k < 16 {
            k + 2
        } else if k < 20 {
            k + 3
        } else {
            k + 4
        };
        lemma_sixteen_to_positive((31 - k) as nat);
        let da = digit_of(a, k);
        let db = digit_of(b, k);
        assert(0 <= da < 16 && 0 <= db < 16);
        assert(hyphenated(a)[i] == hex_digits()[da]);
        assert(hyphenated(b)[i] == hex_digits()[db]);
        assert(hex_digits()[da] == hex_digits()[db]);
    }
    lemma_leading_agree(a, b, 32);
    assert(sixteen_to(0) == 1);
}

} // verus!
