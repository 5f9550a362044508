//! Register words of a GPIO port.
//!
//! Ports have sixteen pins.  A register holds one bit, or a field of two bits, per pin; a word
//! stored to the set/reset register drives pins high by its lower half and low by its upper
//! half.

use vstd::prelude::*;

verus! {

/// Two-bit mode of a pin: general-purpose output.
pub const MODE_OUTPUT: u32 = 1;

/// Two-bit mode of a pin: alternate function.
pub const MODE_ALTERNATE: u32 = 2;

/// Two-bit pull setting of a pin: pull-up.
pub const PULL_UP: u32 = 1;

/// The two-bit field of `pin` in a register.
pub open spec fn field(reg: u32, pin: u32) -> u32 {
    (reg >> (pin + pin) as u32) & 3
}

/// The bit of `pin` in a register.
pub open spec fn bit(reg: u32, pin: u32) -> bool {
    (reg >> pin) & 1 == 1
}

/// The register with the two-bit field of `pin` replaced.
pub open spec fn with_field_spec(reg: u32, pin: u32, value: u32) -> u32 {
    (reg & !(3u32 << (pin + pin) as u32)) | (value << (pin + pin) as u32)
}

/// Replaces the two-bit field of `pin` in a register value.
pub fn with_field(reg: u32, pin: u32, value: u32) -> (r: u32)
    requires
        pin < 16,
        value < 4,
    ensures
        r == with_field_spec(reg, pin, value),
        field(r, pin) == value,
        forall|q: u32| q < 16 && q != pin ==> #[trigger] field(r, q) == field(reg, q),
{
    proof {
        assert forall|q: u32| q < 16 implies #[trigger] field(
            with_field_spec(reg, pin, value),
            q,
        ) == (if q == pin {
            value
        } else {
            field(reg, q)
        }) by {
            lemma_with_field(reg, pin, value, q);
        }
    }
    let shift: u32 = pin + pin;
    (reg & !(3u32 << shift)) | (value << shift)
}

/// What replacing the field of `pin` does to the field of `q`.
pub proof fn lemma_with_field(reg: u32, pin: u32, value: u32, q: u32)
    by (bit_vector)
    requires
        pin < 16,
        q < 16,
        value < 4,
    ensures
        (((reg & !(3u32 << (pin + pin) as u32)) | (value << (pin + pin) as u32)) >> (q + q) as u32)
            & 3 == (if q == pin {
            value
        } else {
            (reg >> (q + q) as u32) & 3
        }),
{
}

/// A register value with the bit of `pin` set.
pub fn with_bit(reg: u32, pin: u32) -> (r: u32)
    requires
        pin < 16,
    ensures
        r == reg | (1u32 << pin),
        bit(r, pin),
        forall|q: u32| q < 32 && q != pin ==> #[trigger] bit(r, q) == bit(reg, q),
{
    proof {
        assert forall|q: u32| q < 32 implies #[trigger] bit(reg | (1u32 << pin), q) == (q == pin
            || bit(reg, q)) by {
            lemma_with_bit(reg, pin, q);
        }
    }
    reg | (1u32 << pin)
}

proof fn lemma_with_bit(reg: u32, pin: u32, q: u32)
    by (bit_vector)
    requires
        pin < 16,
        q < 32,
    ensures
        (((reg | (1u32 << pin)) >> q) & 1 == 1) == (q == pin || (reg >> q) & 1 == 1),
{
}

/// Whether the bit of `pin` is set in a register value.
pub fn has_bit(reg: u32, pin: u32) -> (b: bool)
    requires
        pin < 32,
    ensures
        b == bit(reg, pin),
{
    (reg >> pin) & 1 == 1
}

// ---------------------------------------------------------------------------
//  The set/reset register
// ---------------------------------------------------------------------------

/// The levels of the pins after `word` has been stored to the set/reset register: the lower
/// half drives high, the upper half low, and high wins.
pub open spec fn levels_after(levels: u32, word: u32) -> u32 {
    (levels & !(word >> 16)) | (word & 0xFFFF)
}

/// The word that drives `pin` high.
pub fn high_word(pin: u32) -> (word: u32)
    requires
        pin < 16,
    ensures
        word == 1u32 << pin,
{
    1u32 << pin
}

/// The word that drives `pin` low.
pub fn low_word(pin: u32) -> (word: u32)
    requires
        pin < 16,
    ensures
        word == 1u32 << (pin + 16) as u32,
{
    1u32 << (pin + 16)
}

/// The words drive the pin they are for, and leave every other pin as it is.
pub proof fn law_words_drive_one_pin(levels: u32, pin: u32, q: u32)
    requires
        pin < 16,
        q < 16,
    ensures
        bit(levels_after(levels, 1u32 << pin), q) == (q == pin || bit(levels, q)),
        bit(levels_after(levels, 1u32 << (pin + 16) as u32), q) == (q != pin && bit(levels, q)),
{
    lemma_words(levels, pin, q);
}

proof fn lemma_words(levels: u32, pin: u32, q: u32)
    by (bit_vector)
    requires
        pin < 16,
        q < 16,
    ensures
        ((((levels & !((1u32 << pin) >> 16)) | ((1u32 << pin) & 0xFFFF)) >> q) & 1 == 1) == (q
            == pin || (levels >> q) & 1 == 1),
        ((((levels & !((1u32 << (pin + 16) as u32) >> 16)) | ((1u32 << (pin + 16) as u32)
            & 0xFFFF)) >> q) & 1 == 1) == (q != pin && (levels >> q) & 1 == 1),
{
}

/// A register with one bit set has that bit and no other; what is set in either of two registers is
/// set in both together; the field of a pin is its two bits.
pub proof fn law_bits(a: u32, b: u32, p: u32, q: u32)
    requires
        p < 32,
        q < 32,
    ensures
        bit(1u32 << p, q) <==> p == q,
        bit(a | b, q) <==> bit(a, q) || bit(b, q),
        bit(!a, q) <==> !bit(a, q),
        q < 16 ==> field(a, q) == (if bit(a, (2 * q) as u32) {
            1int
        } else {
            0int
        }) + (if bit(a, (2 * q + 1) as u32) {
            2int
        } else {
            0int
        }),
{
    lemma_bits(a, b, p, q);
    if q < 16 {
        lemma_field(a, q);
    }
}

proof fn lemma_bits(a: u32, b: u32, p: u32, q: u32)
    by (bit_vector)
    requires
        p < 32,
        q < 32,
    ensures
        (((1u32 << p) >> q) & 1 == 1) == (p == q),
        (((a | b) >> q) & 1 == 1) == ((a >> q) & 1 == 1 || (b >> q) & 1 == 1),
        (((!a) >> q) & 1 == 1) == !((a >> q) & 1 == 1),
{
}

proof fn lemma_field(a: u32, q: u32)
    by (bit_vector)
    requires
        q < 16,
    ensures
        (a >> (q + q) as u32) & 3 == ((a >> (2 * q) as u32) & 1) + 2 * ((a >> (2 * q + 1) as u32)
            & 1),
        (a >> (2 * q) as u32) & 1 <= 1,
        (a >> (2 * q + 1) as u32) & 1 <= 1,
{
}

/// A word stored to the set/reset register drives high the pins of its lower half, and low those of
/// its upper half that it does not drive high; every other pin stays.
pub proof fn law_stored_word(levels: u32, word: u32, q: u32)
    requires
        q < 16,
    ensures
        bit(levels_after(levels, word), q) == (bit(word, q) || (bit(levels, q) && !bit(
            word,
            (q + 16) as u32,
        ))),
{
    lemma_stored_word(levels, word, q);
}

proof fn lemma_stored_word(levels: u32, word: u32, q: u32)
    by (bit_vector)
    requires
        q < 16,
    ensures
        ((((levels & !(word >> 16)) | (word & 0xFFFF)) >> q) & 1 == 1) == ((word >> q) & 1 == 1
            || ((levels >> q) & 1 == 1 && !((word >> (q + 16) as u32) & 1 == 1))),
{
}

} // verus!
