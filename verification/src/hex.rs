//! Hexadecimal rendering of addresses.

use vstd::prelude::*;

verus! {

/// The sixteen lower-case hexadecimal digits, in order of value.
pub open spec fn hex_digits() -> Seq<char> {
    "0123456789abcdef"@
}

/// The digit that stands for `value`, for values below sixteen.
pub open spec fn hex_digit(value: int) -> char {
    hex_digits()[value]
}

/// `value` in hexadecimal, most significant digit first, padded with leading
/// zeros to at least `width` digits and never shorter than one digit.
pub open spec fn hex_padded(value: nat, width: nat) -> Seq<char>
    decreases value + width,
{
    if value < 16 && width <= 1 {
        seq![hex_digit(value as int)]
    } else {
        hex_padded(
            value / 16,
            if width > 0 {
                (width - 1) as nat
            } else {
                0
            },
        ).push(hex_digit((value % 16) as int))
    }
}

/// The fixed-width rendering of an address: `0x` and sixteen digits.
pub open spec fn display_address(address: nat) -> Seq<char> {
    "0x"@ + hex_padded(address, 16)
}

/// The shortest rendering of an address: `0x` and as many digits as it needs.
pub open spec fn short_address(address: nat) -> Seq<char> {
    "0x"@ + hex_padded(address, 1)
}

/// Sixteen to the power of `exponent`.
pub open spec fn sixteen_to(exponent: nat) -> nat
    decreases exponent,
{
    if exponent == 0 {
        1
    } else {
        16 * sixteen_to((exponent - 1) as nat)
    }
}

/// A padded rendering has at least one digit and at least `width` digits,
/// and exactly `width` of them when the value is below sixteen to the power
/// of `width`.
pub proof fn lemma_hex_padded_len(value: nat, width: nat)
    ensures
        hex_padded(value, width).len() >= 1,
        hex_padded(value, width).len() >= width,
        width >= 1 && value < sixteen_to(width) ==> hex_padded(value, width).len() == width,
    decreases value + width,
{
    if !(value < 16 && width <= 1) {
        let rest: nat = if width > 0 {
            (width - 1) as nat
        } else {
            0
        };
        lemma_hex_padded_len(value / 16, rest);
        assert(sixteen_to(0) == 1);
        assert(width >= 1 ==> sixteen_to(width) == 16 * sixteen_to(rest));
    }
}

/// The fixed-width rendering of a machine address is always eighteen
/// characters long: `0x` and sixteen digits.
pub proof fn lemma_display_address_len(address: usize)
    ensures
        display_address(address as nat).len() == 18,
{
    reveal_strlit("0x");
    reveal_with_fuel(sixteen_to, 17);
    assert(sixteen_to(16) == 0x1_0000_0000_0000_0000);
    lemma_hex_padded_len(address as nat, 16);
}

/// Appends the digit that stands for `digit`.
fn push_hex_digit(text: &mut String, digit: u8)
    requires
        digit < 16,
    ensures
        final(text)@ == old(text)@.push(hex_digit(digit as int)),
{
    proof {
        reveal_strlit("0123456789abcdef");
    }
    let at: usize = digit as usize;
    let one: &str = "0123456789abcdef".substring_char(at, at + 1);
    assert(one@ =~= seq![hex_digit(digit as int)]);
    text.append(one);
}

/// Renders `value` in lower-case hexadecimal with at least `width` digits.
pub fn to_hex(value: u64, width: usize) -> (text: String)
    ensures
        text@ == hex_padded(value as nat, width as nat),
{
    let mut low: Vec<u8> = Vec::new();
    let mut rest: u64 = value;
    let mut pad: usize = width;
    let ghost mut tail: Seq<char> = Seq::empty();
    while !(rest < 16 && pad <= 1)
        invariant
            hex_padded(value as nat, width as nat) == hex_padded(rest as nat, pad as nat) + tail,
            low@.len() == tail.len(),
            forall|i: int|
                0 <= i < low@.len() ==> low@[i] < 16 && tail[tail.len() - 1 - i] == hex_digit(
                    #[trigger] low@[i] as int,
                ),
        decreases rest + pad,
    {
        let digit: u8 = (rest % 16) as u8;
        let ghost smaller: nat = if pad > 0 {
            (pad - 1) as nat
        } else {
            0
        };
        proof {
            let grown = seq![hex_digit(digit as int)] + tail;
            assert(hex_padded(rest as nat, pad as nat) + tail =~= hex_padded(
                (rest / 16) as nat,
                smaller,
            ) + grown);
            assert forall|i: int| 0 <= i < low@.len() implies grown[grown.len() - 1 - i]
                == hex_digit(#[trigger] low@[i] as int) by {
                assert(grown[grown.len() - 1 - i] == tail[tail.len() - 1 - i]);
            }
            tail = grown;
        }
        low.push(digit);
        rest = rest / 16;
        if pad > 0 {
            pad -= 1;
        }
    }
    let mut text: String = String::new();
    push_hex_digit(&mut text, rest as u8);
    let mut i: usize = low.len();
    while i > 0
        invariant
            i <= low@.len() == tail.len(),
            text@ == seq![hex_digit(rest as int)] + tail.subrange(0, low@.len() - i),
            forall|k: int|
                0 <= k < low@.len() ==> low@[k] < 16 && tail[tail.len() - 1 - k] == hex_digit(
                    #[trigger] low@[k] as int,
                ),
        decreases i,
    {
        i -= 1;
        push_hex_digit(&mut text, low[i]);
        assert(text@ =~= seq![hex_digit(rest as int)] + tail.subrange(0, low@.len() - i));
    }
    assert(tail.subrange(0, low@.len() as int) =~= tail);
    text
}

/// Renders an address as `0x` followed by sixteen hexadecimal digits.
pub fn format_address(address: usize) -> (text: String)
    ensures
        text@ == display_address(address as nat),
{
    let mut text: String = "0x".to_owned();
    let digits: String = to_hex(address as u64, 16);
    text.append(digits.as_str());
    text
}

} // verus!
