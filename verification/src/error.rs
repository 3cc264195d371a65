//! Why an update of the overlay came to nothing.

use vstd::prelude::*;
use vstd::string::StringExecFns;

verus! {

/// Why an update of the overlay came to nothing.
#[derive(Clone, Copy, Debug, PartialEq, Eq, Structural)]
pub enum OverlayError {
    /// An image without width or height.
    EmptyImage,
    /// An image whose byte count no `usize` holds.
    ImageOverflow,
    /// An image with another number of bytes than its dimensions ask for.
    ImageLength { found: usize, expected: usize },
    /// An image that does not cover the surface it is drawn into.
    ImageSize { width: u32, height: u32, surface_width: u32, surface_height: u32 },
    /// An update whose origin has no place on the update surface.
    OffsetOutside,
    /// A destination that leaves the update surface.
    DestinationOutside { right: u32, bottom: u32, update_width: u32, update_height: u32 },
    /// A call into the compositor that failed.
    Device,
}

/// `number` in decimal digits, without leading zeros.
pub open spec fn decimal(number: nat) -> Seq<char>
    decreases number,
{
    if number < 10 {
        seq![digit(number)]
    } else {
        decimal(number / 10).push(digit(number % 10))
    }
}

/// The decimal digit of a number below ten.
pub open spec fn digit(number: nat) -> char {
    ('0' as nat + number) as char
}

impl OverlayError {
    /// The error in words.
    pub open spec fn text(self) -> Seq<char> {
        match self {
            OverlayError::EmptyImage => "RGBA content dimensions must be non-zero"@,
            OverlayError::ImageOverflow => "RGBA content dimensions overflow"@,
            OverlayError::ImageLength { found, expected } => "RGBA content has "@ + decimal(
                found as nat,
            ) + " bytes, expected "@ + decimal(expected as nat),
            OverlayError::ImageSize { width, height, surface_width, surface_height } =>
                "RGBA content is "@ + decimal(width as nat) + "x"@ + decimal(height as nat)
                + ", but the surface is "@ + decimal(surface_width as nat) + "x"@ + decimal(
                surface_height as nat,
            ),
            OverlayError::OffsetOutside => "compositor update offset is outside the update surface"@,
            OverlayError::DestinationOutside { right, bottom, update_width, update_height } =>
                "compositor update destination "@ + decimal(right as nat) + "x"@ + decimal(
                bottom as nat,
            ) + " leaves the "@ + decimal(update_width as nat) + "x"@ + decimal(
                update_height as nat,
            ) + " update surface"@,
            OverlayError::Device => "compositor device call failed"@,
        }
    }

    /// The error in words.
    pub fn message(&self) -> (message: String)
        ensures
            message@ == self.text(),
    {
        let mut message = String::new();
        match *self {
            OverlayError::EmptyImage => message.append("RGBA content dimensions must be non-zero"),
            OverlayError::ImageOverflow => message.append("RGBA content dimensions overflow"),
            OverlayError::ImageLength { found, expected } => {
                message.append("RGBA content has ");
                append_decimal(&mut message, found);
                message.append(" bytes, expected ");
                append_decimal(&mut message, expected);
            },
            OverlayError::ImageSize { width, height, surface_width, surface_height } => {
                message.append("RGBA content is ");
                append_decimal(&mut message, width as usize);
                message.append("x");
                append_decimal(&mut message, height as usize);
                message.append(", but the surface is ");
                append_decimal(&mut message, surface_width as usize);
                message.append("x");
                append_decimal(&mut message, surface_height as usize);
            },
            OverlayError::OffsetOutside => message.append(
                "compositor update offset is outside the update surface",
            ),
            OverlayError::DestinationOutside { right, bottom, update_width, update_height } => {
                message.append("compositor update destination ");
                append_decimal(&mut message, right as usize);
                message.append("x");
                append_decimal(&mut message, bottom as usize);
                message.append(" leaves the ");
                append_decimal(&mut message, update_width as usize);
                message.append("x");
                append_decimal(&mut message, update_height as usize);
                message.append(" update surface");
            },
            OverlayError::Device => message.append("compositor device call failed"),
        }
        assert(message@ =~= self.text());
        message
    }
}

/// Appends `number` in decimal digits.
fn append_decimal(text: &mut String, number: usize)
    ensures
        final(text)@ == old(text)@ + decimal(number as nat),
    decreases number,
{
    if number >= 10 {
        append_decimal(text, number / 10);
    }
    append_digit(text, number % 10);
    assert(text@ =~= old(text)@ + decimal(number as nat));
}

/// Appends the decimal digit of a number below ten.
fn append_digit(text: &mut String, number: usize)
    requires
        number < 10,
    ensures
        final(text)@ == old(text)@.push(digit(number as nat)),
{
    proof {
        reveal_strlit("0");
        reveal_strlit("1");
        reveal_strlit("2");
        reveal_strlit("3");
        reveal_strlit("4");
        reveal_strlit("5");
        reveal_strlit("6");
        reveal_strlit("7");
        reveal_strlit("8");
        reveal_strlit("9");
    }
    let digit_text = match number {
        0 => "0",
        1 => "1",
        2 => "2",
        3 => "3",
        4 => "4",
        5 => "5",
        6 => "6",
        7 => "7",
        8 => "8",
        _ => "9",
    };
    text.append(digit_text);
    assert(digit_text@ =~= seq![digit(number as nat)]);
    assert(text@ =~= old(text)@.push(digit(number as nat)));
}

/// The number that a sequence of decimal digits stands for.
pub open spec fn digits_value(digits: Seq<char>) -> int
    decreases digits.len(),
{
    if digits.len() == 0 {
        0
    } else {
        digits_value(digits.drop_last()) * 10 + (digits.last() as int - '0' as int)
    }
}

/// The decimal digits of a number are digits, stand for it, and start with a zero
/// only where there is no other.
pub proof fn lemma_decimal_digits_stand_for_their_number(number: nat)
    ensures
        digits_value(decimal(number)) == number,
        decimal(number).len() > 0,
        forall|i: int|
            0 <= i < decimal(number).len() ==> '0' <= #[trigger] decimal(number)[i] <= '9',
        decimal(number)[0] == '0' ==> number == 0,
    decreases number,
{
    reveal_with_fuel(digits_value, 2);
    if number >= 10 {
        lemma_decimal_digits_stand_for_their_number(number / 10);
        assert(decimal(number).drop_last() =~= decimal(number / 10));
    } else {
        assert(decimal(number).drop_last() =~= Seq::empty());
    }
}

/// Every error says in words what is wrong, with its own numbers in their places.
pub proof fn lemma_errors_say_what_is_wrong(a: usize, b: usize, c: u32, d: u32, e: u32, f: u32)
    ensures
        OverlayError::EmptyImage.text() == "RGBA content dimensions must be non-zero"@,
        OverlayError::ImageOverflow.text() == "RGBA content dimensions overflow"@,
        (OverlayError::ImageLength { found: a, expected: b }).text() == "RGBA content has "@
            + decimal(a as nat) + " bytes, expected "@ + decimal(b as nat),
        (OverlayError::ImageSize {
            width: c,
            height: d,
            surface_width: e,
            surface_height: f,
        }).text() == "RGBA content is "@ + decimal(c as nat) + "x"@ + decimal(d as nat)
            + ", but the surface is "@ + decimal(e as nat) + "x"@ + decimal(f as nat),
        OverlayError::OffsetOutside.text()
            == "compositor update offset is outside the update surface"@,
        (OverlayError::DestinationOutside {
            right: c,
            bottom: d,
            update_width: e,
            update_height: f,
        }).text() == "compositor update destination "@ + decimal(c as nat) + "x"@ + decimal(
            d as nat,
        ) + " leaves the "@ + decimal(e as nat) + "x"@ + decimal(f as nat) + " update surface"@,
        OverlayError::Device.text() == "compositor device call failed"@,
{
}

} // verus!
