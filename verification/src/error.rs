//! The ways in which a request can be invalid.

use vstd::prelude::*;

use crate::text;
use crate::text::push_decimal;

verus! {

/// Why a request was refused.
#[derive(Debug, Clone, Copy, PartialEq, Eq, Structural)]
pub enum UhidError {
    /// A report descriptor of this many bytes does not fit a create event.
    DescriptorTooLarge(usize),
    /// An input report of this many bytes does not fit an input event.
    InputTooLarge(usize),
    /// A report reply does not fit its event.
    ReplyTooLarge,
    /// A gamepad was declared without buttons, or with too many.
    ButtonCount,
    /// A gamepad was declared without axes, or with too many.
    AxisCount,
    /// A gamepad report was asked of a layout of another kind.
    NotGamepad,
    /// A report was asked of a device that has no layout.
    NoLayout,
}

/// The words for an error.
pub open spec fn error_text(e: UhidError) -> Seq<char> {
    match e {
        UhidError::DescriptorTooLarge(n) => "HID report descriptor too large: "@ + text::decimal(
            n as nat,
        ) + " > 4096"@,
        UhidError::InputTooLarge(n) => "UHID input too large: "@ + text::decimal(n as nat)
            + " > 4096"@,
        UhidError::ReplyTooLarge => "UHID report reply too large"@,
        UhidError::ButtonCount => "gamepad needs 1..32 buttons"@,
        UhidError::AxisCount => "gamepad needs 1..5 axes"@,
        UhidError::NotGamepad => "layout is not a gamepad"@,
        UhidError::NoLayout => "device has no report layout; use input_raw"@,
    }
}

impl UhidError {
    /// The words for the error.
    pub fn message(&self) -> (s: String)
        ensures
            s@ == error_text(*self),
    {
        match self {
            UhidError::DescriptorTooLarge(n) => {
                let mut s = "HID report descriptor too large: ".to_owned();
                push_decimal(&mut s, *n);
                s.append(" > 4096");
                s
            },
            UhidError::InputTooLarge(n) => {
                let mut s = "UHID input too large: ".to_owned();
                push_decimal(&mut s, *n);
                s.append(" > 4096");
                s
            },
            UhidError::ReplyTooLarge => "UHID report reply too large".to_owned(),
            UhidError::ButtonCount => "gamepad needs 1..32 buttons".to_owned(),
            UhidError::AxisCount => "gamepad needs 1..5 axes".to_owned(),
            UhidError::NotGamepad => "layout is not a gamepad".to_owned(),
            UhidError::NoLayout => "device has no report layout; use input_raw".to_owned(),
        }
    }
}

proof fn lemma_words(e: UhidError)
    ensures
        error_text(e).len() > 5,
        error_text(e)[0] == (match e {
            UhidError::DescriptorTooLarge(_) => 'H',
            UhidError::InputTooLarge(_) => 'U',
            UhidError::ReplyTooLarge => 'U',
            UhidError::ButtonCount => 'g',
            UhidError::AxisCount => 'g',
            UhidError::NotGamepad => 'l',
            UhidError::NoLayout => 'd',
        }),
        e is InputTooLarge ==> error_text(e)[5] == 'i',
        e is ReplyTooLarge ==> error_text(e)[5] == 'r',
        e is ButtonCount ==> error_text(e).len() == 27,
        e is AxisCount ==> error_text(e).len() == 23,
{
    reveal_strlit("HID report descriptor too large: ");
    reveal_strlit("UHID input too large: ");
    reveal_strlit("UHID report reply too large");
    reveal_strlit("gamepad needs 1..32 buttons");
    reveal_strlit("gamepad needs 1..5 axes");
    reveal_strlit("layout is not a gamepad");
    reveal_strlit("device has no report layout; use input_raw");
}

/// The words for two errors are the same only where the errors are.
pub proof fn law_errors_are_told_apart(a: UhidError, b: UhidError)
    requires
        error_text(a) == error_text(b),
    ensures
        a == b,
{
    lemma_words(a);
    lemma_words(b);
    match (a, b) {
        (UhidError::DescriptorTooLarge(n), UhidError::DescriptorTooLarge(m)) => {
            lemma_same_number("HID report descriptor too large: "@, n as nat, m as nat);
        },
        (UhidError::InputTooLarge(n), UhidError::InputTooLarge(m)) => {
            lemma_same_number("UHID input too large: "@, n as nat, m as nat);
        },
        _ => {},
    }
}

proof fn lemma_same_number(words: Seq<char>, n: nat, m: nat)
    requires
        words + text::decimal(n) + " > 4096"@ == words + text::decimal(m) + " > 4096"@,
    ensures
        n == m,
{
    let x = words + text::decimal(n) + " > 4096"@;
    let y = words + text::decimal(m) + " > 4096"@;
    assert(x.len() == y.len());
    let k = words.len() as int;
    let l = k + text::decimal(n).len();
    assert(x.subrange(k, l) =~= text::decimal(n));
    assert(y.subrange(k, l) =~= text::decimal(m));
    text::law_decimal_reads_back(n);
    text::law_decimal_reads_back(m);
}

} // verus!
