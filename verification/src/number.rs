//! Whole numbers from text, in decimal, for the integer types of the
//! machine.

use vstd::prelude::*;
use crate::extract::{FromValue, fails_with};
use crate::position::{Error, Position, PositionView};
use crate::text::{is_ascii_digit, to_chars};

verus! {

/// Why a text is no number of the type that was asked for.
#[derive(Clone, Copy, Debug, PartialEq, Eq, Structural)]
pub enum NumberFault {
    /// The text is empty.
    Empty,
    /// The text holds something that is no digit, or a sign and nothing else.
    InvalidDigit,
    /// The number is above what the type holds.
    TooLarge,
    /// The number is below what the type holds.
    TooSmall,
    /// The number is zero, and the type has no zero.
    Zero,
}

impl NumberFault {
    /// The message for this fault.
    pub open spec fn message(self) -> Seq<char> {
        match self {
            NumberFault::Empty => "expected a number, found an empty value"@,
            NumberFault::InvalidDigit => "expected a number, found an invalid digit"@,
            NumberFault::TooLarge => "number is too large"@,
            NumberFault::TooSmall => "number is too small"@,
            NumberFault::Zero => "number must not be zero"@,
        }
    }

    /// The message for this fault.
    pub fn describe(&self) -> (message: &'static str)
        ensures
            message@ == self.message(),
    {
        match self {
            NumberFault::Empty => "expected a number, found an empty value",
            NumberFault::InvalidDigit => "expected a number, found an invalid digit",
            NumberFault::TooLarge => "number is too large",
            NumberFault::TooSmall => "number is too small",
            NumberFault::Zero => "number must not be zero",
        }
    }
}

/// The digit that `c` stands for.
pub open spec fn digit_of(c: char) -> int {
    c as u32 - '0' as u32
}

/// The number that the digits of `text` from `at` on stand for, where
/// `so_far` is what those before `at` stand for, and where the number is
/// below zero if `negative`. The text is read from the left: the first
/// character that is no digit is a fault, and so is the first digit with
/// which the number leaves the range from `low` to `high`.
pub open spec fn digits_value(
    text: Seq<char>,
    at: nat,
    so_far: int,
    negative: bool,
    low: int,
    high: int,
) -> Result<int, NumberFault>
    decreases text.len() - at,
{
    if at >= text.len() {
        Ok(so_far)
    } else if !is_ascii_digit(text[at as int]) {
        Err(NumberFault::InvalidDigit)
    } else {
        let next = if negative {
            so_far * 10 - digit_of(text[at as int])
        } else {
            so_far * 10 + digit_of(text[at as int])
        };
        if next > high {
            Err(NumberFault::TooLarge)
        } else if next < low {
            Err(NumberFault::TooSmall)
        } else {
            digits_value(text, at + 1, next, negative, low, high)
        }
    }
}

/// The number between `low` and `high` that `text` stands for: decimal
/// digits, behind a `+` if one likes, or behind a `-` where the type is
/// `signed`.
pub open spec fn number_of(text: Seq<char>, signed: bool, low: int, high: int) -> Result<
    int,
    NumberFault,
> {
    if text.len() == 0 {
        Err(NumberFault::Empty)
    } else if text.len() == 1 && (text[0] == '+' || text[0] == '-') {
        Err(NumberFault::InvalidDigit)
    } else if text[0] == '+' {
        digits_value(text, 1, 0, false, low, high)
    } else if text[0] == '-' && signed {
        digits_value(text, 1, 0, true, low, high)
    } else {
        digits_value(text, 0, 0, false, low, high)
    }
}

/// The number between `low` and `high` that `text` stands for.
#[verifier::loop_isolation(false)]
pub fn to_number(text: &str, signed: bool, low: i128, high: i128) -> (result: Result<
    i128,
    NumberFault,
>)
    requires
        -0x8000_0000_0000_0000 <= low <= 0 <= high <= 0xffff_ffff_ffff_ffff,
    ensures
        match number_of(text@, signed, low as int, high as int) {
            Ok(number) => result matches Ok(found) && found == number,
            Err(fault) => result == Err::<i128, NumberFault>(fault),
        },
        result matches Ok(found) ==> low <= found <= high,
{
    let chars = to_chars(text);
    if chars.len() == 0 {
        return Err(NumberFault::Empty);
    }
    let first = chars[0];
    if chars.len() == 1 && (first == '+' || first == '-') {
        return Err(NumberFault::InvalidDigit);
    }
    let negative = first == '-' && signed;
    let mut at: usize = if first == '+' || negative {
        1
    } else {
        0
    };
    let ghost start = at;
    let mut so_far: i128 = 0;
    while at < chars.len()
        invariant
            chars@ == text@,
            at <= chars.len(),
            low <= so_far <= high,
            -0x8000_0000_0000_0000 <= low <= 0 <= high <= 0xffff_ffff_ffff_ffff,
            digits_value(text@, at as nat, so_far as int, negative, low as int, high as int)
                == digits_value(text@, start as nat, 0, negative, low as int, high as int),
        decreases chars.len() - at,
    {
        let c = chars[at];
        if !('0' <= c && c <= '9') {
            return Err(NumberFault::InvalidDigit);
        }
        let digit: i128 = (c as u32 - '0' as u32) as i128;
        let next: i128 = if negative {
            so_far * 10 - digit
        } else {
            so_far * 10 + digit
        };
        if next > high {
            return Err(NumberFault::TooLarge);
        }
        if next < low {
            return Err(NumberFault::TooSmall);
        }
        so_far = next;
        at += 1;
    }
    Ok(so_far)
}

/// An integer type of the machine.
pub trait Integer: Sized + Copy {
    /// Whether the type has numbers below zero.
    spec fn signed() -> bool;

    /// The lowest number of the type.
    spec fn lowest() -> int;

    /// The highest number of the type.
    spec fn highest() -> int;

    /// The number that a value stands for.
    spec fn number(self) -> int;

    /// Whether the type has numbers below zero, and its lowest and highest
    /// number.
    fn range() -> (range: (bool, i128, i128))
        ensures
            range.0 == Self::signed(),
            range.1 == Self::lowest(),
            range.2 == Self::highest(),
            -0x8000_0000_0000_0000 <= Self::lowest() <= 0 <= Self::highest()
                <= 0xffff_ffff_ffff_ffff,
    ;

    /// The value of the type that stands for `number`.
    fn narrow(number: i128) -> (value: Self)
        requires
            Self::lowest() <= number <= Self::highest(),
        ensures
            value.number() == number,
    ;

    /// Whether a value is zero.
    fn is_zero(&self) -> (zero: bool)
        ensures
            zero == (self.number() == 0),
    ;
}

/// Whether `result` is what `value`, found at `position`, gives as a number
/// of the type `T`: the number, or an error with the message of the fault.
pub open spec fn number_yields<T: Integer>(
    value: Seq<char>,
    position: PositionView,
    result: Result<T, Error>,
) -> bool {
    match number_of(value, T::signed(), T::lowest(), T::highest()) {
        Ok(number) => result matches Ok(found) && found.number() == number,
        Err(fault) => fails_with(result, fault.message(), position),
    }
}

impl<'a, T: Integer> FromValue<'a> for T {
    open spec fn value_yields(
        value: Seq<char>,
        position: PositionView,
        result: Result<Self, Error<'a>>,
    ) -> bool {
        number_yields::<T>(value, position, result)
    }

    fn from_value(value: &str, position: &Position<'a>) -> (result: Result<Self, Error<'a>>) {
        let (signed, low, high) = T::range();
        match to_number(value, signed, low, high) {
            Ok(number) => Ok(T::narrow(number)),
            Err(fault) => Err(position.error_str(fault.describe())),
        }
    }
}

/// A number that is not zero.
#[derive(Clone, Copy, Debug)]
pub struct NonZero<T> {
    value: T,
}

impl<T: Integer> NonZero<T> {
    /// The number.
    pub closed spec fn value(self) -> T {
        self.value
    }

    /// The number.
    pub fn get(&self) -> (value: T)
        ensures
            value == self.value(),
    {
        self.value
    }

    /// `value` as a number that is not zero, unless it is zero.
    pub fn new(value: T) -> (number: Option<Self>)
        ensures
            match number {
                Some(found) => found.value() == value && value.number() != 0,
                None => value.number() == 0,
            },
    {
        if value.is_zero() {
            None
        } else {
            Some(NonZero { value })
        }
    }
}

impl<'a, T: Integer> FromValue<'a> for NonZero<T> {
    open spec fn value_yields(
        value: Seq<char>,
        position: PositionView,
        result: Result<Self, Error<'a>>,
    ) -> bool {
        match number_of(value, T::signed(), T::lowest(), T::highest()) {
            Ok(number) => if number == 0 {
                fails_with(result, NumberFault::Zero.message(), position)
            } else {
                result matches Ok(found) && found.value().number() == number
            },
            Err(fault) => fails_with(result, fault.message(), position),
        }
    }

    fn from_value(value: &str, position: &Position<'a>) -> (result: Result<Self, Error<'a>>) {
        let (signed, low, high) = T::range();
        match to_number(value, signed, low, high) {
            Ok(number) => match NonZero::new(T::narrow(number)) {
                Some(found) => Ok(found),
                None => Err(position.error_str(NumberFault::Zero.describe())),
            },
            Err(fault) => Err(position.error_str(fault.describe())),
        }
    }
}

impl Integer for u8 {
    open spec fn signed() -> bool {
        false
    }

    open spec fn lowest() -> int {
        u8::MIN as int
    }

    open spec fn highest() -> int {
        u8::MAX as int
    }

    open spec fn number(self) -> int {
        self as int
    }

    fn range() -> (range: (bool, i128, i128)) {
        (false, u8::MIN as i128, u8::MAX as i128)
    }

    fn narrow(number: i128) -> (value: Self) {
        number as u8
    }

    fn is_zero(&self) -> (zero: bool) {
        *self == 0
    }
}

impl Integer for u16 {
    open spec fn signed() -> bool {
        false
    }

    open spec fn lowest() -> int {
        u16::MIN as int
    }

    open spec fn highest() -> int {
        u16::MAX as int
    }

    open spec fn number(self) -> int {
        self as int
    }

    fn range() -> (range: (bool, i128, i128)) {
        (false, u16::MIN as i128, u16::MAX as i128)
    }

    fn narrow(number: i128) -> (value: Self) {
        number as u16
    }

    fn is_zero(&self) -> (zero: bool) {
        *self == 0
    }
}

impl Integer for u32 {
    open spec fn signed() -> bool {
        false
    }

    open spec fn lowest() -> int {
        u32::MIN as int
    }

    open spec fn highest() -> int {
        u32::MAX as int
    }

    open spec fn number(self) -> int {
        self as int
    }

    fn range() -> (range: (bool, i128, i128)) {
        (false, u32::MIN as i128, u32::MAX as i128)
    }

    fn narrow(number: i128) -> (value: Self) {
        number as u32
    }

    fn is_zero(&self) -> (zero: bool) {
        *self == 0
    }
}

impl Integer for u64 {
    open spec fn signed() -> bool {
        false
    }

    open spec fn lowest() -> int {
        u64::MIN as int
    }

    open spec fn highest() -> int {
        u64::MAX as int
    }

    open spec fn number(self) -> int {
        self as int
    }

    fn range() -> (range: (bool, i128, i128)) {
        (false, u64::MIN as i128, u64::MAX as i128)
    }

    fn narrow(number: i128) -> (value: Self) {
        number as u64
    }

    fn is_zero(&self) -> (zero: bool) {
        *self == 0
    }
}

impl Integer for usize {
    open spec fn signed() -> bool {
        false
    }

    open spec fn lowest() -> int {
        usize::MIN as int
    }

    open spec fn highest() -> int {
        usize::MAX as int
    }

    open spec fn number(self) -> int {
        self as int
    }

    fn range() -> (range: (bool, i128, i128)) {
        (false, usize::MIN as i128, usize::MAX as i128)
    }

    fn narrow(number: i128) -> (value: Self) {
        number as usize
    }

    fn is_zero(&self) -> (zero: bool) {
        *self == 0
    }
}

impl Integer for i8 {
    open spec fn signed() -> bool {
        true
    }

    open spec fn lowest() -> int {
        i8::MIN as int
    }

    open spec fn highest() -> int {
        i8::MAX as int
    }

    open spec fn number(self) -> int {
        self as int
    }

    fn range() -> (range: (bool, i128, i128)) {
        (true, i8::MIN as i128, i8::MAX as i128)
    }

    fn narrow(number: i128) -> (value: Self) {
        number as i8
    }

    fn is_zero(&self) -> (zero: bool) {
        *self == 0
    }
}

impl Integer for i16 {
    open spec fn signed() -> bool {
        true
    }

    open spec fn lowest() -> int {
        i16::MIN as int
    }

    open spec fn highest() -> int {
        i16::MAX as int
    }

    open spec fn number(self) -> int {
        self as int
    }

    fn range() -> (range: (bool, i128, i128)) {
        (true, i16::MIN as i128, i16::MAX as i128)
    }

    fn narrow(number: i128) -> (value: Self) {
        number as i16
    }

    fn is_zero(&self) -> (zero: bool) {
        *self == 0
    }
}

impl Integer for i32 {
    open spec fn signed() -> bool {
        true
    }

    open spec fn lowest() -> int {
        i32::MIN as int
    }

    open spec fn highest() -> int {
        i32::MAX as int
    }

    open spec fn number(self) -> int {
        self as int
    }

    fn range() -> (range: (bool, i128, i128)) {
        (true, i32::MIN as i128, i32::MAX as i128)
    }

    fn narrow(number: i128) -> (value: Self) {
        number as i32
    }

    fn is_zero(&self) -> (zero: bool) {
        *self == 0
    }
}

impl Integer for i64 {
    open spec fn signed() -> bool {
        true
    }

    open spec fn lowest() -> int {
        i64::MIN as int
    }

    open spec fn highest() -> int {
        i64::MAX as int
    }

    open spec fn number(self) -> int {
        self as int
    }

    fn range() -> (range: (bool, i128, i128)) {
        (true, i64::MIN as i128, i64::MAX as i128)
    }

    fn narrow(number: i128) -> (value: Self) {
        number as i64
    }

    fn is_zero(&self) -> (zero: bool) {
        *self == 0
    }
}

impl Integer for isize {
    open spec fn signed() -> bool {
        true
    }

    open spec fn lowest() -> int {
        isize::MIN as int
    }

    open spec fn highest() -> int {
        isize::MAX as int
    }

    open spec fn number(self) -> int {
        self as int
    }

    fn range() -> (range: (bool, i128, i128)) {
        (true, isize::MIN as i128, isize::MAX as i128)
    }

    fn narrow(number: i128) -> (value: Self) {
        number as isize
    }

    fn is_zero(&self) -> (zero: bool) {
        *self == 0
    }
}

} // verus!
