//! Capturing token values into program variables: the value traits, the capture traits and the fields.
use vstd::prelude::*;
use crate::model::Nargs;
use crate::numbers::spec_decimal;

verus! {

/// Marker trait for capturable types that can formulate an option in the Cli.
pub trait CliOption {}

/// Marker trait for capturable types that can formulate an argument in the Cli.
pub trait CliArgument {}

/// Why a token could not be captured.
#[derive(Debug, PartialEq, Eq)]
pub enum InvalidCapture {
    /// The token does not convert to the variable's type.
    InvalidConversion { token: String, type_label: String },
    /// The collection refused the converted value.
    InvalidAdd { token: String, message: String },
}

impl InvalidCapture {
    /// The error message.
    pub fn to_string(&self) -> (r: String)
        ensures
            r@ == capture_message(*self),
    {
        let mut v = crate::text::chars_of("cannot ");
        match self {
            InvalidCapture::InvalidConversion { token, type_label } => {
                crate::text::append_str(&mut v, "convert '");
                crate::text::append_str(&mut v, token.as_str());
                crate::text::append_str(&mut v, "' to ");
                crate::text::append_str(&mut v, type_label.as_str());
                v.push('.');
            },
            InvalidCapture::InvalidAdd { token, message } => {
                crate::text::append_str(&mut v, "collect '");
                crate::text::append_str(&mut v, token.as_str());
                crate::text::append_str(&mut v, "': ");
                crate::text::append_str(&mut v, message.as_str());
                v.push('.');
            },
        }
        crate::text::string_of(&v)
    }
}

/// The message of a capture error.
pub open spec fn capture_message(e: InvalidCapture) -> Seq<char> {
    match e {
        InvalidCapture::InvalidConversion { token, type_label } =>
            "cannot "@ + "convert '"@ + token@ + "' to "@ + type_label@ + seq!['.'],
        InvalidCapture::InvalidAdd { token, message } =>
            "cannot "@ + "collect '"@ + token@ + "': "@ + message@ + seq!['.'],
    }
}

/// A type whose values can be read from a command line token.
pub trait FromToken: Sized {
    /// Whether the token stands for a value of the type.
    spec fn token_valid(token: Seq<char>) -> bool;

    /// Whether the token stands for the value `v`.
    spec fn token_means(token: Seq<char>, v: Self) -> bool;

    /// The name of the type, as error messages give it.
    spec fn label_text() -> Seq<char>;

    /// The name of the type, for error messages.
    fn type_label() -> (r: String)
        ensures
            r@ == Self::label_text();

    /// Read a value from a token.
    fn from_token(token: &str) -> (r: Option<Self>)
        ensures
            r is Some <==> Self::token_valid(token@),
            r matches Some(v) ==> Self::token_means(token@, v);
}

/// A type whose values can be written as a command line token.
pub trait ToToken {
    /// The token a value stands for.
    spec fn token_text(&self) -> Seq<char>;

    /// Write the value as a token.
    fn to_token(&self) -> (r: String)
        ensures
            r@ == self.token_text();
}

/// Whether the character is a decimal digit.
pub open spec fn is_decimal_digit(c: char) -> bool {
    '0' <= c && c <= '9'
}

/// The value of a non-empty run of decimal digits (leading zeros allowed); `None` for anything
/// else.
pub open spec fn digits_value(s: Seq<char>) -> Option<int>
    decreases s.len(),
{
    if s.len() == 0 || !is_decimal_digit(s.last()) {
        None
    } else if s.len() == 1 {
        Some(s.last() as int - '0' as int)
    } else {
        match digits_value(s.drop_last()) {
            Some(v) => Some(v * 10 + (s.last() as int - '0' as int)),
            None => None,
        }
    }
}

/// The number an unsigned integer's `from_str` reads: an optional `+`, then decimal digits.
pub open spec fn unsigned_value(t: Seq<char>) -> Option<int> {
    if t.len() > 0 && t[0] == '+' {
        digits_value(t.skip(1))
    } else {
        digits_value(t)
    }
}

/// The number a signed integer's `from_str` reads: an optional `+` or `-`, then decimal digits.
pub open spec fn signed_value(t: Seq<char>) -> Option<int> {
    if t.len() > 0 && t[0] == '-' {
        match digits_value(t.skip(1)) {
            Some(v) => Some(-v),
            None => None,
        }
    } else {
        unsigned_value(t)
    }
}

/// The number, when it lies in `lo..=hi`.
pub open spec fn within(v: Option<int>, lo: int, hi: int) -> Option<int> {
    match v {
        Some(x) => if lo <= x && x <= hi {
            Some(x)
        } else {
            None
        },
        None => None,
    }
}

/// `u8::from_str` reads an optional `+` and decimal digits, and refuses anything
/// else or a number out of range.
#[verifier::external_body]
fn parse_u8(token: &str) -> (r: Option<u8>)
    ensures
        r == (match within(unsigned_value(token@), 0, u8::MAX as int) {
            Some(v) => Some(v as u8),
            None => None::<u8>,
        }),
{
    token.parse::<u8>().ok()
}

/// `u16::from_str` reads an optional `+` and decimal digits, and refuses anything
/// else or a number out of range.
#[verifier::external_body]
fn parse_u16(token: &str) -> (r: Option<u16>)
    ensures
        r == (match within(unsigned_value(token@), 0, u16::MAX as int) {
            Some(v) => Some(v as u16),
            None => None::<u16>,
        }),
{
    token.parse::<u16>().ok()
}

/// `u32::from_str` reads an optional `+` and decimal digits, and refuses anything
/// else or a number out of range.
#[verifier::external_body]
fn parse_u32(token: &str) -> (r: Option<u32>)
    ensures
        r == (match within(unsigned_value(token@), 0, u32::MAX as int) {
            Some(v) => Some(v as u32),
            None => None::<u32>,
        }),
{
    token.parse::<u32>().ok()
}

/// `u64::from_str` reads an optional `+` and decimal digits, and refuses anything
/// else or a number out of range.
#[verifier::external_body]
fn parse_u64(token: &str) -> (r: Option<u64>)
    ensures
        r == (match within(unsigned_value(token@), 0, u64::MAX as int) {
            Some(v) => Some(v as u64),
            None => None::<u64>,
        }),
{
    token.parse::<u64>().ok()
}

/// `usize::from_str` reads an optional `+` and decimal digits, and refuses anything
/// else or a number out of range.
#[verifier::external_body]
fn parse_usize(token: &str) -> (r: Option<usize>)
    ensures
        r == (match within(unsigned_value(token@), 0, usize::MAX as int) {
            Some(v) => Some(v as usize),
            None => None::<usize>,
        }),
{
    token.parse::<usize>().ok()
}

/// `i32::from_str` reads an optional `+` or `-` and decimal digits, and refuses
/// anything else or a number out of range.
#[verifier::external_body]
fn parse_i32(token: &str) -> (r: Option<i32>)
    ensures
        r == (match within(signed_value(token@), i32::MIN as int, i32::MAX as int) {
            Some(v) => Some(v as i32),
            None => None::<i32>,
        }),
{
    token.parse::<i32>().ok()
}

/// `i64::from_str` reads an optional `+` or `-` and decimal digits, and refuses
/// anything else or a number out of range.
#[verifier::external_body]
fn parse_i64(token: &str) -> (r: Option<i64>)
    ensures
        r == (match within(signed_value(token@), i64::MIN as int, i64::MAX as int) {
            Some(v) => Some(v as i64),
            None => None::<i64>,
        }),
{
    token.parse::<i64>().ok()
}

/// `u128::from_str` reads an optional `+` and decimal digits, and refuses anything
/// else or a number out of range.
#[verifier::external_body]
fn parse_u128(token: &str) -> (r: Option<u128>)
    ensures
        r == (match within(unsigned_value(token@), 0, u128::MAX as int) {
            Some(v) => Some(v as u128),
            None => None::<u128>,
        }),
{
    token.parse::<u128>().ok()
}

/// `i8::from_str` reads an optional `+` or `-` and decimal digits, and refuses anything
/// else or a number out of range.
#[verifier::external_body]
fn parse_i8(token: &str) -> (r: Option<i8>)
    ensures
        r == (match within(signed_value(token@), i8::MIN as int, i8::MAX as int) {
            Some(v) => Some(v as i8),
            None => None::<i8>,
        }),
{
    token.parse::<i8>().ok()
}

/// `i16::from_str` reads an optional `+` or `-` and decimal digits, and refuses anything
/// else or a number out of range.
#[verifier::external_body]
fn parse_i16(token: &str) -> (r: Option<i16>)
    ensures
        r == (match within(signed_value(token@), i16::MIN as int, i16::MAX as int) {
            Some(v) => Some(v as i16),
            None => None::<i16>,
        }),
{
    token.parse::<i16>().ok()
}

/// `i128::from_str` reads an optional `+` or `-` and decimal digits, and refuses anything
/// else or a number out of range.
#[verifier::external_body]
fn parse_i128(token: &str) -> (r: Option<i128>)
    ensures
        r == (match within(signed_value(token@), i128::MIN as int, i128::MAX as int) {
            Some(v) => Some(v as i128),
            None => None::<i128>,
        }),
{
    token.parse::<i128>().ok()
}

/// `isize::from_str` reads an optional `+` or `-` and decimal digits, and refuses anything
/// else or a number out of range.
#[verifier::external_body]
fn parse_isize(token: &str) -> (r: Option<isize>)
    ensures
        r == (match within(signed_value(token@), isize::MIN as int, isize::MAX as int) {
            Some(v) => Some(v as isize),
            None => None::<isize>,
        }),
{
    token.parse::<isize>().ok()
}

impl FromToken for u128 {
    open spec fn token_valid(token: Seq<char>) -> bool {
        within(unsigned_value(token), 0, u128::MAX as int) is Some
    }

    open spec fn token_means(token: Seq<char>, v: u128) -> bool {
        within(unsigned_value(token), 0, u128::MAX as int) == Some(v as int)
    }

    open spec fn label_text() -> Seq<char> {
        "u128"@
    }

    fn type_label() -> String {
        "u128".to_owned()
    }

    fn from_token(token: &str) -> (r: Option<u128>) {
        parse_u128(token)
    }
}

impl FromToken for i8 {
    open spec fn token_valid(token: Seq<char>) -> bool {
        within(signed_value(token), i8::MIN as int, i8::MAX as int) is Some
    }

    open spec fn token_means(token: Seq<char>, v: i8) -> bool {
        within(signed_value(token), i8::MIN as int, i8::MAX as int) == Some(v as int)
    }

    open spec fn label_text() -> Seq<char> {
        "i8"@
    }

    fn type_label() -> String {
        "i8".to_owned()
    }

    fn from_token(token: &str) -> (r: Option<i8>) {
        parse_i8(token)
    }
}

impl FromToken for i16 {
    open spec fn token_valid(token: Seq<char>) -> bool {
        within(signed_value(token), i16::MIN as int, i16::MAX as int) is Some
    }

    open spec fn token_means(token: Seq<char>, v: i16) -> bool {
        within(signed_value(token), i16::MIN as int, i16::MAX as int) == Some(v as int)
    }

    open spec fn label_text() -> Seq<char> {
        "i16"@
    }

    fn type_label() -> String {
        "i16".to_owned()
    }

    fn from_token(token: &str) -> (r: Option<i16>) {
        parse_i16(token)
    }
}

impl FromToken for i128 {
    open spec fn token_valid(token: Seq<char>) -> bool {
        within(signed_value(token), i128::MIN as int, i128::MAX as int) is Some
    }

    open spec fn token_means(token: Seq<char>, v: i128) -> bool {
        within(signed_value(token), i128::MIN as int, i128::MAX as int) == Some(v as int)
    }

    open spec fn label_text() -> Seq<char> {
        "i128"@
    }

    fn type_label() -> String {
        "i128".to_owned()
    }

    fn from_token(token: &str) -> (r: Option<i128>) {
        parse_i128(token)
    }
}

impl FromToken for isize {
    open spec fn token_valid(token: Seq<char>) -> bool {
        within(signed_value(token), isize::MIN as int, isize::MAX as int) is Some
    }

    open spec fn token_means(token: Seq<char>, v: isize) -> bool {
        within(signed_value(token), isize::MIN as int, isize::MAX as int) == Some(v as int)
    }

    open spec fn label_text() -> Seq<char> {
        "isize"@
    }

    fn type_label() -> String {
        "isize".to_owned()
    }

    fn from_token(token: &str) -> (r: Option<isize>) {
        parse_isize(token)
    }
}

impl FromToken for u8 {
    open spec fn token_valid(token: Seq<char>) -> bool {
        within(unsigned_value(token), 0, u8::MAX as int) is Some
    }

    open spec fn token_means(token: Seq<char>, v: u8) -> bool {
        within(unsigned_value(token), 0, u8::MAX as int) == Some(v as int)
    }

    open spec fn label_text() -> Seq<char> {
        "u8"@
    }

    fn type_label() -> String {
        "u8".to_owned()
    }

    fn from_token(token: &str) -> (r: Option<u8>) {
        parse_u8(token)
    }
}

impl FromToken for u16 {
    open spec fn token_valid(token: Seq<char>) -> bool {
        within(unsigned_value(token), 0, u16::MAX as int) is Some
    }

    open spec fn token_means(token: Seq<char>, v: u16) -> bool {
        within(unsigned_value(token), 0, u16::MAX as int) == Some(v as int)
    }

    open spec fn label_text() -> Seq<char> {
        "u16"@
    }

    fn type_label() -> String {
        "u16".to_owned()
    }

    fn from_token(token: &str) -> (r: Option<u16>) {
        parse_u16(token)
    }
}

impl FromToken for u32 {
    open spec fn token_valid(token: Seq<char>) -> bool {
        within(unsigned_value(token), 0, u32::MAX as int) is Some
    }

    open spec fn token_means(token: Seq<char>, v: u32) -> bool {
        within(unsigned_value(token), 0, u32::MAX as int) == Some(v as int)
    }

    open spec fn label_text() -> Seq<char> {
        "u32"@
    }

    fn type_label() -> String {
        "u32".to_owned()
    }

    fn from_token(token: &str) -> (r: Option<u32>) {
        parse_u32(token)
    }
}

impl FromToken for u64 {
    open spec fn token_valid(token: Seq<char>) -> bool {
        within(unsigned_value(token), 0, u64::MAX as int) is Some
    }

    open spec fn token_means(token: Seq<char>, v: u64) -> bool {
        within(unsigned_value(token), 0, u64::MAX as int) == Some(v as int)
    }

    open spec fn label_text() -> Seq<char> {
        "u64"@
    }

    fn type_label() -> String {
        "u64".to_owned()
    }

    fn from_token(token: &str) -> (r: Option<u64>) {
        parse_u64(token)
    }
}

impl FromToken for usize {
    open spec fn token_valid(token: Seq<char>) -> bool {
        within(unsigned_value(token), 0, usize::MAX as int) is Some
    }

    open spec fn token_means(token: Seq<char>, v: usize) -> bool {
        within(unsigned_value(token), 0, usize::MAX as int) == Some(v as int)
    }

    open spec fn label_text() -> Seq<char> {
        "usize"@
    }

    fn type_label() -> String {
        "usize".to_owned()
    }

    fn from_token(token: &str) -> (r: Option<usize>) {
        parse_usize(token)
    }
}

impl FromToken for i32 {
    open spec fn token_valid(token: Seq<char>) -> bool {
        within(signed_value(token), i32::MIN as int, i32::MAX as int) is Some
    }

    open spec fn token_means(token: Seq<char>, v: i32) -> bool {
        within(signed_value(token), i32::MIN as int, i32::MAX as int) == Some(v as int)
    }

    open spec fn label_text() -> Seq<char> {
        "i32"@
    }

    fn type_label() -> String {
        "i32".to_owned()
    }

    fn from_token(token: &str) -> (r: Option<i32>) {
        parse_i32(token)
    }
}

impl FromToken for i64 {
    open spec fn token_valid(token: Seq<char>) -> bool {
        within(signed_value(token), i64::MIN as int, i64::MAX as int) is Some
    }

    open spec fn token_means(token: Seq<char>, v: i64) -> bool {
        within(signed_value(token), i64::MIN as int, i64::MAX as int) == Some(v as int)
    }

    open spec fn label_text() -> Seq<char> {
        "i64"@
    }

    fn type_label() -> String {
        "i64".to_owned()
    }

    fn from_token(token: &str) -> (r: Option<i64>) {
        parse_i64(token)
    }
}

impl FromToken for bool {
    open spec fn token_valid(token: Seq<char>) -> bool {
        token == "true"@ || token == "false"@
    }

    open spec fn token_means(token: Seq<char>, v: bool) -> bool {
        token == (if v { "true"@ } else { "false"@ })
    }

    open spec fn label_text() -> Seq<char> {
        "bool"@
    }

    fn type_label() -> String {
        "bool".to_owned()
    }

    fn from_token(token: &str) -> (r: Option<bool>) {
        let chars = crate::text::chars_of(token);
        let t = crate::text::chars_of("true");
        let f = crate::text::chars_of("false");
        if crate::text::chars_equal(&chars, &t) {
            Some(true)
        } else if crate::text::chars_equal(&chars, &f) {
            Some(false)
        } else {
            None
        }
    }
}

impl FromToken for char {
    open spec fn token_valid(token: Seq<char>) -> bool {
        token.len() == 1
    }

    open spec fn token_means(token: Seq<char>, v: char) -> bool {
        token == seq![v]
    }

    open spec fn label_text() -> Seq<char> {
        "char"@
    }

    fn type_label() -> String {
        "char".to_owned()
    }

    fn from_token(token: &str) -> (r: Option<char>) {
        let chars = crate::text::chars_of(token);
        if chars.len() == 1 {
            assert(chars@ =~= seq![chars@[0]]);
            Some(chars[0])
        } else {
            None
        }
    }
}

impl FromToken for String {
    open spec fn token_valid(token: Seq<char>) -> bool {
        true
    }

    open spec fn token_means(token: Seq<char>, v: String) -> bool {
        v@ == token
    }

    open spec fn label_text() -> Seq<char> {
        "alloc::string::String"@
    }

    fn type_label() -> String {
        "alloc::string::String".to_owned()
    }

    fn from_token(token: &str) -> (r: Option<String>) {
        Some(token.to_owned())
    }
}

/// The decimal text of a signed number.
pub open spec fn signed_decimal(n: int) -> Seq<char> {
    if n < 0 {
        seq!['-'] + spec_decimal((-n) as nat)
    } else {
        spec_decimal(n as nat)
    }
}

impl ToToken for u8 {
    open spec fn token_text(&self) -> Seq<char> {
        spec_decimal(*self as nat)
    }

    fn to_token(&self) -> (r: String) {
        crate::text::string_of(&crate::numbers::decimal_digits(*self as u64))
    }
}

impl ToToken for u16 {
    open spec fn token_text(&self) -> Seq<char> {
        spec_decimal(*self as nat)
    }

    fn to_token(&self) -> (r: String) {
        crate::text::string_of(&crate::numbers::decimal_digits(*self as u64))
    }
}

impl ToToken for u32 {
    open spec fn token_text(&self) -> Seq<char> {
        spec_decimal(*self as nat)
    }

    fn to_token(&self) -> (r: String) {
        crate::text::string_of(&crate::numbers::decimal_digits(*self as u64))
    }
}

impl ToToken for u64 {
    open spec fn token_text(&self) -> Seq<char> {
        spec_decimal(*self as nat)
    }

    fn to_token(&self) -> (r: String) {
        crate::text::string_of(&crate::numbers::decimal_digits(*self))
    }
}

impl ToToken for usize {
    open spec fn token_text(&self) -> Seq<char> {
        spec_decimal(*self as nat)
    }

    fn to_token(&self) -> (r: String) {
        crate::text::string_of(&crate::numbers::decimal_digits(*self as u64))
    }
}

impl ToToken for i32 {
    open spec fn token_text(&self) -> Seq<char> {
        signed_decimal(*self as int)
    }

    fn to_token(&self) -> (r: String) {
        let magnitude: u64 = if *self < 0 { (0 - (*self as i64)) as u64 } else { *self as u64 };
        let mut v: Vec<char> = Vec::new();
        if *self < 0 {
            v.push('-');
        }
        let digits = crate::numbers::decimal_digits(magnitude);
        crate::text::append_chars(&mut v, &digits);
        crate::text::string_of(&v)
    }
}

impl ToToken for i64 {
    open spec fn token_text(&self) -> Seq<char> {
        signed_decimal(*self as int)
    }

    fn to_token(&self) -> (r: String) {
        let magnitude: u64 = if *self < 0 { (0 - (*self as i128)) as u64 } else { *self as u64 };
        let mut v: Vec<char> = Vec::new();
        if *self < 0 {
            v.push('-');
        }
        let digits = crate::numbers::decimal_digits(magnitude);
        crate::text::append_chars(&mut v, &digits);
        crate::text::string_of(&v)
    }
}

impl ToToken for bool {
    open spec fn token_text(&self) -> Seq<char> {
        if *self { "true"@ } else { "false"@ }
    }

    fn to_token(&self) -> (r: String) {
        if *self { "true".to_owned() } else { "false".to_owned() }
    }
}

impl ToToken for char {
    open spec fn token_text(&self) -> Seq<char> {
        seq![*self]
    }

    fn to_token(&self) -> (r: String) {
        let mut v: Vec<char> = Vec::new();
        v.push(*self);
        crate::text::string_of(&v)
    }
}

impl ToToken for String {
    open spec fn token_text(&self) -> Seq<char> {
        self@
    }

    fn to_token(&self) -> (r: String) {
        self.clone()
    }
}

} // verus!
