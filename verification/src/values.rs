//! The value types of an item and their text forms.

use crate::error::ClosetError;
use crate::text::{
    all_digits, append, append_str, chars_of, decimal_of, decimal_text, decimal_up_to,
    decimal_value, digit, digit_char, digit_to_char, digit_value, digits_only, find, hex_char,
    hex_digit, hex_digit_to_char, hex_value, is_digit, is_hex_digit, is_text, lemma_decimal_text,
    lemma_find_is, folded_char, folded, position, slice, string_of, to_folded,
};
use vstd::prelude::*;

verus! {

// ---------------------------------------------------------------------------
// Kind
// ---------------------------------------------------------------------------

/// The part of the body that an item covers, which is also the slot of an
/// outfit that it fits.
#[derive(Debug, Clone, Copy, PartialEq, Eq, Structural)]
pub enum Kind {
    Chest,
    Leg,
    Foot,
}

impl Kind {
    /// The kind that a text names, letter case aside.
    pub open spec fn of_text(s: Seq<char>) -> Result<Kind, ClosetError> {
        let t = folded(s);
        if t == "chest"@ {
            Ok(Kind::Chest)
        } else if t == "leg"@ {
            Ok(Kind::Leg)
        } else if t == "foot"@ {
            Ok(Kind::Foot)
        } else {
            Err(ClosetError::InvalidKind)
        }
    }

    /// The text form of a kind.
    pub open spec fn text(self) -> Seq<char> {
        match self {
            Kind::Chest => "Chest"@,
            Kind::Leg => "Leg"@,
            Kind::Foot => "Foot"@,
        }
    }

    /// Reads a kind; the letters may be in either case.
    pub fn from_str(value: &str) -> (r: Result<Kind, ClosetError>)
        ensures
            r == Kind::of_text(value@),
    {
        let t = to_folded(&chars_of(value));
        if is_text(&t, "chest") {
            Ok(Kind::Chest)
        } else if is_text(&t, "leg") {
            Ok(Kind::Leg)
        } else if is_text(&t, "foot") {
            Ok(Kind::Foot)
        } else {
            Err(ClosetError::InvalidKind)
        }
    }

    /// Writes a kind.
    pub fn to_string(&self) -> (r: String)
        ensures
            r@ == self.text(),
    {
        match self {
            Kind::Chest => "Chest".to_owned(),
            Kind::Leg => "Leg".to_owned(),
            Kind::Foot => "Foot".to_owned(),
        }
    }
}

/// A kind that was written reads back as itself.
pub proof fn kind_round_trip(k: Kind)
    ensures
        Kind::of_text(k.text()) == Ok::<Kind, ClosetError>(k),
{
    reveal_strlit("Chest");
    reveal_strlit("Leg");
    reveal_strlit("Foot");
    reveal_strlit("chest");
    reveal_strlit("leg");
    reveal_strlit("foot");
    match k {
        Kind::Chest => {
            assert(folded("Chest"@) =~= "chest"@);
        },
        Kind::Leg => {
            assert(folded("Leg"@) =~= "leg"@);
            assert("leg"@.len() != "chest"@.len());
        },
        Kind::Foot => {
            assert(folded("Foot"@) =~= "foot"@);
            assert("foot"@.len() != "chest"@.len());
            assert("foot"@.len() != "leg"@.len());
        },
    }
}

// ---------------------------------------------------------------------------
// Sex
// ---------------------------------------------------------------------------

/// Whom an item is cut for.
#[derive(Debug, Clone, Copy, PartialEq, Eq, Structural)]
pub enum Sex {
    Male,
    Female,
    /// For anyone. The stored format spells it `Unissex`.
    Unissex,
}

impl Sex {
    /// The sex that a text names, letter case aside. The last one may be
    /// spelled `unisex` or `unissex`.
    pub open spec fn of_text(s: Seq<char>) -> Result<Sex, ClosetError> {
        let t = folded(s);
        if t == "male"@ {
            Ok(Sex::Male)
        } else if t == "female"@ {
            Ok(Sex::Female)
        } else if t == "unissex"@ || t == "unisex"@ {
            Ok(Sex::Unissex)
        } else {
            Err(ClosetError::InvalidSex)
        }
    }

    /// The text form of a sex.
    pub open spec fn text(self) -> Seq<char> {
        match self {
            Sex::Male => "Male"@,
            Sex::Female => "Female"@,
            Sex::Unissex => "Unissex"@,
        }
    }

    /// Reads a sex; the letters may be in either case.
    pub fn from_str(value: &str) -> (r: Result<Sex, ClosetError>)
        ensures
            r == Sex::of_text(value@),
    {
        let t = to_folded(&chars_of(value));
        if is_text(&t, "male") {
            Ok(Sex::Male)
        } else if is_text(&t, "female") {
            Ok(Sex::Female)
        } else if is_text(&t, "unissex") || is_text(&t, "unisex") {
            Ok(Sex::Unissex)
        } else {
            Err(ClosetError::InvalidSex)
        }
    }

    /// Writes a sex.
    pub fn to_string(&self) -> (r: String)
        ensures
            r@ == self.text(),
    {
        match self {
            Sex::Male => "Male".to_owned(),
            Sex::Female => "Female".to_owned(),
            Sex::Unissex => "Unissex".to_owned(),
        }
    }
}

/// A sex that was written reads back as itself.
pub proof fn sex_round_trip(x: Sex)
    ensures
        Sex::of_text(x.text()) == Ok::<Sex, ClosetError>(x),
{
    reveal_strlit("Male");
    reveal_strlit("Female");
    reveal_strlit("Unissex");
    reveal_strlit("male");
    reveal_strlit("female");
    reveal_strlit("unissex");
    match x {
        Sex::Male => {
            assert(folded("Male"@) =~= "male"@);
        },
        Sex::Female => {
            assert(folded("Female"@) =~= "female"@);
            assert("female"@.len() != "male"@.len());
        },
        Sex::Unissex => {
            assert(folded("Unissex"@) =~= "unissex"@);
            assert("unissex"@.len() != "male"@.len());
            assert("unissex"@.len() != "female"@.len());
        },
    }
}

// ---------------------------------------------------------------------------
// Size
// ---------------------------------------------------------------------------

/// The size of an item.
#[derive(Debug, Clone, Copy, PartialEq, Eq, Structural)]
pub enum Size {
    XS,
    S,
    M,
    L,
    XL,
}

impl Size {
    /// The size that a text names, letter case aside.
    pub open spec fn of_text(s: Seq<char>) -> Result<Size, ClosetError> {
        let t = folded(s);
        if t == "xs"@ {
            Ok(Size::XS)
        } else if t == "s"@ {
            Ok(Size::S)
        } else if t == "m"@ {
            Ok(Size::M)
        } else if t == "l"@ {
            Ok(Size::L)
        } else if t == "xl"@ {
            Ok(Size::XL)
        } else {
            Err(ClosetError::InvalidSize)
        }
    }

    /// The text form of a size.
    pub open spec fn text(self) -> Seq<char> {
        match self {
            Size::XS => "XS"@,
            Size::S => "S"@,
            Size::M => "M"@,
            Size::L => "L"@,
            Size::XL => "XL"@,
        }
    }

    /// Reads a size; the letters may be in either case.
    pub fn from_str(value: &str) -> (r: Result<Size, ClosetError>)
        ensures
            r == Size::of_text(value@),
    {
        let t = to_folded(&chars_of(value));
        if is_text(&t, "xs") {
            Ok(Size::XS)
        } else if is_text(&t, "s") {
            Ok(Size::S)
        } else if is_text(&t, "m") {
            Ok(Size::M)
        } else if is_text(&t, "l") {
            Ok(Size::L)
        } else if is_text(&t, "xl") {
            Ok(Size::XL)
        } else {
            Err(ClosetError::InvalidSize)
        }
    }

    /// Writes a size.
    pub fn to_string(&self) -> (r: String)
        ensures
            r@ == self.text(),
    {
        match self {
            Size::XS => "XS".to_owned(),
            Size::S => "S".to_owned(),
            Size::M => "M".to_owned(),
            Size::L => "L".to_owned(),
            Size::XL => "XL".to_owned(),
        }
    }
}

/// A size that was written reads back as itself.
pub proof fn size_round_trip(x: Size)
    ensures
        Size::of_text(x.text()) == Ok::<Size, ClosetError>(x),
{
    reveal_strlit("XS");
    reveal_strlit("S");
    reveal_strlit("M");
    reveal_strlit("L");
    reveal_strlit("XL");
    reveal_strlit("xs");
    reveal_strlit("s");
    reveal_strlit("m");
    reveal_strlit("l");
    reveal_strlit("xl");
    match x {
        Size::XS => {
            assert(folded("XS"@) =~= "xs"@);
        },
        Size::S => {
            assert(folded("S"@) =~= "s"@);
            assert("s"@.len() != "xs"@.len());
        },
        Size::M => {
            assert(folded("M"@) =~= "m"@);
            assert("m"@.len() != "xs"@.len());
            assert("m"@[0] != "s"@[0]);
        },
        Size::L => {
            assert(folded("L"@) =~= "l"@);
            assert("l"@.len() != "xs"@.len());
            assert("l"@[0] != "s"@[0]);
            assert("l"@[0] != "m"@[0]);
        },
        Size::XL => {
            assert(folded("XL"@) =~= "xl"@);
            assert("xl"@[1] != "xs"@[1]);
            assert("xl"@.len() != "s"@.len());
            assert("xl"@.len() != "m"@.len());
            assert("xl"@.len() != "l"@.len());
        },
    }
}

// ---------------------------------------------------------------------------
// Rgb
// ---------------------------------------------------------------------------

/// A color: red, green and blue, eight bits each.
#[derive(Debug, Clone, Copy, PartialEq, Eq, Structural)]
pub struct Rgb(pub u8, pub u8, pub u8);

/// The byte that two hexadecimal digits denote.
pub open spec fn hex_pair(hi: char, lo: char) -> u8 {
    (hex_value(hi) * 16 + hex_value(lo)) as u8
}

impl Rgb {
    /// The color that six hexadecimal digits denote; `None` for any other
    /// text.
    pub open spec fn of_hex(s: Seq<char>) -> Option<Rgb> {
        if s.len() == 6 && (forall|i: int| 0 <= i < 6 ==> is_hex_digit(#[trigger] s[i])) {
            Some(Rgb(hex_pair(s[0], s[1]), hex_pair(s[2], s[3]), hex_pair(s[4], s[5])))
        } else {
            None
        }
    }

    /// The six upper-case hexadecimal digits of a color.
    pub open spec fn hex(self) -> Seq<char> {
        seq![
            hex_char(self.0 as nat / 16),
            hex_char(self.0 as nat % 16),
            hex_char(self.1 as nat / 16),
            hex_char(self.1 as nat % 16),
            hex_char(self.2 as nat / 16),
            hex_char(self.2 as nat % 16),
        ]
    }

    /// The form in which a color is shown: `#` and the six digits.
    pub open spec fn text(self) -> Seq<char> {
        seq!['#'] + self.hex()
    }

    pub fn new(red: u8, green: u8, blue: u8) -> (c: Rgb)
        ensures
            c == Rgb(red, green, blue),
    {
        Rgb(red, green, blue)
    }

    /// Reads a color from exactly six hexadecimal digits.
    pub fn try_from_hex(hex: &str) -> (r: Option<Rgb>)
        ensures
            r == Rgb::of_hex(hex@),
    {
        let v = chars_of(hex);
        if v.len() != 6 {
            return None;
        }
        let mut bytes: [u8; 3] = [0, 0, 0];
        let mut i: usize = 0;
        while i < 3
            invariant
                i <= 3,
                v.len() == 6,
                v@ == hex@,
                forall|k: int| 0 <= k < 2 * i ==> is_hex_digit(#[trigger] v@[k]),
                forall|k: int| 0 <= k < i ==> bytes@[k] == hex_pair(v@[2 * k], v@[2 * k + 1]),
            decreases 3 - i,
        {
            let hi = hex_digit(v[2 * i]);
            let lo = hex_digit(v[2 * i + 1]);
            match (hi, lo) {
                (Some(h), Some(l)) => {
                    bytes[i] = h * 16 + l;
                },
                _ => {
                    assert(!is_hex_digit(v@[2 * i as int]) || !is_hex_digit(v@[2 * i + 1]));
                    return None;
                },
            }
            i += 1;
        }
        Some(Rgb(bytes[0], bytes[1], bytes[2]))
    }

    /// Writes a color as six upper-case hexadecimal digits.
    pub fn to_hex(&self) -> (r: String)
        ensures
            r@ == self.hex(),
    {
        let mut v: Vec<char> = Vec::new();
        v.push(hex_digit_to_char(self.0 / 16));
        v.push(hex_digit_to_char(self.0 % 16));
        v.push(hex_digit_to_char(self.1 / 16));
        v.push(hex_digit_to_char(self.1 % 16));
        v.push(hex_digit_to_char(self.2 / 16));
        v.push(hex_digit_to_char(self.2 % 16));
        assert(v@ =~= self.hex());
        string_of(&v)
    }

    /// Writes a color as it is shown: `#` and the six digits.
    pub fn to_string(&self) -> (r: String)
        ensures
            r@ == self.text(),
    {
        let mut v: Vec<char> = Vec::new();
        v.push('#');
        let h = self.to_hex();
        append_str(&mut v, h.as_str());
        assert(v@ =~= self.text());
        string_of(&v)
    }
}

/// A color that was written reads back as itself.
pub proof fn rgb_round_trip(c: Rgb)
    ensures
        Rgb::of_hex(c.hex()) == Some(c),
{
    let s = c.hex();
    assert forall|i: int| 0 <= i < 6 implies is_hex_digit(#[trigger] s[i]) by {}
    assert(hex_pair(s[0], s[1]) == c.0);
    assert(hex_pair(s[2], s[3]) == c.1);
    assert(hex_pair(s[4], s[5]) == c.2);
}

// ---------------------------------------------------------------------------
// Target
// ---------------------------------------------------------------------------

/// What is to become of an item.
#[derive(Debug, Clone, Copy, PartialEq, Eq, Structural)]
pub enum Target {
    /// For sale, at a price in cents.
    Sale(u64),
    Donation,
    Keep,
}

/// The hundredths that the digits after a decimal point denote. Digits after
/// the second are dropped.
pub open spec fn hundredths(frac: Seq<char>) -> nat {
    (if frac.len() >= 1 {
        digit_value(frac[0]) * 10
    } else {
        0
    }) + (if frac.len() >= 2 {
        digit_value(frac[1])
    } else {
        0
    })
}

/// The digits in front of the decimal point of `s`, or all of `s` where it
/// has no point.
pub open spec fn whole_part(s: Seq<char>) -> Seq<char> {
    s.take(find(s, '.'))
}

/// The digits behind the decimal point of `s`; empty where it has no point.
pub open spec fn fraction_part(s: Seq<char>) -> Seq<char> {
    if find(s, '.') < s.len() {
        s.skip(find(s, '.') + 1)
    } else {
        Seq::empty()
    }
}

/// The number of cents that a decimal number denotes, rounded towards zero.
/// A decimal number is made of digits, with at most one point among them and
/// at least one digit. `None` for any other text.
pub open spec fn decimal_cents(s: Seq<char>) -> Option<nat> {
    let whole = whole_part(s);
    let frac = fraction_part(s);
    if all_digits(whole) && all_digits(frac) && whole.len() + frac.len() > 0 {
        Some(decimal_value(whole) * 100 + hundredths(frac))
    } else {
        None
    }
}

/// `n`, or the largest 64-bit number where `n` is beyond it.
pub open spec fn saturated(n: nat) -> u64 {
    if n > u64::MAX {
        u64::MAX
    } else {
        n as u64
    }
}

impl Target {
    /// The disposition that a text names, letter case aside: `donation`,
    /// `keep`, or `sale for $` and a decimal number, the price.
    pub open spec fn of_text(s: Seq<char>) -> Result<Target, ClosetError> {
        let t = folded(s);
        let i = find(t, '$');
        if i < t.len() {
            if t.take(i) == "sale for "@ {
                match decimal_cents(t.skip(i + 1)) {
                    Some(c) => Ok(Target::Sale(saturated(c))),
                    None => Err(ClosetError::InvalidPrice),
                }
            } else {
                Err(ClosetError::InvalidTarget)
            }
        } else if t == "donation"@ {
            Ok(Target::Donation)
        } else if t == "keep"@ {
            Ok(Target::Keep)
        } else {
            Err(ClosetError::InvalidTarget)
        }
    }

    /// The text form of a disposition. A price is written with two digits
    /// behind the point.
    pub open spec fn text(self) -> Seq<char> {
        match self {
            Target::Sale(c) => "Sale for $"@ + decimal_text(c as nat / 100) + seq![
                '.',
                digit_char(c as nat % 100 / 10),
                digit_char(c as nat % 10),
            ],
            Target::Donation => "Donation"@,
            Target::Keep => "Keep"@,
        }
    }

    /// Reads a disposition; the letters may be in either case.
    pub fn from_str(value: &str) -> (r: Result<Target, ClosetError>)
        ensures
            r == Target::of_text(value@),
    {
        let t = to_folded(&chars_of(value));
        let i = position(&t, 0, '$');
        assert(t@.skip(0) =~= t@);
        if i < t.len() {
            let prefix = slice(&t, 0, i);
            assert(prefix@ =~= t@.take(i as int));
            if is_text(&prefix, "sale for ") {
                let price = slice(&t, i + 1, t.len());
                assert(price@ =~= t@.skip(i + 1));
                match cents_of(&price) {
                    Some(c) => Ok(Target::Sale(c)),
                    None => Err(ClosetError::InvalidPrice),
                }
            } else {
                Err(ClosetError::InvalidTarget)
            }
        } else if is_text(&t, "donation") {
            Ok(Target::Donation)
        } else if is_text(&t, "keep") {
            Ok(Target::Keep)
        } else {
            Err(ClosetError::InvalidTarget)
        }
    }

    /// Writes a disposition.
    pub fn to_string(&self) -> (r: String)
        ensures
            r@ == self.text(),
    {
        match self {
            Target::Sale(c) => {
                let mut v = chars_of("Sale for $");
                let whole = decimal_of(*c / 100);
                append(&mut v, &whole);
                v.push('.');
                v.push(digit_to_char((*c % 100 / 10) as u8));
                v.push(digit_to_char((*c % 10) as u8));
                assert(v@ =~= self.text());
                string_of(&v)
            },
            Target::Donation => "Donation".to_owned(),
            Target::Keep => "Keep".to_owned(),
        }
    }
}

/// The number of cents that a decimal number denotes, no more than the
/// largest 64-bit number.
pub fn cents_of(v: &Vec<char>) -> (r: Option<u64>)
    ensures
        r == (match decimal_cents(v@) {
            Some(c) => Some(saturated(c)),
            None => None,
        }),
{
    let dot = position(v, 0, '.');
    assert(v@.skip(0) =~= v@);
    let whole = slice(v, 0, dot);
    let frac = if dot < v.len() {
        slice(v, dot + 1, v.len())
    } else {
        Vec::new()
    };
    assert(whole@ =~= whole_part(v@));
    assert(frac@ =~= fraction_part(v@));
    if !digits_only(&whole) || !digits_only(&frac) || (whole.len() == 0 && frac.len() == 0) {
        return None;
    }
    let mut h: u64 = 0;
    if frac.len() >= 1 {
        let d = digit(frac[0]);
        assert(is_digit(frac@[0]));
        h = d.unwrap() as u64 * 10;
    }
    if frac.len() >= 2 {
        let d = digit(frac[1]);
        assert(is_digit(frac@[1]));
        h = h + d.unwrap() as u64;
    }
    assert(h == hundredths(frac@));
    match decimal_up_to(&whole, 184_467_440_737_095_516) {
        None => Some(u64::MAX),
        Some(w) => {
            let base: u64 = w * 100;
            if h > u64::MAX - base {
                Some(u64::MAX)
            } else {
                Some(base + h)
            }
        },
    }
}

/// A disposition that was written reads back as itself.
pub proof fn target_round_trip(t: Target)
    ensures
        Target::of_text(t.text()) == Ok::<Target, ClosetError>(t),
{
    reveal_strlit("Sale for $");
    reveal_strlit("sale for ");
    reveal_strlit("Donation");
    reveal_strlit("donation");
    reveal_strlit("Keep");
    reveal_strlit("keep");
    match t {
        Target::Donation => {
            let l = folded("Donation"@);
            assert(l =~= "donation"@);
            assert forall|k: int| 0 <= k < l.len() implies l[k] != '$' by {}
            lemma_find_is(l, '$', l.len() as int);
        },
        Target::Keep => {
            let l = folded("Keep"@);
            assert(l =~= "keep"@);
            assert forall|k: int| 0 <= k < l.len() implies l[k] != '$' by {}
            lemma_find_is(l, '$', l.len() as int);
            assert("keep"@.len() != "donation"@.len());
        },
        Target::Sale(c) => {
            let digits = decimal_text(c as nat / 100);
            let cents = seq!['.', digit_char(c as nat % 100 / 10), digit_char(c as nat % 10)];
            let price = digits + cents;
            lemma_decimal_text(c as nat / 100);
            let l = folded(t.text());
            assert(l =~= "sale for "@ + seq!['$'] + price) by {
                assert forall|k: int| 0 <= k < price.len() implies folded_char(price[k])
                    == price[k] by {
                    if k < digits.len() {
                        assert(is_digit(digits[k]));
                    }
                }
                assert(l.len() == 10 + price.len());
                assert forall|k: int| 0 <= k < l.len() implies l[k] == ("sale for "@ + seq!['$']
                    + price)[k] by {
                    if k >= 10 {
                        assert(t.text()[k] == price[k - 10]);
                    }
                }
            }
            assert forall|k: int| 0 <= k < 9 implies l[k] != '$' by {}
            lemma_find_is(l, '$', 9);
            assert(l.take(9) =~= "sale for "@);
            assert(l.skip(10) =~= price);
            assert forall|k: int| 0 <= k < digits.len() implies price[k] != '.' by {
                assert(is_digit(digits[k]));
            }
            lemma_find_is(price, '.', digits.len() as int);
            assert(whole_part(price) =~= digits);
            let frac = fraction_part(price);
            assert(frac =~= seq![digit_char(c as nat % 100 / 10), digit_char(c as nat % 10)]);
            assert(all_digits(frac));
            assert(hundredths(frac) == c as nat % 100);
            assert(decimal_cents(price) == Some(c as nat));
        },
    }
}

} // verus!
