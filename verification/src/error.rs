//! The failures that the registries, the codecs and the record extractor
//! report.

use vstd::prelude::*;

verus! {

/// A field of a stored record or of a draft.
#[derive(Debug, Clone, Copy, PartialEq, Eq, Structural)]
pub enum Field {
    Id,
    Kind,
    Sex,
    Size,
    Color,
    Price,
    Target,
    PurchaseDate,
    Style,
    Chest,
    Leg,
    Foot,
}

/// Why an operation on the closet, or the reading of a stored record, failed.
#[derive(Debug, Clone, Copy, PartialEq, Eq, Structural)]
pub enum ClosetError {
    /// The text names no kind of clothing.
    InvalidKind,
    /// The text names no sex.
    InvalidSex,
    /// The text names no size.
    InvalidSize,
    /// The text is not six hexadecimal digits.
    InvalidColor,
    /// The text after `sale for $` is no decimal number.
    InvalidPrice,
    /// The text names no disposition.
    InvalidTarget,
    /// The text is no calendar date written as `YYYY-MM-DD`.
    InvalidDate,
    /// The registry already holds a record with this id.
    DuplicateId,
    /// The registry holds no record with this id.
    NotFound,
    /// The registry already holds an outfit of the same three items.
    DuplicateOutfit,
    /// A slot refers to an item that the item registry does not hold.
    BrokenReference,
    /// The three items of an outfit do not share one style.
    StyleMismatch,
    /// An item's kind does not fit the slot it was put in.
    InvalidComposition,
    /// A draft was finished while this field was still empty.
    IncompleteDraft(Field),
    /// The registry cannot hold another record.
    Full,
    /// A chunk lacks this field.
    MissingField(Field),
    /// A chunk gives this field a value of the other kind: a number where a
    /// text is due, or a text where a number is due.
    WrongType(Field),
    /// An outfit chunk names, for this slot, an id that no item has.
    InvalidReference(Field),
    /// This field of an item cannot change while an outfit holds the item.
    InUse(Field),
}

/// The name of a field as the stored format writes it.
pub open spec fn field_name(f: Field) -> Seq<char> {
    match f {
        Field::Id => "id"@,
        Field::Kind => "kind"@,
        Field::Sex => "sex"@,
        Field::Size => "size"@,
        Field::Color => "color"@,
        Field::Price => "price"@,
        Field::Target => "target"@,
        Field::PurchaseDate => "purchase_date"@,
        Field::Style => "style"@,
        Field::Chest => "chest"@,
        Field::Leg => "leg"@,
        Field::Foot => "foot"@,
    }
}

/// Whether the stored format holds a number in this field, and not a text.
pub open spec fn is_number_field(f: Field) -> bool {
    f == Field::Id || f == Field::Chest || f == Field::Leg || f == Field::Foot
}

/// The sentence that reports a failure.
pub open spec fn message_text(e: ClosetError) -> Seq<char> {
    match e {
        ClosetError::InvalidKind => "Invalid kind."@,
        ClosetError::InvalidSex => "Invalid sex."@,
        ClosetError::InvalidSize => "Invalid size."@,
        ClosetError::InvalidColor => "Invalid color."@,
        ClosetError::InvalidPrice => "Invalid price."@,
        ClosetError::InvalidTarget => "Invalid target."@,
        ClosetError::InvalidDate => "Invalid date."@,
        ClosetError::DuplicateId => "A clothing with the same id already exists in 'Clothes'"@,
        ClosetError::NotFound => "Clothing not found."@,
        ClosetError::DuplicateOutfit => "This outfit already exists!"@,
        ClosetError::BrokenReference => "A clothing of the clothing set no longer exists."@,
        ClosetError::StyleMismatch => "The clothes of a clothing set must have the same style."@,
        ClosetError::InvalidComposition => "Invalid clothing set!"@,
        ClosetError::IncompleteDraft(f) => "Missing '"@ + field_name(f) + "' field on buffer."@,
        ClosetError::Full => "No id is left."@,
        ClosetError::MissingField(f) => "Missing '"@ + field_name(f) + "' field."@,
        ClosetError::WrongType(f) => if is_number_field(f) {
            "'"@ + field_name(f) + "' is not a text field."@
        } else {
            "'"@ + field_name(f) + "' is not a numerical field."@
        },
        ClosetError::InvalidReference(f) => "Invalid '"@ + field_name(f) + "' id."@,
        ClosetError::InUse(f) => "Can't update the "@ + field_name(f)
            + " of a clothing that is in some outfit."@,
    }
}

impl Field {
    /// The name of the field as the stored format writes it.
    pub fn name(&self) -> (r: &'static str)
        ensures
            r@ == field_name(*self),
    {
        match self {
            Field::Id => "id",
            Field::Kind => "kind",
            Field::Sex => "sex",
            Field::Size => "size",
            Field::Color => "color",
            Field::Price => "price",
            Field::Target => "target",
            Field::PurchaseDate => "purchase_date",
            Field::Style => "style",
            Field::Chest => "chest",
            Field::Leg => "leg",
            Field::Foot => "foot",
        }
    }

    /// Whether the stored format holds a number in this field.
    pub fn is_number(&self) -> (r: bool)
        ensures
            r == is_number_field(*self),
    {
        match self {
            Field::Id | Field::Chest | Field::Leg | Field::Foot => true,
            _ => false,
        }
    }
}

impl ClosetError {
    /// The sentence that reports this failure.
    pub fn to_string(&self) -> (r: String)
        ensures
            r@ == message_text(*self),
    {
        match self {
            ClosetError::InvalidKind => "Invalid kind.".to_owned(),
            ClosetError::InvalidSex => "Invalid sex.".to_owned(),
            ClosetError::InvalidSize => "Invalid size.".to_owned(),
            ClosetError::InvalidColor => "Invalid color.".to_owned(),
            ClosetError::InvalidPrice => "Invalid price.".to_owned(),
            ClosetError::InvalidTarget => "Invalid target.".to_owned(),
            ClosetError::InvalidDate => "Invalid date.".to_owned(),
            ClosetError::DuplicateId => {
                "A clothing with the same id already exists in 'Clothes'".to_owned()
            },
            ClosetError::NotFound => "Clothing not found.".to_owned(),
            ClosetError::DuplicateOutfit => "This outfit already exists!".to_owned(),
            ClosetError::BrokenReference => {
                "A clothing of the clothing set no longer exists.".to_owned()
            },
            ClosetError::StyleMismatch => {
                "The clothes of a clothing set must have the same style.".to_owned()
            },
            ClosetError::InvalidComposition => "Invalid clothing set!".to_owned(),
            ClosetError::IncompleteDraft(f) => around("Missing '", f.name(), "' field on buffer."),
            ClosetError::Full => "No id is left.".to_owned(),
            ClosetError::MissingField(f) => around("Missing '", f.name(), "' field."),
            ClosetError::WrongType(f) => if f.is_number() {
                around("'", f.name(), "' is not a text field.")
            } else {
                around("'", f.name(), "' is not a numerical field.")
            },
            ClosetError::InvalidReference(f) => around("Invalid '", f.name(), "' id."),
            ClosetError::InUse(f) => around(
                "Can't update the ",
                f.name(),
                " of a clothing that is in some outfit.",
            ),
        }
    }
}

/// `middle` between `before` and `after`.
pub fn around(before: &str, middle: &str, after: &str) -> (r: String)
    ensures
        r@ == before@ + middle@ + after@,
{
    let mut v = crate::text::chars_of(before);
    crate::text::append_str(&mut v, middle);
    crate::text::append_str(&mut v, after);
    crate::text::string_of(&v)
}

} // verus!
