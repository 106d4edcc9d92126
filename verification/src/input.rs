//! What the answers of a user mean: a choice in a menu, a price, a color, a
//! name, the id of an item or of an outfit.
//!
//! The functions take the answer as it was read, trimmed and not empty. The
//! word `exit`, in whatever case, gives the matter up.

use crate::closet::{
    has_id, item, outfit_ids, Clothes, Clth, Kind, Outfit, Outfits, Rgb, Sex, Size, Target,
};
use crate::ids::index_of;
use crate::menu::{Act, Item, Menu};
use crate::text::{
    chars_of, folded, is_text, lowercase_of, parse_unsigned, slice, string_of, to_folded,
    to_lowercase, unsigned_up_to,
};
use crate::values::{cents_of, decimal_cents, saturated};
use vstd::prelude::*;

verus! {

/// How grave a failure to get an answer is.
#[derive(Debug, Clone, Copy, PartialEq, Eq, Structural)]
pub enum ErrType {
    /// The answer was wrong: the question can be asked again.
    Recover,
    /// The user gave the matter up.
    Abort,
    /// The program cannot go on; it ends with this code.
    Fatal(u8),
}

/// A failure to get an answer.
#[derive(Debug)]
pub struct InputErr {
    pub class: ErrType,
    pub msg: String,
}

/// What a failure to get an answer holds.
pub struct InputErrView {
    pub class: ErrType,
    pub msg: Seq<char>,
}

impl View for InputErr {
    type V = InputErrView;

    open spec fn view(&self) -> InputErrView {
        InputErrView { class: self.class, msg: self.msg@ }
    }
}

/// The failure of a user who gave the matter up.
pub open spec fn aborted() -> InputErrView {
    InputErrView { class: ErrType::Abort, msg: "Aborted by the user."@ }
}

/// The failure of a wrong answer.
pub open spec fn wrong_answer(msg: Seq<char>) -> InputErrView {
    InputErrView { class: ErrType::Recover, msg }
}

/// What is to be done about a failure.
#[derive(Debug, Clone, Copy, PartialEq, Eq, Structural)]
pub enum Reaction {
    /// Ask again.
    Retry,
    /// Give the matter up.
    GiveUp,
    /// End the program with this code.
    Exit(u8),
}

/// What is to be done about a failure of this class.
pub open spec fn reaction_to(class: ErrType) -> Reaction {
    match class {
        ErrType::Recover => Reaction::Retry,
        ErrType::Abort => Reaction::GiveUp,
        ErrType::Fatal(code) => Reaction::Exit(code),
    }
}

/// What is reported of a failure.
pub open spec fn report_of(e: InputErrView) -> Seq<char> {
    match e.class {
        ErrType::Fatal(_) => "FATAL error: "@ + e.msg,
        _ => e.msg,
    }
}

impl InputErr {
    /// The failure of a user who gave the matter up.
    pub fn user_abort() -> (e: InputErr)
        ensures
            e@ == aborted(),
    {
        InputErr { class: ErrType::Abort, msg: "Aborted by the user.".to_owned() }
    }

    /// The failure of a wrong answer, with what is to be said about it.
    pub fn wrong(msg: &str) -> (e: InputErr)
        ensures
            e@ == wrong_answer(msg@),
    {
        InputErr { class: ErrType::Recover, msg: msg.to_owned() }
    }

    /// What is to be reported of a failure, and what is to be done about it.
    pub fn handle(err: &InputErr) -> (r: (String, Reaction))
        ensures
            r.0@ == report_of(err@),
            r.1 == reaction_to(err.class),
    {
        match err.class {
            ErrType::Recover => (err.msg.clone(), Reaction::Retry),
            ErrType::Abort => (err.msg.clone(), Reaction::GiveUp),
            ErrType::Fatal(code) => {
                let mut v = chars_of("FATAL error: ");
                crate::text::append_str(&mut v, err.msg.as_str());
                (string_of(&v), Reaction::Exit(code))
            },
        }
    }
}

/// Whether an answer gives the matter up.
pub open spec fn is_exit(answer: Seq<char>) -> bool {
    folded(answer) == "exit"@
}

/// Whether a menu is made of one action for each label, in their order,
/// whose values are the positions of the labels.
pub open spec fn offers(m: Menu<usize>, labels: Seq<Seq<char>>) -> bool {
    &&& m.items@.len() == labels.len()
    &&& forall|i: int|
        0 <= i < labels.len() ==> match #[trigger] m.items@[i] {
            Item::Action(act) => act.label@ == labels[i] && act.value == i,
            Item::Submenu(_) => false,
        }
}

/// The texts of the labels.
pub open spec fn label_views(labels: Seq<&str>) -> Seq<Seq<char>> {
    Seq::new(labels.len(), |i: int| labels[i]@)
}

/// A menu of actions, one for each label, whose values are the positions of
/// the labels.
pub fn menu_from_vec(label: &str, vec: &[&str]) -> (m: Menu<usize>)
    ensures
        m.label@ == label@,
        offers(m, label_views(vec@)),
{
    let mut menu: Menu<usize> = Menu::new(label);
    let mut i: usize = 0;
    while i < vec.len()
        invariant
            i <= vec@.len(),
            menu.label@ == label@,
            offers(menu, label_views(vec@).take(i as int)),
        decreases vec@.len() - i,
    {
        menu.add_action(Act::new(vec[i], i));
        i += 1;
    }
    assert(label_views(vec@).take(i as int) =~= label_views(vec@));
    menu
}

/// The menu in which a kind is chosen.
pub fn kind_menu() -> (m: Menu<usize>)
    ensures
        m.label@ == "kind menu"@,
        offers(m, seq!["Chest"@, "Leg"@, "Foot"@, "Exit"@]),
{
    let labels = ["Chest", "Leg", "Foot", "Exit"];
    assert(label_views(labels@) =~= seq!["Chest"@, "Leg"@, "Foot"@, "Exit"@]);
    menu_from_vec("kind menu", &labels)
}

/// The menu in which a sex is chosen.
pub fn sex_menu() -> (m: Menu<usize>)
    ensures
        m.label@ == "sex menu"@,
        offers(m, seq!["Male"@, "Female"@, "Unissex"@, "Exit"@]),
{
    let labels = ["Male", "Female", "Unissex", "Exit"];
    assert(label_views(labels@) =~= seq!["Male"@, "Female"@, "Unissex"@, "Exit"@]);
    menu_from_vec("sex menu", &labels)
}

/// The menu in which a size is chosen.
pub fn size_menu() -> (m: Menu<usize>)
    ensures
        m.label@ == "size menu"@,
        offers(m, seq!["XS"@, "S"@, "M"@, "L"@, "XL"@, "Exit"@]),
{
    let labels = ["XS", "S", "M", "L", "XL", "Exit"];
    assert(label_views(labels@) =~= seq!["XS"@, "S"@, "M"@, "L"@, "XL"@, "Exit"@]);
    menu_from_vec("size menu", &labels)
}

/// The menu in which a disposition is chosen.
pub fn target_menu() -> (m: Menu<usize>)
    ensures
        m.label@ == "target menu"@,
        offers(m, seq!["Donation"@, "Sale"@, "Keep"@, "Exit"@]),
{
    let labels = ["Donation", "Sale", "Keep", "Exit"];
    assert(label_views(labels@) =~= seq!["Donation"@, "Sale"@, "Keep"@, "Exit"@]);
    menu_from_vec("target menu", &labels)
}

/// The menu in which the field of an item is chosen.
pub fn field_menu() -> (m: Menu<usize>)
    ensures
        m.label@ == "field menu"@,
        offers(m, seq!["Color"@, "Kind"@, "Size"@, "Sex"@, "Target"@, "Style"@, "Exit"@]),
{
    let labels = ["Color", "Kind", "Size", "Sex", "Target", "Style", "Exit"];
    assert(label_views(labels@) =~= seq![
        "Color"@,
        "Kind"@,
        "Size"@,
        "Sex"@,
        "Target"@,
        "Style"@,
        "Exit"@,
    ]);
    menu_from_vec("field menu", &labels)
}

/// The kind at a position of the menu `Chest`, `Leg`, `Foot`, `Exit`.
pub open spec fn kind_choice(sel_index: usize) -> Option<Kind> {
    if sel_index == 0 {
        Some(Kind::Chest)
    } else if sel_index == 1 {
        Some(Kind::Leg)
    } else if sel_index == 2 {
        Some(Kind::Foot)
    } else {
        None
    }
}

/// The sex at a position of the menu `Male`, `Female`, `Unissex`, `Exit`.
pub open spec fn sex_choice(sel_index: usize) -> Option<Sex> {
    if sel_index == 0 {
        Some(Sex::Male)
    } else if sel_index == 1 {
        Some(Sex::Female)
    } else if sel_index == 2 {
        Some(Sex::Unissex)
    } else {
        None
    }
}

/// The size at a position of the menu `XS`, `S`, `M`, `L`, `XL`, `Exit`.
pub open spec fn size_choice(sel_index: usize) -> Option<Size> {
    if sel_index == 0 {
        Some(Size::XS)
    } else if sel_index == 1 {
        Some(Size::S)
    } else if sel_index == 2 {
        Some(Size::M)
    } else if sel_index == 3 {
        Some(Size::L)
    } else if sel_index == 4 {
        Some(Size::XL)
    } else {
        None
    }
}

/// The disposition at a position of the menu `Donation`, `Sale`, `Keep`,
/// `Exit`, where a sale is at the given price.
pub open spec fn target_choice(sel_index: usize, price: u64) -> Option<Target> {
    if sel_index == 0 {
        Some(Target::Donation)
    } else if sel_index == 1 {
        Some(Target::Sale(price))
    } else if sel_index == 2 {
        Some(Target::Keep)
    } else {
        None
    }
}

/// The name of the field at a position of the menu `Color`, `Kind`, `Size`,
/// `Sex`, `Target`, `Style`, `Exit`.
pub open spec fn field_choice(sel_index: usize) -> Option<Seq<char>> {
    if sel_index == 0 {
        Some("color"@)
    } else if sel_index == 1 {
        Some("kind"@)
    } else if sel_index == 2 {
        Some("size"@)
    } else if sel_index == 3 {
        Some("sex"@)
    } else if sel_index == 4 {
        Some("target"@)
    } else if sel_index == 5 {
        Some("style"@)
    } else {
        None
    }
}

/// The kind that was chosen in the menu of kinds.
pub fn kind(sel_index: usize) -> (r: Result<Kind, InputErr>)
    ensures
        match r {
            Ok(k) => kind_choice(sel_index) == Some(k),
            Err(e) => kind_choice(sel_index) is None && e@ == aborted(),
        },
{
    match sel_index {
        0 => Ok(Kind::Chest),
        1 => Ok(Kind::Leg),
        2 => Ok(Kind::Foot),
        _ => Err(InputErr::user_abort()),
    }
}

/// The sex that was chosen in the menu of sexes.
pub fn sex(sel_index: usize) -> (r: Result<Sex, InputErr>)
    ensures
        match r {
            Ok(s) => sex_choice(sel_index) == Some(s),
            Err(e) => sex_choice(sel_index) is None && e@ == aborted(),
        },
{
    match sel_index {
        0 => Ok(Sex::Male),
        1 => Ok(Sex::Female),
        2 => Ok(Sex::Unissex),
        _ => Err(InputErr::user_abort()),
    }
}

/// The size that was chosen in the menu of sizes.
pub fn size(sel_index: usize) -> (r: Result<Size, InputErr>)
    ensures
        match r {
            Ok(s) => size_choice(sel_index) == Some(s),
            Err(e) => size_choice(sel_index) is None && e@ == aborted(),
        },
{
    match sel_index {
        0 => Ok(Size::XS),
        1 => Ok(Size::S),
        2 => Ok(Size::M),
        3 => Ok(Size::L),
        4 => Ok(Size::XL),
        _ => Err(InputErr::user_abort()),
    }
}

/// The disposition that was chosen in the menu of dispositions.
pub fn target(sel_index: usize, price: u64) -> (r: Result<Target, InputErr>)
    ensures
        match r {
            Ok(t) => target_choice(sel_index, price) == Some(t),
            Err(e) => target_choice(sel_index, price) is None && e@ == aborted(),
        },
{
    match sel_index {
        0 => Ok(Target::Donation),
        1 => Ok(Target::Sale(price)),
        2 => Ok(Target::Keep),
        _ => Err(InputErr::user_abort()),
    }
}

/// The name of the field that was chosen in the menu of fields.
pub fn select_clth_field(sel_index: usize) -> (r: Result<String, InputErr>)
    ensures
        match r {
            Ok(name) => field_choice(sel_index) == Some(name@),
            Err(e) => field_choice(sel_index) is None && e@ == aborted(),
        },
{
    match sel_index {
        0 => Ok("color".to_owned()),
        1 => Ok("kind".to_owned()),
        2 => Ok("size".to_owned()),
        3 => Ok("sex".to_owned()),
        4 => Ok("target".to_owned()),
        5 => Ok("style".to_owned()),
        _ => Err(InputErr::user_abort()),
    }
}

/// The price in cents that an answer names: a decimal number.
pub fn price(answer: &str) -> (r: Result<u64, InputErr>)
    ensures
        match r {
            Ok(cents) => !is_exit(answer@) && decimal_cents(answer@) is Some && cents
                == saturated(decimal_cents(answer@)->0),
            Err(e) => if is_exit(answer@) {
                e@ == aborted()
            } else {
                decimal_cents(answer@) is None && e@ == wrong_answer("Invalid price!"@)
            },
        },
{
    let v = chars_of(answer);
    if is_text(&to_folded(&v), "exit") {
        return Err(InputErr::user_abort());
    }
    match cents_of(&v) {
        Some(cents) => Ok(cents),
        None => Err(InputErr::wrong("Invalid price!")),
    }
}

/// The color that an answer names: `#` and six hexadecimal digits.
pub open spec fn color_of(answer: Seq<char>) -> Option<Rgb> {
    if answer.len() > 0 && answer[0] == '#' {
        Rgb::of_hex(folded(answer).drop_first())
    } else {
        None
    }
}

/// The color that an answer names.
pub fn color(answer: &str) -> (r: Result<Rgb, InputErr>)
    ensures
        match r {
            Ok(c) => !is_exit(answer@) && color_of(answer@) == Some(c),
            Err(e) => if is_exit(answer@) {
                e@ == aborted()
            } else {
                color_of(answer@) is None && e@ == wrong_answer(
                    "Invalid color! Help: valid colors are hex colors."@,
                )
            },
        },
{
    let v = to_folded(&chars_of(answer));
    if is_text(&v, "exit") {
        return Err(InputErr::user_abort());
    }
    let found = if v.len() > 0 && v[0] == '#' {
        let rest = slice(&v, 1, v.len());
        assert(rest@ =~= folded(answer@).drop_first());
        Rgb::try_from_hex(string_of(&rest).as_str())
    } else {
        None
    };
    match found {
        Some(c) => Ok(c),
        None => Err(InputErr::wrong("Invalid color! Help: valid colors are hex colors.")),
    }
}

/// The name of a style that an answer gives: the answer in lower case.
pub fn style_name(answer: &str) -> (r: Result<String, InputErr>)
    ensures
        match r {
            Ok(name) => !is_exit(answer@) && name@ == lowercase_of(answer@),
            Err(e) => is_exit(answer@) && e@ == aborted(),
        },
{
    let v = to_folded(&chars_of(answer));
    if is_text(&v, "exit") {
        return Err(InputErr::user_abort());
    }
    Ok(to_lowercase(answer))
}

/// The id that an answer names: an unsigned decimal literal of 32 bits.
pub open spec fn id_of(answer: Seq<char>) -> Option<u32> {
    match unsigned_up_to(folded(answer), u32::MAX as u64) {
        Some(n) => Some(n as u32),
        None => None,
    }
}

/// Why no item can be picked on this answer, if that is so.
pub open spec fn clth_refusal(items: Seq<crate::closet::ClthView>, answer: Seq<char>) -> Option<
    InputErrView,
> {
    if items.len() == 0 {
        Some(InputErrView { class: ErrType::Abort, msg: "No clothes to choose from."@ })
    } else if is_exit(answer) {
        Some(aborted())
    } else if id_of(answer) is None {
        Some(wrong_answer("Invalid number!"@))
    } else if !has_id(items, id_of(answer)->0) {
        Some(wrong_answer("Invalid id!"@))
    } else {
        None
    }
}

/// The item that an answer names by its id.
pub fn select_clth<'a>(clothes: &'a Clothes, answer: &str) -> (r: Result<&'a Clth, InputErr>)
    ensures
        match r {
            Ok(c) => clth_refusal(clothes@, answer@) is None && c@ == item(
                clothes@,
                id_of(answer@)->0,
            ) && c@.id == id_of(answer@)->0,
            Err(e) => clth_refusal(clothes@, answer@) == Some(e@),
        },
{
    if clothes.is_empty() {
        return Err(
            InputErr { class: ErrType::Abort, msg: "No clothes to choose from.".to_owned() },
        );
    }
    let v = to_folded(&chars_of(answer));
    if is_text(&v, "exit") {
        return Err(InputErr::user_abort());
    }
    let id = match parse_unsigned(&v, u32::MAX as u64) {
        Some(n) => n as u32,
        None => {
            return Err(InputErr::wrong("Invalid number!"));
        },
    };
    match clothes.get(id) {
        Some(c) => Ok(c),
        None => Err(InputErr::wrong("Invalid id!")),
    }
}

/// Why no outfit can be picked on this answer, if that is so.
pub open spec fn outfit_refusal(outfits: Seq<crate::closet::OutfitView>, answer: Seq<char>)
    -> Option<InputErrView> {
    if outfits.len() == 0 {
        Some(InputErrView { class: ErrType::Abort, msg: "No outfits to choose from."@ })
    } else if is_exit(answer) {
        Some(aborted())
    } else if id_of(answer) is None {
        Some(wrong_answer("Invalid number!"@))
    } else if !outfit_ids(outfits).contains(id_of(answer)->0) {
        Some(wrong_answer("Invalid id!"@))
    } else {
        None
    }
}

/// The outfit that an answer names by its id.
pub fn select_outfit<'a>(outfits: &'a Outfits, answer: &str) -> (r: Result<&'a Outfit, InputErr>)
    ensures
        match r {
            Ok(o) => outfit_refusal(outfits@, answer@) is None && o@ == outfits@[index_of(
                outfit_ids(outfits@),
                id_of(answer@)->0,
            )],
            Err(e) => outfit_refusal(outfits@, answer@) == Some(e@),
        },
{
    if outfits.is_empty() {
        return Err(
            InputErr { class: ErrType::Abort, msg: "No outfits to choose from.".to_owned() },
        );
    }
    let v = to_folded(&chars_of(answer));
    if is_text(&v, "exit") {
        return Err(InputErr::user_abort());
    }
    let id = match parse_unsigned(&v, u32::MAX as u64) {
        Some(n) => n as u32,
        None => {
            return Err(InputErr::wrong("Invalid number!"));
        },
    };
    match outfits.get(id) {
        Some(o) => Ok(o),
        None => Err(InputErr::wrong("Invalid id!")),
    }
}

/// Whether an answer says yes or no: `y` or `n`, in either case.
pub open spec fn yes_or_no(answer: Seq<char>) -> Option<bool> {
    if folded(answer) == "y"@ {
        Some(true)
    } else if folded(answer) == "n"@ {
        Some(false)
    } else {
        None
    }
}

/// Whether an answer says yes or no.
pub fn confirm(answer: &str) -> (r: Result<bool, InputErr>)
    ensures
        match r {
            Ok(b) => yes_or_no(answer@) == Some(b),
            Err(e) => yes_or_no(answer@) is None && e@ == wrong_answer("Invalid answer."@),
        },
{
    let v = to_folded(&chars_of(answer));
    if is_text(&v, "y") {
        Ok(true)
    } else if is_text(&v, "n") {
        Ok(false)
    } else {
        Err(InputErr::wrong("Invalid answer."))
    }
}

} // verus!
