//! A personal inventory of clothing items and of the outfits built from
//! them, with the text format that stores it.
//!
//! - [`closet`]: styles, items, outfits, their registries and drafts.
//! - [`values`], [`date`]: the values of an item and their text forms.
//! - [`storage`]: reading the stored text, chunk by chunk, into a closet.
//! - [`round_trip`]: the proof that a stored closet reads back as it is.
//! - [`input`], [`menu`]: what the answers of a user mean, and the menus.
//! - [`text`], [`ids`], [`error`]: characters and lines, identifiers,
//!   failures.
//!
//! This module holds the closet as a whole and the changes that a user makes
//! to it.

use crate::closet::{
    cleaned, clothes_toml, draft_check, first_missing, has_id, in_use, item, item_ids, matching,
    outfit, outfit_added, outfit_ids, outfits_toml, removed, updated, with_name, Change,
    ChangeView, Clothes, Clth, ClthBuffer, ClthView, FilterView, Kind, OutfitBuffer, OutfitView,
    Outfits, Rgb, Sex, Size, Style, Styles, Target,
};
use crate::date::{Date, Ymd};
use crate::error::{ClosetError, Field};
use crate::ids::{index_of, lemma_smallest_free, smallest_free, swap_removed};
use crate::input::{
    aborted, clth_refusal, id_of, select_clth, target, target_choice, InputErr,
};
use crate::menu::{acts, Act, Item, Menu};
use crate::text::{append_str, chars_of, lowercase_of, string_of};
use vstd::prelude::*;

pub mod closet;
pub mod date;
pub mod error;
pub mod ids;
pub mod input;
pub mod menu;
pub mod round_trip;
pub mod storage;
pub mod text;
pub mod values;

verus! {

/// Drafts that were left unfinished, kept for a later attempt.
#[derive(Debug, Clone, Copy, PartialEq, Eq, Structural)]
pub struct TmpCache {
    pub clth: Option<ClthBuffer>,
    pub outfit: Option<OutfitBuffer>,
}

impl TmpCache {
    pub fn new() -> (c: TmpCache)
        ensures
            c == (TmpCache { clth: None, outfit: None }),
    {
        TmpCache { clth: None, outfit: None }
    }
}

/// The whole closet: the items, their styles and the outfits.
#[derive(Debug)]
pub struct Data {
    pub clothes: Clothes,
    pub styles: Styles,
    pub outfits: Outfits,
    pub cache: TmpCache,
}

/// The text that stores a closet: the chunks of the items, an empty line,
/// and the chunks of the outfits.
pub open spec fn data_toml(items: Seq<ClthView>, outfits: Seq<OutfitView>) -> Seq<char> {
    clothes_toml(items) + "\n\n"@ + outfits_toml(outfits)
}

impl Data {
    pub fn new() -> (d: Data)
        ensures
            d.clothes@.len() == 0,
            d.styles@.len() == 0,
            d.outfits@.len() == 0,
            d.cache == (TmpCache { clth: None, outfit: None }),
    {
        Data {
            clothes: Clothes::new(),
            styles: Styles::new(),
            outfits: Outfits::new(),
            cache: TmpCache::new(),
        }
    }

    /// Writes the text that stores the closet.
    pub fn to_toml(&self) -> (r: String)
        ensures
            r@ == data_toml(self.clothes@, self.outfits@),
    {
        let mut v = chars_of(self.clothes.to_toml().as_str());
        append_str(&mut v, "\n\n");
        append_str(&mut v, self.outfits.to_toml().as_str());
        string_of(&v)
    }
}

// ---------------------------------------------------------------------------
// Drafts, answer by answer
// ---------------------------------------------------------------------------

/// An answer to one question about an item in the making.
#[derive(Debug, Clone, Copy, PartialEq, Eq, Structural)]
pub enum Answer {
    Kind(Kind),
    Sex(Sex),
    Size(Size),
    Color(Rgb),
    Price(u64),
    Target(Target),
}

/// The field that is asked for next: the first one that the draft lacks, in
/// the order kind, sex, size, color, price, target.
pub open spec fn next_clth_field(b: ClthBuffer) -> Option<Field> {
    if b.kind is None {
        Some(Field::Kind)
    } else if b.sex is None {
        Some(Field::Sex)
    } else if b.size is None {
        Some(Field::Size)
    } else if b.color is None {
        Some(Field::Color)
    } else if b.price is None {
        Some(Field::Price)
    } else if b.target is None {
        Some(Field::Target)
    } else {
        None
    }
}

/// The draft with an answer put in. A field that was filled in before keeps
/// what it has.
pub open spec fn filled(b: ClthBuffer, a: Answer) -> ClthBuffer {
    match a {
        Answer::Kind(k) => if b.kind is None {
            ClthBuffer { kind: Some(k), ..b }
        } else {
            b
        },
        Answer::Sex(s) => if b.sex is None {
            ClthBuffer { sex: Some(s), ..b }
        } else {
            b
        },
        Answer::Size(s) => if b.size is None {
            ClthBuffer { size: Some(s), ..b }
        } else {
            b
        },
        Answer::Color(c) => if b.color is None {
            ClthBuffer { color: Some(c), ..b }
        } else {
            b
        },
        Answer::Price(p) => if b.price is None {
            ClthBuffer { price: Some(p), ..b }
        } else {
            b
        },
        Answer::Target(t) => if b.target is None {
            ClthBuffer { target: Some(t), ..b }
        } else {
            b
        },
    }
}

/// The field of an item in the making that is to be asked for next.
pub fn next_clth_question(cache: &ClthBuffer) -> (r: Option<Field>)
    ensures
        r == next_clth_field(*cache),
{
    if cache.kind.is_none() {
        Some(Field::Kind)
    } else if cache.sex.is_none() {
        Some(Field::Sex)
    } else if cache.size.is_none() {
        Some(Field::Size)
    } else if cache.color.is_none() {
        Some(Field::Color)
    } else if cache.price.is_none() {
        Some(Field::Price)
    } else if cache.target.is_none() {
        Some(Field::Target)
    } else {
        None
    }
}

/// Puts an answer into an item in the making.
pub fn fill_clth_buffer(cache: &mut ClthBuffer, answer: Answer)
    ensures
        *final(cache) == filled(*old(cache), answer),
{
    match answer {
        Answer::Kind(k) => {
            if cache.kind.is_none() {
                cache.kind = Some(k);
            }
        },
        Answer::Sex(s) => {
            if cache.sex.is_none() {
                cache.sex = Some(s);
            }
        },
        Answer::Size(s) => {
            if cache.size.is_none() {
                cache.size = Some(s);
            }
        },
        Answer::Color(c) => {
            if cache.color.is_none() {
                cache.color = Some(c);
            }
        },
        Answer::Price(p) => {
            if cache.price.is_none() {
                cache.price = Some(p);
            }
        },
        Answer::Target(t) => {
            if cache.target.is_none() {
                cache.target = Some(t);
            }
        },
    }
}

/// The answer that a choice in the menu of dispositions gives for an item in
/// the making: a sale is at the price that the draft holds.
pub fn target_answer(cache: &ClthBuffer, sel_index: usize) -> (r: Result<Answer, InputErr>)
    requires
        cache.price is Some,
    ensures
        match r {
            Ok(a) => target_choice(sel_index, cache.price->0) is Some && a == Answer::Target(
                target_choice(sel_index, cache.price->0)->0,
            ),
            Err(e) => target_choice(sel_index, cache.price->0) is None && e@ == aborted(),
        },
{
    match target(sel_index, cache.price.unwrap()) {
        Ok(t) => Ok(Answer::Target(t)),
        Err(e) => Err(e),
    }
}

/// The slot that is asked for next: the first one that the draft lacks, in
/// the order chest, leg, foot.
pub open spec fn next_slot(b: OutfitBuffer) -> Option<Kind> {
    if b.chest is None {
        Some(Kind::Chest)
    } else if b.leg is None {
        Some(Kind::Leg)
    } else if b.foot is None {
        Some(Kind::Foot)
    } else {
        None
    }
}

/// The draft with an item put in a slot.
pub open spec fn slotted(b: OutfitBuffer, slot: Kind, id: u32) -> OutfitBuffer {
    match slot {
        Kind::Chest => OutfitBuffer { chest: Some(id), ..b },
        Kind::Leg => OutfitBuffer { leg: Some(id), ..b },
        Kind::Foot => OutfitBuffer { foot: Some(id), ..b },
    }
}

/// The slot of an outfit in the making that is to be asked for next.
pub fn next_outfit_question(cache: &OutfitBuffer) -> (r: Option<Kind>)
    ensures
        r == next_slot(*cache),
{
    if cache.chest.is_none() {
        Some(Kind::Chest)
    } else if cache.leg.is_none() {
        Some(Kind::Leg)
    } else if cache.foot.is_none() {
        Some(Kind::Foot)
    } else {
        None
    }
}

/// Puts the item that an answer names into the next empty slot of an outfit
/// in the making. The item is picked among those of the kind of the slot.
pub fn fill_outfit_buffer(cache: &mut OutfitBuffer, clothes: &Clothes, answer: &str) -> (r:
    Result<(), InputErr>)
    ensures
        match next_slot(*old(cache)) {
            None => r is Ok && *final(cache) == *old(cache),
            Some(slot) => match clth_refusal(
                matching(clothes@, FilterView::Kind(slot)),
                answer@,
            ) {
                Some(e) => r is Err && r->Err_0@ == e && *final(cache) == *old(cache),
                None => r is Ok && *final(cache) == slotted(*old(cache), slot, id_of(answer@)->0),
            },
        },
{
    let slot = match next_outfit_question(cache) {
        Some(k) => k,
        None => {
            return Ok(());
        },
    };
    let candidates = clothes.filter_by_kind(slot);
    let id = match select_clth(&candidates, answer) {
        Ok(c) => c.id,
        Err(e) => {
            return Err(e);
        },
    };
    match slot {
        Kind::Chest => {
            cache.chest = Some(id);
        },
        Kind::Leg => {
            cache.leg = Some(id);
        },
        Kind::Foot => {
            cache.foot = Some(id);
        },
    }
    Ok(())
}

// ---------------------------------------------------------------------------
// Changes to the closet
// ---------------------------------------------------------------------------

/// Why an item cannot be added from a draft, if that is so.
pub open spec fn clth_refused(b: ClthBuffer, items: Seq<ClthView>) -> Option<ClosetError> {
    if first_missing(b) is Some {
        Some(ClosetError::IncompleteDraft(first_missing(b)->0))
    } else if items.len() >= u32::MAX {
        Some(ClosetError::Full)
    } else {
        None
    }
}

/// The item that a finished draft gives.
pub open spec fn drafted(b: ClthBuffer, id: u32, date: Ymd, style: Seq<char>) -> ClthView
    recommends
        first_missing(b) is None,
{
    ClthView {
        id,
        kind: b.kind->0,
        sex: b.sex->0,
        size: b.size->0,
        color: b.color->0,
        target: b.target->0,
        purchase_date: date,
        style,
    }
}

/// Finishes a draft and adds the item under the smallest free id, with the
/// style of the given name, which joins the styles. Nothing changes where
/// the item cannot be added.
pub fn user_add_clth(data: &mut Data, buffer: ClthBuffer, style_name: &str, date: Date) -> (r:
    Result<u32, ClosetError>)
    ensures
        final(data).outfits@ == old(data).outfits@,
        final(data).cache == old(data).cache,
        match r {
            Ok(id) => clth_refused(buffer, old(data).clothes@) is None && id == smallest_free(
                item_ids(old(data).clothes@),
            ) && final(data).clothes@ == old(data).clothes@.push(
                drafted(buffer, id, date@, lowercase_of(style_name@)),
            ) && final(data).styles@ == with_name(old(data).styles@, lowercase_of(style_name@)),
            Err(e) => clth_refused(buffer, old(data).clothes@) == Some(e) && final(data).clothes@
                == old(data).clothes@ && final(data).styles@ == old(data).styles@,
        },
{
    let id = data.clothes.request_id();
    proof {
        lemma_smallest_free(item_ids(data.clothes@), id);
    }
    if data.clothes.len() >= u32::MAX as usize && next_missing(&buffer).is_none() {
        return Err(ClosetError::Full);
    }
    let style = match next_missing(&buffer) {
        Some(field) => {
            return Err(ClosetError::IncompleteDraft(field));
        },
        None => data.styles.get_or_add(style_name),
    };
    let clth = match buffer.to_clth(id, date, style) {
        Ok(c) => c,
        Err(e) => {
            return Err(e);
        },
    };
    match data.clothes.add(clth) {
        Ok(_) => Ok(id),
        Err(e) => Err(e),
    }
}

/// The first field that a draft lacks of those that an item needs.
fn next_missing(b: &ClthBuffer) -> (r: Option<Field>)
    ensures
        r == first_missing(*b),
{
    if b.kind.is_none() {
        Some(Field::Kind)
    } else if b.sex.is_none() {
        Some(Field::Sex)
    } else if b.size.is_none() {
        Some(Field::Size)
    } else if b.color.is_none() {
        Some(Field::Color)
    } else if b.target.is_none() {
        Some(Field::Target)
    } else {
        None
    }
}

/// Takes the item of this id out of the closet, and with it the outfits that
/// are left with a dangling slot.
pub fn user_rm_clth(data: &mut Data, id: u32) -> (r: Result<Clth, ClosetError>)
    ensures
        final(data).styles@ == old(data).styles@,
        final(data).cache == old(data).cache,
        match r {
            Ok(c) => has_id(old(data).clothes@, id) && c@ == item(old(data).clothes@, id)
                && final(data).clothes@ == removed(old(data).clothes@, id)
                && final(data).outfits@ == cleaned(old(data).outfits@, final(data).clothes@),
            Err(e) => !has_id(old(data).clothes@, id) && e == ClosetError::NotFound
                && final(data).clothes@ == old(data).clothes@
                && final(data).outfits@ == old(data).outfits@,
        },
{
    match data.clothes.remove(id) {
        Ok(c) => {
            data.outfits.clean(&data.clothes);
            Ok(c)
        },
        Err(e) => Err(e),
    }
}

/// The field that a change is about.
pub open spec fn field_of_change(c: ChangeView) -> Field {
    match c {
        ChangeView::Kind(_) => Field::Kind,
        ChangeView::Sex(_) => Field::Sex,
        ChangeView::Size(_) => Field::Size,
        ChangeView::Color(_) => Field::Color,
        ChangeView::Target(_) => Field::Target,
        ChangeView::Style(_) => Field::Style,
    }
}

/// Whether a change must wait until no outfit holds the item: the kind and
/// the style are what an outfit was checked for.
pub open spec fn is_guarded(c: ChangeView) -> bool {
    c is Kind || c is Style
}

/// A change as the closet takes it: the name of a style is put in lower
/// case.
pub open spec fn normal(c: ChangeView) -> ChangeView {
    match c {
        ChangeView::Style(n) => ChangeView::Style(lowercase_of(n)),
        _ => c,
    }
}

/// Changes one field of the item of this id. The kind and the style of an
/// item that an outfit holds do not change. A new style joins the styles.
pub fn user_update_clth(data: &mut Data, id: u32, change: Change) -> (r: Result<(), ClosetError>)
    ensures
        final(data).outfits@ == old(data).outfits@,
        final(data).cache == old(data).cache,
        match r {
            Ok(_) => has_id(old(data).clothes@, id) && !(is_guarded(change@) && in_use(
                old(data).outfits@,
                id,
            )) && final(data).clothes@ == updated(old(data).clothes@, id, normal(change@)),
            Err(e) => final(data).clothes@ == old(data).clothes@
                && final(data).styles@ == old(data).styles@
                && (if !has_id(old(data).clothes@, id) {
                e == ClosetError::NotFound
            } else {
                is_guarded(change@) && in_use(old(data).outfits@, id) && e == ClosetError::InUse(
                    field_of_change(change@),
                )
            }),
        },
        r is Ok ==> final(data).styles@ == (match change@ {
            ChangeView::Style(n) => with_name(old(data).styles@, lowercase_of(n)),
            _ => old(data).styles@,
        }),
{
    if !data.clothes.contains(id) {
        return Err(ClosetError::NotFound);
    }
    let change = match change {
        Change::Kind(k) => {
            if data.outfits.references(id) {
                return Err(ClosetError::InUse(Field::Kind));
            }
            Change::Kind(k)
        },
        Change::Style(s) => {
            if data.outfits.references(id) {
                return Err(ClosetError::InUse(Field::Style));
            }
            Change::Style(data.styles.get_or_add(s.name.as_str()))
        },
        other => other,
    };
    data.clothes.update(id, change)
}

/// Finishes a draft and adds the outfit under the smallest free id.
pub fn user_add_outfit(data: &mut Data, buffer: OutfitBuffer) -> (r: Result<u32, ClosetError>)
    ensures
        final(data).clothes@ == old(data).clothes@,
        final(data).styles@ == old(data).styles@,
        final(data).cache == old(data).cache,
        match r {
            Ok(id) => draft_check(buffer, old(data).clothes@) is Ok && id == smallest_free(
                outfit_ids(old(data).outfits@),
            ) && outfit_added(
                old(data).outfits@,
                outfit(id, buffer.chest->0, buffer.leg->0, buffer.foot->0),
            ) == Ok::<Seq<OutfitView>, ClosetError>(final(data).outfits@),
            Err(e) => final(data).outfits@ == old(data).outfits@ && (match draft_check(
                buffer,
                old(data).clothes@,
            ) {
                Err(first) => e == first,
                Ok(_) => outfit_added(
                    old(data).outfits@,
                    outfit(
                        smallest_free(outfit_ids(old(data).outfits@)),
                        buffer.chest->0,
                        buffer.leg->0,
                        buffer.foot->0,
                    ),
                ) == Err::<Seq<OutfitView>, ClosetError>(e),
            }),
        },
{
    let id = data.outfits.request_id();
    proof {
        lemma_smallest_free(outfit_ids(data.outfits@), id);
    }
    let made = match buffer.to_outfit(id, &data.clothes) {
        Ok(o) => o,
        Err(e) => {
            return Err(e);
        },
    };
    match data.outfits.add(made) {
        Ok(_) => Ok(id),
        Err(e) => Err(e),
    }
}

/// Takes the outfit of this id out of the closet.
pub fn user_rm_outfit(data: &mut Data, id: u32) -> (r: Result<(), ClosetError>)
    ensures
        final(data).clothes@ == old(data).clothes@,
        final(data).styles@ == old(data).styles@,
        final(data).cache == old(data).cache,
        match r {
            Ok(_) => outfit_ids(old(data).outfits@).contains(id) && final(data).outfits@
                == swap_removed(old(data).outfits@, index_of(outfit_ids(old(data).outfits@), id)),
            Err(e) => !outfit_ids(old(data).outfits@).contains(id) && e == ClosetError::NotFound
                && final(data).outfits@ == old(data).outfits@,
        },
{
    match data.outfits.remove(id) {
        Ok(_) => Ok(()),
        Err(e) => Err(e),
    }
}

// ---------------------------------------------------------------------------
// The menus
// ---------------------------------------------------------------------------

/// What the user asks for.
#[derive(Debug, Clone, Copy, PartialEq, Eq, Structural)]
pub enum Event {
    AddClth,
    RemoveClth,
    ListClths,
    UpdateClth,
    AddOutfit,
    RemoveOutfit,
    ListOutfits,
    Back,
    Quit,
}

/// The entries of the menu of the clothes.
pub open spec fn clothes_menu() -> Seq<(Seq<char>, Event)> {
    seq![
        ("Add clothing"@, Event::AddClth),
        ("Remove clothing"@, Event::RemoveClth),
        ("Update clothing"@, Event::UpdateClth),
        ("List clothes"@, Event::ListClths),
        ("Back"@, Event::Back),
    ]
}

/// The entries of the menu of the outfits.
pub open spec fn outfits_menu() -> Seq<(Seq<char>, Event)> {
    seq![
        ("Add outfit"@, Event::AddOutfit),
        ("Remove outfit"@, Event::RemoveOutfit),
        ("List outfits"@, Event::ListOutfits),
        ("Back"@, Event::Back),
    ]
}

/// Whether a menu is the menu of the program: the submenu `Clothes`, the
/// submenu `Outfits`, and the action `Quit`.
pub open spec fn is_main_menu(m: Menu<Event>) -> bool {
    &&& m.label@ == "root"@
    &&& m.items@.len() == 3
    &&& m.items@[0] matches Item::Submenu(sub) && sub.label@ == "Clothes"@ && acts(
        *sub,
        clothes_menu(),
    )
    &&& m.items@[1] matches Item::Submenu(sub) && sub.label@ == "Outfits"@ && acts(
        *sub,
        outfits_menu(),
    )
    &&& m.items@[2] matches Item::Action(act) && act.label@ == "Quit"@ && act.value == Event::Quit
}

/// The menu of the program: a submenu for the clothes, one for the outfits,
/// and the way out.
pub fn main_menu() -> (m: Menu<Event>)
    ensures
        is_main_menu(m),
{
    let mut clth_menu: Menu<Event> = Menu::new("Clothes");
    clth_menu.add_action(Act::new("Add clothing", Event::AddClth));
    clth_menu.add_action(Act::new("Remove clothing", Event::RemoveClth));
    clth_menu.add_action(Act::new("Update clothing", Event::UpdateClth));
    clth_menu.add_action(Act::new("List clothes", Event::ListClths));
    clth_menu.add_action(Act::new("Back", Event::Back));
    let mut outfit_menu: Menu<Event> = Menu::new("Outfits");
    outfit_menu.add_action(Act::new("Add outfit", Event::AddOutfit));
    outfit_menu.add_action(Act::new("Remove outfit", Event::RemoveOutfit));
    outfit_menu.add_action(Act::new("List outfits", Event::ListOutfits));
    outfit_menu.add_action(Act::new("Back", Event::Back));
    let mut menu: Menu<Event> = Menu::new("root");
    menu.add_submenu(clth_menu);
    menu.add_submenu(outfit_menu);
    menu.add_action(Act::new("Quit", Event::Quit));
    menu
}

} // verus!
