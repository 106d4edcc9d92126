//! The closet: styles, items, outfits, and the registries that own them.
//!
//! An item is known by its id. An outfit holds the ids of its three items and
//! owns none of them: a slot whose id the item registry no longer holds is
//! dangling.

use crate::date::{date_text, Date, Ymd};
use crate::error::{field_name, ClosetError, Field};
use crate::ids::{
    distinct, find_id, first_free, index_of, is_smallest_free, lemma_filter_agree,
    lemma_filter_pairs, lemma_filter_step, lemma_index_of, lemma_swap_removed, swap_removed,
};
use crate::text::{
    append, append_str, chars_of, decimal_of, decimal_text, join, joined, lowercase_of, same,
    string_of, to_lowercase, views,
};
pub use crate::values::{Kind, Rgb, Sex, Size, Target};
use vstd::prelude::*;

verus! {

// ---------------------------------------------------------------------------
// Styles
// ---------------------------------------------------------------------------

/// A named style. Items of one outfit share their style.
#[derive(Debug)]
pub struct Style {
    pub name: String,
}

impl View for Style {
    type V = Seq<char>;

    open spec fn view(&self) -> Seq<char> {
        self.name@
    }
}

impl Clone for Style {
    fn clone(&self) -> (r: Style)
        ensures
            r@ == self@,
    {
        Style { name: self.name.clone() }
    }
}

impl Style {
    pub fn new(name: &str) -> (s: Style)
        ensures
            s@ == name@,
    {
        Style { name: name.to_owned() }
    }
}

/// Whether no name occurs twice.
pub open spec fn names_ok(names: Seq<Seq<char>>) -> bool {
    forall|i: int, j: int| 0 <= i < j < names.len() ==> names[i] != names[j]
}

/// The names with `name` among them: added at the end where it was missing.
pub open spec fn with_name(names: Seq<Seq<char>>, name: Seq<char>) -> Seq<Seq<char>> {
    if names.contains(name) {
        names
    } else {
        names.push(name)
    }
}

/// The styles in use, one record for each name. A name is put in lower case
/// before it is looked up or kept, so that it is found whatever the case it
/// is written in.
#[derive(Debug)]
pub struct Styles {
    list: Vec<Style>,
}

impl View for Styles {
    type V = Seq<Seq<char>>;

    closed spec fn view(&self) -> Seq<Seq<char>> {
        Seq::new(self.list@.len(), |i: int| self.list@[i]@)
    }
}

impl Styles {
    /// Whether the names are distinct: this holds of every registry of
    /// styles.
    #[verifier::type_invariant]
    pub open spec fn wf(&self) -> bool {
        names_ok(self@)
    }

    pub fn new() -> (s: Styles)
        ensures
            s@ == Seq::<Seq<char>>::empty(),
            s.wf(),
    {
        let s = Styles { list: Vec::new() };
        assert(s@ =~= Seq::<Seq<char>>::empty());
        s
    }

    /// The number of styles.
    pub fn len(&self) -> (n: usize)
        ensures
            n == self@.len(),
    {
        self.list.len()
    }

    /// Where the style of the name `n` stands.
    fn position(&self, n: &Vec<char>) -> (r: Option<usize>)
        ensures
            r is Some <==> self@.contains(n@),
            r is Some ==> r->0 < self@.len() && self@[r->0 as int] == n@,
    {
        let mut i: usize = 0;
        while i < self.list.len()
            invariant
                i <= self.list.len(),
                forall|k: int| 0 <= k < i ==> self@[k] != n@,
            decreases self.list.len() - i,
        {
            let name = chars_of(self.list[i].name.as_str());
            if same(&name, n) {
                assert(self@[i as int] == n@);
                return Some(i);
            }
            i += 1;
        }
        None
    }

    /// The style whose name is `name`, letter for letter.
    pub fn named<'a>(&'a self, name: &str) -> (r: Option<&'a Style>)
        ensures
            r is Some <==> self@.contains(name@),
            r is Some ==> r->0@ == name@,
    {
        let n = chars_of(name);
        match self.position(&n) {
            Some(i) => Some(&self.list[i]),
            None => None,
        }
    }

    /// Keeps a style of the name `name`, letter for letter, unless a style
    /// of that name is there already.
    pub fn insert(&mut self, name: String)
        ensures
            final(self)@ == with_name(old(self)@, name@),
            final(self).wf(),
    {
        proof {
            use_type_invariant(&*self);
        }
        let n = chars_of(name.as_str());
        if self.position(&n).is_none() {
            let ghost before = self@;
            let mut list: Vec<Style> = Vec::new();
            std::mem::swap(&mut list, &mut self.list);
            list.push(Style { name });
            proof {
                let after = Seq::new(list@.len(), |i: int| list@[i]@);
                assert(after =~= before.push(n@));
                assert(names_ok(after));
            }
            self.list = list;
            assert(self@ =~= before.push(n@));
        }
    }

    /// Adds a style under its name in lower case, unless a style of that
    /// name is there already.
    pub fn add(&mut self, style: Style)
        ensures
            final(self)@ == with_name(old(self)@, lowercase_of(style@)),
            final(self).wf(),
    {
        self.insert(to_lowercase(style.name.as_str()));
        proof {
            use_type_invariant(&*self);
        }
    }

    /// The style of the given name, whatever the case it is written in.
    pub fn get<'a>(&'a self, name: &str) -> (r: Option<&'a Style>)
        ensures
            r is Some <==> self@.contains(lowercase_of(name@)),
            r is Some ==> r->0@ == lowercase_of(name@),
    {
        let n = to_lowercase(name);
        self.named(n.as_str())
    }

    /// The style of the given name, which is added first where it was
    /// missing. The name is put in lower case.
    pub fn get_or_add(&mut self, name: &str) -> (r: Style)
        ensures
            r@ == lowercase_of(name@),
            final(self)@ == with_name(old(self)@, lowercase_of(name@)),
            final(self).wf(),
    {
        let n = to_lowercase(name);
        let r = Style { name: n.clone() };
        self.insert(n);
        proof {
            use_type_invariant(&*self);
        }
        r
    }
}

// ---------------------------------------------------------------------------
// Items
// ---------------------------------------------------------------------------

/// A piece of clothing.
#[derive(Debug)]
pub struct Clth {
    pub id: u32,
    pub kind: Kind,
    pub sex: Sex,
    pub size: Size,
    pub color: Rgb,
    pub target: Target,
    pub purchase_date: Date,
    pub style: Style,
}

/// What an item holds.
pub struct ClthView {
    pub id: u32,
    pub kind: Kind,
    pub sex: Sex,
    pub size: Size,
    pub color: Rgb,
    pub target: Target,
    pub purchase_date: Ymd,
    pub style: Seq<char>,
}

impl View for Clth {
    type V = ClthView;

    open spec fn view(&self) -> ClthView {
        ClthView {
            id: self.id,
            kind: self.kind,
            sex: self.sex,
            size: self.size,
            color: self.color,
            target: self.target,
            purchase_date: self.purchase_date@,
            style: self.style@,
        }
    }
}

impl Clone for Clth {
    fn clone(&self) -> (r: Clth)
        ensures
            r@ == self@,
    {
        Clth {
            id: self.id,
            kind: self.kind,
            sex: self.sex,
            size: self.size,
            color: self.color,
            target: self.target,
            purchase_date: self.purchase_date,
            style: self.style.clone(),
        }
    }
}

impl Clth {
    pub fn new(
        id: u32,
        kind: Kind,
        sex: Sex,
        size: Size,
        color: Rgb,
        target: Target,
        purchase_date: Date,
        style: Style,
    ) -> (c: Clth)
        ensures
            c@ == (ClthView {
                id,
                kind,
                sex,
                size,
                color,
                target,
                purchase_date: purchase_date@,
                style: style@,
            }),
    {
        Clth { id, kind, sex, size, color, target, purchase_date, style }
    }
}

/// A property by which items are picked.
#[derive(Debug)]
pub enum Filter {
    Kind(Kind),
    Sex(Sex),
    Size(Size),
    Color(Rgb),
    /// The name of the item's style is exactly this one.
    Style(String),
    /// The item is to be kept.
    Kept,
    /// The item is to be given away.
    Donated,
    /// The item is for sale, at whatever price.
    OnSale,
}

/// What a filter asks for.
pub enum FilterView {
    Kind(Kind),
    Sex(Sex),
    Size(Size),
    Color(Rgb),
    Style(Seq<char>),
    Kept,
    Donated,
    OnSale,
}

impl View for Filter {
    type V = FilterView;

    open spec fn view(&self) -> FilterView {
        match self {
            Filter::Kind(k) => FilterView::Kind(*k),
            Filter::Sex(s) => FilterView::Sex(*s),
            Filter::Size(s) => FilterView::Size(*s),
            Filter::Color(c) => FilterView::Color(*c),
            Filter::Style(n) => FilterView::Style(n@),
            Filter::Kept => FilterView::Kept,
            Filter::Donated => FilterView::Donated,
            Filter::OnSale => FilterView::OnSale,
        }
    }
}

/// Whether an item has the property that a filter asks for.
pub open spec fn meets(c: ClthView, f: FilterView) -> bool {
    match f {
        FilterView::Kind(k) => c.kind == k,
        FilterView::Sex(s) => c.sex == s,
        FilterView::Size(s) => c.size == s,
        FilterView::Color(x) => c.color == x,
        FilterView::Style(n) => c.style == n,
        FilterView::Kept => c.target is Keep,
        FilterView::Donated => c.target is Donation,
        FilterView::OnSale => c.target is Sale,
    }
}

/// The items that have the property that a filter asks for, in their order.
pub open spec fn matching(items: Seq<ClthView>, f: FilterView) -> Seq<ClthView> {
    items.filter(|c: ClthView| meets(c, f))
}

impl Clth {
    /// Whether the item has the property that the filter asks for.
    pub fn meets(&self, f: &Filter) -> (r: bool)
        ensures
            r == meets(self@, f@),
    {
        match f {
            Filter::Kind(k) => self.kind == *k,
            Filter::Sex(s) => self.sex == *s,
            Filter::Size(s) => self.size == *s,
            Filter::Color(c) => self.color == *c,
            Filter::Style(n) => crate::text::same_str(self.style.name.as_str(), n.as_str()),
            Filter::Kept => match self.target {
                Target::Keep => true,
                _ => false,
            },
            Filter::Donated => match self.target {
                Target::Donation => true,
                _ => false,
            },
            Filter::OnSale => match self.target {
                Target::Sale(_) => true,
                _ => false,
            },
        }
    }
}

// ---------------------------------------------------------------------------
// The item registry
// ---------------------------------------------------------------------------

/// The ids of the items, in their order.
pub open spec fn item_ids(items: Seq<ClthView>) -> Seq<u32> {
    Seq::new(items.len(), |i: int| items[i].id)
}

/// Whether an item has this id.
pub open spec fn has_id(items: Seq<ClthView>, id: u32) -> bool {
    item_ids(items).contains(id)
}

/// The item of this id.
pub open spec fn item(items: Seq<ClthView>, id: u32) -> ClthView
    recommends
        has_id(items, id),
{
    items[index_of(item_ids(items), id)]
}

/// Whether the items can stand in a registry: no id occurs twice, and an id
/// is left for one more.
pub open spec fn items_ok(items: Seq<ClthView>) -> bool {
    &&& distinct(item_ids(items))
    &&& items.len() <= u32::MAX
}

/// The items after `c` was added, or why it cannot be.
pub open spec fn added(items: Seq<ClthView>, c: ClthView) -> Result<Seq<ClthView>, ClosetError> {
    if has_id(items, c.id) {
        Err(ClosetError::DuplicateId)
    } else if items.len() >= u32::MAX {
        Err(ClosetError::Full)
    } else {
        Ok(items.push(c))
    }
}

/// The items after each of `more` was added in turn; one that cannot be
/// added is left out.
pub open spec fn added_all(items: Seq<ClthView>, more: Seq<ClthView>) -> Seq<ClthView>
    decreases more.len(),
{
    if more.len() == 0 {
        items
    } else {
        match added(items, more[0]) {
            Ok(next) => added_all(next, more.drop_first()),
            Err(_) => added_all(items, more.drop_first()),
        }
    }
}

/// The items after the one of this id was taken out: the last item takes its
/// place.
pub open spec fn removed(items: Seq<ClthView>, id: u32) -> Seq<ClthView>
    recommends
        has_id(items, id),
{
    swap_removed(items, index_of(item_ids(items), id))
}

/// The ids after an item was put at the end; they stay distinct where the
/// id of the item is new.
pub proof fn lemma_ids_push(items: Seq<ClthView>, c: ClthView)
    ensures
        item_ids(items.push(c)) == item_ids(items).push(c.id),
        items_ok(items) && !has_id(items, c.id) ==> distinct(item_ids(items.push(c))),
{
    assert(item_ids(items.push(c)) =~= item_ids(items).push(c.id));
    if items_ok(items) && !has_id(items, c.id) {
        let ids = item_ids(items).push(c.id);
        assert forall|i: int, j: int| 0 <= i < j < ids.len() implies ids[i] != ids[j] by {
            if j == items.len() {
                assert(item_ids(items)[i] == ids[i]);
                assert(item_ids(items).contains(ids[i]));
            }
        }
    }
}

/// Taking an item out takes its id out of the ids in the same way.
pub proof fn lemma_ids_swap_removed(items: Seq<ClthView>, i: int)
    requires
        0 <= i < items.len(),
    ensures
        item_ids(swap_removed(items, i)) == swap_removed(item_ids(items), i),
{
    assert(item_ids(swap_removed(items, i)) =~= swap_removed(item_ids(items), i));
}

/// The items that the closet owns, each known by its id.
#[derive(Debug)]
pub struct Clothes {
    list: Vec<Clth>,
}

impl View for Clothes {
    type V = Seq<ClthView>;

    closed spec fn view(&self) -> Seq<ClthView> {
        Seq::new(self.list@.len(), |i: int| self.list@[i]@)
    }
}

impl Clothes {
    /// Whether no id comes twice and an id is left: this holds of every
    /// registry of items.
    #[verifier::type_invariant]
    pub open spec fn wf(&self) -> bool {
        items_ok(self@)
    }

    pub fn new() -> (c: Clothes)
        ensures
            c@ == Seq::<ClthView>::empty(),
            c.wf(),
    {
        let c = Clothes { list: Vec::new() };
        assert(c@ =~= Seq::<ClthView>::empty());
        c
    }

    /// A registry of the given items, added in their order. An item whose id
    /// an earlier one has is left out.
    pub fn from(clothes: Vec<Clth>) -> (c: Clothes)
        ensures
            c@ == added_all(
                Seq::<ClthView>::empty(),
                Seq::new(clothes@.len(), |i: int| clothes@[i]@),
            ),
            c.wf(),
    {
        let ghost all = Seq::new(clothes@.len(), |i: int| clothes@[i]@);
        let mut acc = Clothes::new();
        assert(all.skip(0) =~= all);
        for item in it: clothes
            invariant
                all == Seq::new(it.seq().len(), |i: int| it.seq()[i]@),
                added_all(acc@, all.skip(it.index() as int)) == added_all(
                    Seq::<ClthView>::empty(),
                    all,
                ),
                acc.wf(),
        {
            proof {
                let rest = all.skip(it.index() as int);
                assert(rest[0] == item@);
                assert(rest.drop_first() =~= all.skip(it.index() + 1));
            }
            let _ = acc.add(item);
        }
        assert(all.skip(all.len() as int) =~= Seq::<ClthView>::empty());
        acc
    }

    /// The number of items.
    pub fn len(&self) -> (n: usize)
        ensures
            n == self@.len(),
    {
        self.list.len()
    }

    pub fn is_empty(&self) -> (b: bool)
        ensures
            b == (self@.len() == 0),
    {
        self.list.len() == 0
    }

    /// The ids of the items, in their order.
    pub fn ids(&self) -> (r: Vec<u32>)
        ensures
            r@ == item_ids(self@),
    {
        let mut r: Vec<u32> = Vec::new();
        let mut i: usize = 0;
        while i < self.list.len()
            invariant
                i <= self.list.len(),
                r@ == item_ids(self@).take(i as int),
            decreases self.list.len() - i,
        {
            r.push(self.list[i].id);
            assert(r@ =~= item_ids(self@).take(i + 1));
            i += 1;
        }
        assert(r@ =~= item_ids(self@));
        r
    }

    /// Takes ownership of an item, unless its id is in use.
    pub fn add(&mut self, clth: Clth) -> (r: Result<(), ClosetError>)
        ensures
            match r {
                Ok(_) => added(old(self)@, clth@) == Ok::<Seq<ClthView>, ClosetError>(final(self)@),
                Err(e) => added(old(self)@, clth@) == Err::<Seq<ClthView>, ClosetError>(e)
                    && final(self)@ == old(self)@,
            },
            final(self).wf(),
    {
        proof {
            use_type_invariant(&*self);
        }
        let ids = self.ids();
        if find_id(&ids, clth.id).is_some() {
            return Err(ClosetError::DuplicateId);
        }
        if self.list.len() >= u32::MAX as usize {
            return Err(ClosetError::Full);
        }
        let ghost before = self@;
        let mut list: Vec<Clth> = Vec::new();
        std::mem::swap(&mut list, &mut self.list);
        list.push(clth);
        proof {
            let after = Seq::new(list@.len(), |i: int| list@[i]@);
            assert(after =~= before.push(clth@));
            lemma_ids_push(before, clth@);
        }
        self.list = list;
        assert(self@ =~= before.push(clth@));
        Ok(())
    }

    /// Hands back the item of this id; the last item takes its place.
    pub fn remove(&mut self, id: u32) -> (r: Result<Clth, ClosetError>)
        ensures
            match r {
                Ok(c) => has_id(old(self)@, id) && c@ == item(old(self)@, id) && final(self)@
                    == removed(old(self)@, id),
                Err(e) => !has_id(old(self)@, id) && e == ClosetError::NotFound && final(self)@
                    == old(self)@,
            },
            final(self).wf(),
    {
        proof {
            use_type_invariant(&*self);
        }
        let ids = self.ids();
        match find_id(&ids, id) {
            None => Err(ClosetError::NotFound),
            Some(i) => {
                let ghost before = self@;
                let mut list: Vec<Clth> = Vec::new();
                std::mem::swap(&mut list, &mut self.list);
                let c = list.swap_remove(i);
                proof {
                    let after = Seq::new(list@.len(), |k: int| list@[k]@);
                    assert(after =~= swap_removed(before, i as int));
                    lemma_ids_swap_removed(before, i as int);
                    lemma_swap_removed(item_ids(before), i as int);
                    assert(c@ == before[i as int]);
                }
                self.list = list;
                assert(self@ =~= swap_removed(before, i as int));
                Ok(c)
            },
        }
    }

    /// The smallest number that is the id of no item.
    pub fn request_id(&self) -> (id: u32)
        ensures
            is_smallest_free(item_ids(self@), id),
    {
        proof {
            use_type_invariant(self);
        }
        let ids = self.ids();
        first_free(&ids)
    }

    /// The item of this id.
    pub fn get(&self, id: u32) -> (r: Option<&Clth>)
        ensures
            r is Some <==> has_id(self@, id),
            r is Some ==> r->0@ == item(self@, id) && r->0@.id == id,
    {
        let ids = self.ids();
        match find_id(&ids, id) {
            None => None,
            Some(i) => {
                assert(self@[i as int] == self.list@[i as int]@);
                proof {
                    lemma_index_of(item_ids(self@), id);
                    assert(item_ids(self@)[i as int] == self@[i as int].id);
                }
                Some(&self.list[i])
            },
        }
    }

    /// Whether an item has this id.
    pub fn contains(&self, id: u32) -> (r: bool)
        ensures
            r == has_id(self@, id),
    {
        self.get(id).is_some()
    }
}

// ---------------------------------------------------------------------------
// Picking and grouping items
// ---------------------------------------------------------------------------

/// One more item is looked at: it joins the matching ones where it meets the
/// filter.
pub proof fn lemma_matching_step(items: Seq<ClthView>, i: int, f: FilterView)
    requires
        0 <= i < items.len(),
    ensures
        matching(items.take(i + 1), f) == (if meets(items[i], f) {
            matching(items.take(i), f).push(items[i])
        } else {
            matching(items.take(i), f)
        }),
{
    reveal(Seq::filter);
    assert(items.take(i + 1).drop_last() =~= items.take(i));
}

/// The matching items are items, and can stand in a registry of their own.
pub proof fn lemma_matching_ok(items: Seq<ClthView>, f: FilterView)
    requires
        items_ok(items),
    ensures
        items_ok(matching(items, f)),
        forall|id: u32| has_id(matching(items, f), id) ==> has_id(items, id),
    decreases items.len(),
{
    reveal(Seq::filter);
    let m = matching(items, f);
    if items.len() > 0 {
        let rest = items.drop_last();
        let last = items.last();
        assert(item_ids(rest) =~= item_ids(items).drop_last());
        lemma_matching_ok(rest, f);
        let mr = matching(rest, f);
        assert forall|id: u32| has_id(m, id) implies has_id(items, id) by {
            let k = choose|k: int| 0 <= k < item_ids(m).len() && item_ids(m)[k] == id;
            if k < mr.len() {
                assert(item_ids(mr)[k] == id);
                assert(has_id(rest, id));
                let j = choose|j: int| 0 <= j < item_ids(rest).len() && item_ids(rest)[j] == id;
                assert(item_ids(items)[j] == id);
            } else {
                assert(item_ids(items)[items.len() - 1] == id);
            }
        }
        if meets(last, f) {
            if has_id(mr, last.id) {
                assert(has_id(rest, last.id));
                let j = choose|j: int|
                    0 <= j < item_ids(rest).len() && item_ids(rest)[j] == last.id;
                assert(item_ids(items)[j] == item_ids(items)[items.len() - 1]);
            }
            lemma_ids_push(mr, last);
        }
        items.lemma_filter_len(|c: ClthView| meets(c, f));
    }
}

/// An item is among the matching ones exactly when it meets the filter.
pub proof fn lemma_matching_contains(items: Seq<ClthView>, f: FilterView, c: ClthView)
    requires
        items.contains(c),
    ensures
        matching(items, f).contains(c) <==> meets(c, f),
{
    let pred = |c: ClthView| meets(c, f);
    let i = choose|i: int| 0 <= i < items.len() && items[i] == c;
    if meets(c, f) {
        items.lemma_filter_contains(pred, i);
    }
    if matching(items, f).contains(c) {
        let k = choose|k: int| 0 <= k < matching(items, f).len() && matching(items, f)[k] == c;
        items.lemma_filter_pred(pred, k);
    }
}

/// Grouping by kind puts every item in the group of its kind and in no other.
pub proof fn kind_groups_partition(items: Seq<ClthView>, c: ClthView, k: Kind)
    requires
        items.contains(c),
    ensures
        matching(items, FilterView::Kind(k)).contains(c) <==> c.kind == k,
{
    lemma_matching_contains(items, FilterView::Kind(k), c);
}

/// Grouping by disposition puts every item in exactly one of the three
/// groups: the one of its disposition.
pub proof fn target_groups_partition(items: Seq<ClthView>, c: ClthView)
    requires
        items.contains(c),
    ensures
        matching(items, FilterView::Kept).contains(c) <==> c.target is Keep,
        matching(items, FilterView::Donated).contains(c) <==> c.target is Donation,
        matching(items, FilterView::OnSale).contains(c) <==> c.target is Sale,
{
    lemma_matching_contains(items, FilterView::Kept, c);
    lemma_matching_contains(items, FilterView::Donated, c);
    lemma_matching_contains(items, FilterView::OnSale, c);
}

/// A named group of items.
#[derive(Debug)]
pub struct Bucket {
    pub name: &'static str,
    pub items: Clothes,
}

/// Named groups of items. A group is there under its name even when it is
/// empty.
#[derive(Debug)]
pub struct Buckets {
    list: Vec<Bucket>,
}

impl View for Buckets {
    type V = Seq<(Seq<char>, Seq<ClthView>)>;

    closed spec fn view(&self) -> Seq<(Seq<char>, Seq<ClthView>)> {
        Seq::new(self.list@.len(), |i: int| (self.list@[i].name@, self.list@[i].items@))
    }
}

/// The first group of the given name.
pub open spec fn bucket(groups: Seq<(Seq<char>, Seq<ClthView>)>, name: Seq<char>) -> Option<
    Seq<ClthView>,
>
    decreases groups.len(),
{
    if groups.len() == 0 {
        None
    } else if groups[0].0 == name {
        Some(groups[0].1)
    } else {
        bucket(groups.drop_first(), name)
    }
}

/// The groups `chest`, `leg` and `foot`.
pub open spec fn kind_groups(items: Seq<ClthView>) -> Seq<(Seq<char>, Seq<ClthView>)> {
    seq![
        ("chest"@, matching(items, FilterView::Kind(Kind::Chest))),
        ("leg"@, matching(items, FilterView::Kind(Kind::Leg))),
        ("foot"@, matching(items, FilterView::Kind(Kind::Foot))),
    ]
}

/// The groups `keep`, `donation` and `sale`.
pub open spec fn target_groups(items: Seq<ClthView>) -> Seq<(Seq<char>, Seq<ClthView>)> {
    seq![
        ("keep"@, matching(items, FilterView::Kept)),
        ("donation"@, matching(items, FilterView::Donated)),
        ("sale"@, matching(items, FilterView::OnSale)),
    ]
}

impl Buckets {
    /// The number of groups.
    pub fn len(&self) -> (n: usize)
        ensures
            n == self@.len(),
    {
        self.list.len()
    }

    /// The group of the given name.
    pub fn get(&self, name: &str) -> (r: Option<&Clothes>)
        ensures
            match r {
                Some(c) => bucket(self@, name@) == Some(c@),
                None => bucket(self@, name@) is None,
            },
    {
        let mut i: usize = 0;
        assert(self@.skip(0) =~= self@);
        while i < self.list.len()
            invariant
                i <= self.list.len(),
                bucket(self@.skip(i as int), name@) == bucket(self@, name@),
            decreases self.list.len() - i,
        {
            let ghost rest = self@.skip(i as int);
            assert(rest[0] == self@[i as int]);
            assert(rest.drop_first() =~= self@.skip(i + 1));
            if crate::text::same_str(self.list[i].name, name) {
                return Some(&self.list[i].items);
            }
            i += 1;
        }
        None
    }
}

/// A new value for one field of an item.
#[derive(Debug)]
pub enum Change {
    Kind(Kind),
    Sex(Sex),
    Size(Size),
    Color(Rgb),
    Target(Target),
    Style(Style),
}

/// What a change holds.
pub enum ChangeView {
    Kind(Kind),
    Sex(Sex),
    Size(Size),
    Color(Rgb),
    Target(Target),
    Style(Seq<char>),
}

impl View for Change {
    type V = ChangeView;

    open spec fn view(&self) -> ChangeView {
        match self {
            Change::Kind(k) => ChangeView::Kind(*k),
            Change::Sex(s) => ChangeView::Sex(*s),
            Change::Size(s) => ChangeView::Size(*s),
            Change::Color(c) => ChangeView::Color(*c),
            Change::Target(t) => ChangeView::Target(*t),
            Change::Style(s) => ChangeView::Style(s@),
        }
    }
}

/// The item with one field changed. Its id stays.
pub open spec fn changed(c: ClthView, change: ChangeView) -> ClthView {
    match change {
        ChangeView::Kind(k) => ClthView { kind: k, ..c },
        ChangeView::Sex(s) => ClthView { sex: s, ..c },
        ChangeView::Size(s) => ClthView { size: s, ..c },
        ChangeView::Color(x) => ClthView { color: x, ..c },
        ChangeView::Target(t) => ClthView { target: t, ..c },
        ChangeView::Style(n) => ClthView { style: n, ..c },
    }
}

/// The items after the one of this id was changed in its place.
pub open spec fn updated(items: Seq<ClthView>, id: u32, change: ChangeView) -> Seq<ClthView>
    recommends
        has_id(items, id),
{
    items.update(index_of(item_ids(items), id), changed(item(items, id), change))
}

impl Clth {
    /// The item with one field changed.
    pub fn with(self, change: Change) -> (c: Clth)
        ensures
            c@ == changed(self@, change@),
    {
        let mut c = self;
        match change {
            Change::Kind(k) => {
                c.kind = k;
            },
            Change::Sex(s) => {
                c.sex = s;
            },
            Change::Size(s) => {
                c.size = s;
            },
            Change::Color(x) => {
                c.color = x;
            },
            Change::Target(t) => {
                c.target = t;
            },
            Change::Style(s) => {
                c.style = s;
            },
        }
        c
    }
}

impl Clothes {
    /// The items that have the property that the filter asks for, in their
    /// order.
    pub fn filter(&self, f: &Filter) -> (r: Clothes)
        ensures
            r@ == matching(self@, f@),
            r.wf(),
    {
        proof {
            use_type_invariant(self);
        }
        let mut out: Vec<Clth> = Vec::new();
        let mut i: usize = 0;
        proof {
            reveal(Seq::filter);
            assert(self@.take(0) =~= Seq::<ClthView>::empty());
            assert(Seq::new(out@.len(), |k: int| out@[k]@) =~= matching(self@.take(0), f@));
        }
        while i < self.list.len()
            invariant
                i <= self.list.len(),
                Seq::new(out@.len(), |k: int| out@[k]@) == matching(self@.take(i as int), f@),
            decreases self.list.len() - i,
        {
            let ghost before = Seq::new(out@.len(), |k: int| out@[k]@);
            proof {
                lemma_matching_step(self@, i as int, f@);
            }
            if self.list[i].meets(f) {
                out.push(self.list[i].clone());
                assert(Seq::new(out@.len(), |k: int| out@[k]@) =~= before.push(self@[i as int]));
            }
            i += 1;
        }
        proof {
            assert(self@.take(i as int) =~= self@);
            lemma_matching_ok(self@, f@);
        }
        let r = Clothes { list: out };
        assert(r@ =~= matching(self@, f@));
        r
    }

    /// The items of the given kind.
    pub fn filter_by_kind(&self, kind: Kind) -> (r: Clothes)
        ensures
            r@ == matching(self@, FilterView::Kind(kind)),
    {
        self.filter(&Filter::Kind(kind))
    }

    /// The items for the given sex.
    pub fn filter_by_sex(&self, sex: Sex) -> (r: Clothes)
        ensures
            r@ == matching(self@, FilterView::Sex(sex)),
    {
        self.filter(&Filter::Sex(sex))
    }

    /// The items of the given size.
    pub fn filter_by_size(&self, size: Size) -> (r: Clothes)
        ensures
            r@ == matching(self@, FilterView::Size(size)),
    {
        self.filter(&Filter::Size(size))
    }

    /// The items of the given color.
    pub fn filter_by_color(&self, color: Rgb) -> (r: Clothes)
        ensures
            r@ == matching(self@, FilterView::Color(color)),
    {
        self.filter(&Filter::Color(color))
    }

    /// The items whose style has exactly the given name.
    pub fn filter_by_style(&self, name: &str) -> (r: Clothes)
        ensures
            r@ == matching(self@, FilterView::Style(name@)),
    {
        self.filter(&Filter::Style(name.to_owned()))
    }

    /// The items in three groups by their disposition: `keep`, `donation`
    /// and `sale`.
    pub fn map_by_target(&self) -> (r: Buckets)
        ensures
            r@ == target_groups(self@),
    {
        let mut list: Vec<Bucket> = Vec::new();
        list.push(Bucket { name: "keep", items: self.filter(&Filter::Kept) });
        list.push(Bucket { name: "donation", items: self.filter(&Filter::Donated) });
        list.push(Bucket { name: "sale", items: self.filter(&Filter::OnSale) });
        let r = Buckets { list };
        assert(r@ =~= target_groups(self@));
        r
    }

    /// The items in three groups by their kind: `chest`, `leg` and `foot`.
    pub fn map_by_kind(&self) -> (r: Buckets)
        ensures
            r@ == kind_groups(self@),
    {
        let mut list: Vec<Bucket> = Vec::new();
        list.push(Bucket { name: "chest", items: self.filter(&Filter::Kind(Kind::Chest)) });
        list.push(Bucket { name: "leg", items: self.filter(&Filter::Kind(Kind::Leg)) });
        list.push(Bucket { name: "foot", items: self.filter(&Filter::Kind(Kind::Foot)) });
        let r = Buckets { list };
        assert(r@ =~= kind_groups(self@));
        r
    }

    /// Changes one field of the item of this id, in its place.
    pub fn update(&mut self, id: u32, change: Change) -> (r: Result<(), ClosetError>)
        ensures
            match r {
                Ok(_) => has_id(old(self)@, id) && final(self)@ == updated(
                    old(self)@,
                    id,
                    change@,
                ),
                Err(e) => !has_id(old(self)@, id) && e == ClosetError::NotFound && final(self)@
                    == old(self)@,
            },
            final(self).wf(),
    {
        proof {
            use_type_invariant(&*self);
        }
        let ids = self.ids();
        match find_id(&ids, id) {
            None => Err(ClosetError::NotFound),
            Some(i) => {
                let ghost before = self@;
                proof {
                    lemma_index_of(item_ids(before), id);
                    assert(item_ids(before)[i as int] == before[i as int].id);
                }
                let mut list: Vec<Clth> = Vec::new();
                std::mem::swap(&mut list, &mut self.list);
                let next = list[i].clone().with(change);
                list.set(i, next);
                proof {
                    let after = Seq::new(list@.len(), |k: int| list@[k]@);
                    assert(after =~= updated(before, id, change@));
                    assert(item_ids(after) =~= item_ids(before));
                }
                self.list = list;
                assert(self@ =~= updated(before, id, change@));
                Ok(())
            },
        }
    }
}

// ---------------------------------------------------------------------------
// Outfits
// ---------------------------------------------------------------------------

/// Three items worn together: one for the chest, one for the legs and one for
/// the feet, all of one style. An outfit holds the ids of its items.
#[derive(Debug, Clone, Copy, PartialEq, Eq)]
pub struct Outfit {
    id: u32,
    chest: u32,
    leg: u32,
    foot: u32,
}

/// What an outfit holds: its id and the ids of its three items.
pub struct OutfitView {
    pub id: u32,
    pub chest: u32,
    pub leg: u32,
    pub foot: u32,
}

impl View for Outfit {
    type V = OutfitView;

    closed spec fn view(&self) -> OutfitView {
        OutfitView { id: self.id, chest: self.chest, leg: self.leg, foot: self.foot }
    }
}

/// The outfit of the given id and items.
pub open spec fn outfit(id: u32, chest: u32, leg: u32, foot: u32) -> OutfitView {
    OutfitView { id, chest, leg, foot }
}

/// The ids of the three items of an outfit: chest, leg, foot.
pub open spec fn triple(o: OutfitView) -> Seq<u32> {
    seq![o.chest, o.leg, o.foot]
}

/// Whether one of the slots of the outfit holds this item.
pub open spec fn refers_to(o: OutfitView, item_id: u32) -> bool {
    o.chest == item_id || o.leg == item_id || o.foot == item_id
}

/// Whether each slot of the outfit holds an item that is there. An outfit
/// with a slot that does not is dangling.
pub open spec fn resolves(items: Seq<ClthView>, o: OutfitView) -> bool {
    has_id(items, o.chest) && has_id(items, o.leg) && has_id(items, o.foot)
}

/// Whether three items may make an outfit, and why not. Each must be there;
/// the three must share one style; and the first must be for the chest, the
/// second for the legs and the third for the feet.
pub open spec fn outfit_check(items: Seq<ClthView>, chest: u32, leg: u32, foot: u32) -> Result<
    (),
    ClosetError,
> {
    if !has_id(items, chest) || !has_id(items, leg) || !has_id(items, foot) {
        Err(ClosetError::BrokenReference)
    } else if !(item(items, chest).style == item(items, leg).style && item(items, leg).style
        == item(items, foot).style) {
        Err(ClosetError::StyleMismatch)
    } else if !(item(items, chest).kind == Kind::Chest && item(items, leg).kind == Kind::Leg
        && item(items, foot).kind == Kind::Foot) {
        Err(ClosetError::InvalidComposition)
    } else {
        Ok(())
    }
}

impl Outfit {
    /// Makes an outfit of three items of the registry, where they may make
    /// one.
    pub fn new(id: u32, chest: u32, leg: u32, foot: u32, clothes: &Clothes) -> (r: Result<
        Outfit,
        ClosetError,
    >)
        ensures
            match r {
                Ok(o) => outfit_check(clothes@, chest, leg, foot) is Ok && o@ == outfit(
                    id,
                    chest,
                    leg,
                    foot,
                ),
                Err(e) => outfit_check(clothes@, chest, leg, foot) == Err::<(), ClosetError>(e),
            },
    {
        let up = match clothes.get(chest) {
            Some(c) => c,
            None => {
                return Err(ClosetError::BrokenReference);
            },
        };
        let low = match clothes.get(leg) {
            Some(c) => c,
            None => {
                return Err(ClosetError::BrokenReference);
            },
        };
        let ft = match clothes.get(foot) {
            Some(c) => c,
            None => {
                return Err(ClosetError::BrokenReference);
            },
        };
        let same_style = crate::text::same_str(up.style.name.as_str(), low.style.name.as_str())
            && crate::text::same_str(low.style.name.as_str(), ft.style.name.as_str());
        if !same_style {
            return Err(ClosetError::StyleMismatch);
        }
        if up.kind == Kind::Chest && low.kind == Kind::Leg && ft.kind == Kind::Foot {
            Ok(Outfit { id, chest, leg, foot })
        } else {
            Err(ClosetError::InvalidComposition)
        }
    }

    /// The id of the outfit.
    pub fn id(&self) -> (r: u32)
        ensures
            r == self@.id,
    {
        self.id
    }

    /// The ids of the three items: chest, leg, foot.
    pub fn to_id_arr(&self) -> (r: [u32; 3])
        ensures
            r@ == triple(self@),
    {
        let r = [self.chest, self.leg, self.foot];
        assert(r@ =~= triple(self@));
        r
    }

    /// Whether each slot holds an item that the registry has.
    pub fn is_valid(&self, clothes: &Clothes) -> (r: bool)
        ensures
            r == resolves(clothes@, self@),
    {
        clothes.contains(self.chest) && clothes.contains(self.leg) && clothes.contains(self.foot)
    }

    /// The three items of the outfit, unless a slot is dangling.
    pub fn to_clothes(&self, clothes: &Clothes) -> (r: Result<Clothes, ClosetError>)
        ensures
            match r {
                Ok(c) => resolves(clothes@, self@) && c@ == added_all(
                    Seq::<ClthView>::empty(),
                    seq![
                        item(clothes@, self@.chest),
                        item(clothes@, self@.leg),
                        item(clothes@, self@.foot),
                    ],
                ),
                Err(e) => !resolves(clothes@, self@) && e == ClosetError::BrokenReference,
            },
    {
        match (clothes.get(self.chest), clothes.get(self.leg), clothes.get(self.foot)) {
            (Some(a), Some(b), Some(c)) => {
                let mut list: Vec<Clth> = Vec::new();
                list.push(a.clone());
                list.push(b.clone());
                list.push(c.clone());
                assert(Seq::new(list@.len(), |i: int| list@[i]@) =~= seq![
                    item(clothes@, self@.chest),
                    item(clothes@, self@.leg),
                    item(clothes@, self@.foot),
                ]);
                Ok(Clothes::from(list))
            },
            _ => Err(ClosetError::BrokenReference),
        }
    }
}

/// The ids of the outfits, in their order.
pub open spec fn outfit_ids(outfits: Seq<OutfitView>) -> Seq<u32> {
    Seq::new(outfits.len(), |i: int| outfits[i].id)
}

/// Whether an outfit is made of these three items.
pub open spec fn has_triple(outfits: Seq<OutfitView>, t: Seq<u32>) -> bool {
    exists|i: int| 0 <= i < outfits.len() && triple(#[trigger] outfits[i]) == t
}

/// Whether an outfit holds this item in one of its slots.
pub open spec fn in_use(outfits: Seq<OutfitView>, item_id: u32) -> bool {
    exists|i: int| 0 <= i < outfits.len() && refers_to(#[trigger] outfits[i], item_id)
}

/// Whether two outfits differ in their id and in their items.
pub open spec fn apart(a: OutfitView, b: OutfitView) -> bool {
    a.id != b.id && triple(a) != triple(b)
}

/// Whether the outfits can stand in a registry: no id occurs twice, no two
/// outfits are made of the same three items, and an id is left for one more.
pub open spec fn outfits_ok(outfits: Seq<OutfitView>) -> bool {
    &&& forall|i: int, j: int| 0 <= i < j < outfits.len() ==> apart(outfits[i], outfits[j])
    &&& outfits.len() <= u32::MAX
}

/// The outfits after `o` was added, or why it cannot be.
pub open spec fn outfit_added(outfits: Seq<OutfitView>, o: OutfitView) -> Result<
    Seq<OutfitView>,
    ClosetError,
> {
    if has_triple(outfits, triple(o)) {
        Err(ClosetError::DuplicateOutfit)
    } else if outfit_ids(outfits).contains(o.id) {
        Err(ClosetError::DuplicateId)
    } else if outfits.len() >= u32::MAX {
        Err(ClosetError::Full)
    } else {
        Ok(outfits.push(o))
    }
}

/// The outfits none of whose slots is dangling, in their order.
pub open spec fn cleaned(outfits: Seq<OutfitView>, items: Seq<ClthView>) -> Seq<OutfitView> {
    outfits.filter(|o: OutfitView| resolves(items, o))
}

/// The position of the first outfit made of these three items, or the
/// number of outfits where there is none.
pub open spec fn index_of_triple(outfits: Seq<OutfitView>, t: Seq<u32>) -> int
    decreases outfits.len(),
{
    if outfits.len() == 0 || triple(outfits[0]) == t {
        0
    } else {
        1 + index_of_triple(outfits.drop_first(), t)
    }
}

/// `index_of_triple` is the least position of an outfit of these items, and
/// is the number of outfits exactly when there is none.
pub proof fn lemma_index_of_triple(outfits: Seq<OutfitView>, t: Seq<u32>)
    ensures
        0 <= index_of_triple(outfits, t) <= outfits.len(),
        index_of_triple(outfits, t) < outfits.len() ==> triple(
            outfits[index_of_triple(outfits, t)],
        ) == t,
        forall|k: int| 0 <= k < index_of_triple(outfits, t) ==> triple(outfits[k]) != t,
        index_of_triple(outfits, t) < outfits.len() <==> has_triple(outfits, t),
    decreases outfits.len(),
{
    if outfits.len() == 0 || triple(outfits[0]) == t {
    } else {
        let rest = outfits.drop_first();
        lemma_index_of_triple(rest, t);
        assert forall|k: int| 0 <= k < index_of_triple(outfits, t) implies triple(outfits[k])
            != t by {
            if k > 0 {
                assert(outfits[k] == rest[k - 1]);
            }
        }
        if index_of_triple(rest, t) < rest.len() {
            assert(outfits[index_of_triple(outfits, t)] == rest[index_of_triple(rest, t)]);
        }
        if has_triple(outfits, t) {
            let j = choose|j: int| 0 <= j < outfits.len() && triple(#[trigger] outfits[j]) == t;
            assert(rest[j - 1] == outfits[j]);
        }
    }
}

/// After an item was taken out, the outfits with no dangling slot are those
/// that did not hold it, where no outfit had a dangling slot before.
pub proof fn clean_after_removal(items: Seq<ClthView>, outfits: Seq<OutfitView>, id: u32)
    requires
        items_ok(items),
        has_id(items, id),
        forall|i: int| 0 <= i < outfits.len() ==> resolves(items, #[trigger] outfits[i]),
    ensures
        cleaned(outfits, removed(items, id)) == outfits.filter(|o: OutfitView| !refers_to(o, id)),
{
    let ids = item_ids(items);
    let i = index_of(ids, id);
    lemma_index_of(ids, id);
    lemma_swap_removed(ids, i);
    lemma_ids_swap_removed(items, i);
    let left = removed(items, id);
    assert forall|k: int| 0 <= k < outfits.len() implies resolves(left, outfits[k]) == !refers_to(
        outfits[k],
        id,
    ) by {
        let o = outfits[k];
        assert(resolves(items, o));
    }
    lemma_filter_agree(
        outfits,
        |o: OutfitView| resolves(left, o),
        |o: OutfitView| !refers_to(o, id),
    );
}

/// The outfits that the closet owns.
#[derive(Debug)]
pub struct Outfits {
    list: Vec<Outfit>,
}

impl View for Outfits {
    type V = Seq<OutfitView>;

    closed spec fn view(&self) -> Seq<OutfitView> {
        Seq::new(self.list@.len(), |i: int| self.list@[i]@)
    }
}

impl Outfits {
    /// Whether no id and no three items come twice and an id is left: this
    /// holds of every registry of outfits.
    #[verifier::type_invariant]
    pub open spec fn wf(&self) -> bool {
        outfits_ok(self@)
    }

    pub fn new() -> (o: Outfits)
        ensures
            o@ == Seq::<OutfitView>::empty(),
            o.wf(),
    {
        let o = Outfits { list: Vec::new() };
        assert(o@ =~= Seq::<OutfitView>::empty());
        o
    }

    /// The number of outfits.
    pub fn len(&self) -> (n: usize)
        ensures
            n == self@.len(),
    {
        self.list.len()
    }

    pub fn is_empty(&self) -> (b: bool)
        ensures
            b == (self@.len() == 0),
    {
        self.list.len() == 0
    }

    /// The ids of the outfits, in their order.
    pub fn ids(&self) -> (r: Vec<u32>)
        ensures
            r@ == outfit_ids(self@),
    {
        let mut r: Vec<u32> = Vec::new();
        let mut i: usize = 0;
        while i < self.list.len()
            invariant
                i <= self.list.len(),
                r@ == outfit_ids(self@).take(i as int),
            decreases self.list.len() - i,
        {
            r.push(self.list[i].id);
            assert(r@ =~= outfit_ids(self@).take(i + 1));
            i += 1;
        }
        assert(r@ =~= outfit_ids(self@));
        r
    }

    /// Where the first outfit of these three items stands.
    fn position(&self, chest: u32, leg: u32, foot: u32) -> (r: Option<usize>)
        ensures
            r is Some <==> has_triple(self@, seq![chest, leg, foot]),
            r is Some ==> r->0 < self@.len() && r->0 == index_of_triple(
                self@,
                seq![chest, leg, foot],
            ),
    {
        let ghost t = seq![chest, leg, foot];
        proof {
            lemma_index_of_triple(self@, t);
        }
        let mut i: usize = 0;
        while i < self.list.len()
            invariant
                i <= self.list.len(),
                t == seq![chest, leg, foot],
                forall|k: int| 0 <= k < i ==> triple(self@[k]) != t,
                i <= index_of_triple(self@, t),
            decreases self.list.len() - i,
        {
            let o = &self.list[i];
            proof {
                lemma_index_of_triple(self@, t);
            }
            if o.chest == chest && o.leg == leg && o.foot == foot {
                assert(triple(self@[i as int]) =~= t);
                return Some(i);
            }
            assert(triple(self@[i as int])[0] == o.chest);
            assert(triple(self@[i as int])[1] == o.leg);
            assert(triple(self@[i as int])[2] == o.foot);
            assert(t[0] == chest && t[1] == leg && t[2] == foot);
            i += 1;
        }
        None
    }

    /// Takes an outfit in, unless one of the same three items, or of the
    /// same id, is there already.
    pub fn add(&mut self, outfit: Outfit) -> (r: Result<(), ClosetError>)
        ensures
            match r {
                Ok(_) => outfit_added(old(self)@, outfit@) == Ok::<Seq<OutfitView>, ClosetError>(
                    final(self)@,
                ),
                Err(e) => outfit_added(old(self)@, outfit@) == Err::<
                    Seq<OutfitView>,
                    ClosetError,
                >(e) && final(self)@ == old(self)@,
            },
            final(self).wf(),
    {
        proof {
            use_type_invariant(&*self);
            assert(triple(outfit@) =~= seq![outfit.chest, outfit.leg, outfit.foot]);
        }
        if self.position(outfit.chest, outfit.leg, outfit.foot).is_some() {
            return Err(ClosetError::DuplicateOutfit);
        }
        let ids = self.ids();
        if find_id(&ids, outfit.id).is_some() {
            return Err(ClosetError::DuplicateId);
        }
        if self.list.len() >= u32::MAX as usize {
            return Err(ClosetError::Full);
        }
        let ghost before = self@;
        let mut list: Vec<Outfit> = Vec::new();
        std::mem::swap(&mut list, &mut self.list);
        list.push(outfit);
        proof {
            let after = Seq::new(list@.len(), |i: int| list@[i]@);
            assert(after =~= before.push(outfit@));
            assert forall|i: int, j: int| 0 <= i < j < after.len() implies apart(
                after[i],
                after[j],
            ) by {
                if j == before.len() {
                    assert(outfit_ids(before)[i] == before[i].id);
                    assert(triple(before[i]) != triple(outfit@));
                }
            }
        }
        self.list = list;
        assert(self@ =~= before.push(outfit@));
        Ok(())
    }

    /// Hands back the outfit of this id; the last outfit takes its place.
    pub fn remove(&mut self, id: u32) -> (r: Result<Outfit, ClosetError>)
        ensures
            match r {
                Ok(o) => outfit_ids(old(self)@).contains(id) && o@ == old(self)@[index_of(
                    outfit_ids(old(self)@),
                    id,
                )] && final(self)@ == swap_removed(
                    old(self)@,
                    index_of(outfit_ids(old(self)@), id),
                ),
                Err(e) => !outfit_ids(old(self)@).contains(id) && e == ClosetError::NotFound
                    && final(self)@ == old(self)@,
            },
            final(self).wf(),
    {
        proof {
            use_type_invariant(&*self);
        }
        let ids = self.ids();
        match find_id(&ids, id) {
            None => Err(ClosetError::NotFound),
            Some(i) => {
                let ghost before = self@;
                let mut list: Vec<Outfit> = Vec::new();
                std::mem::swap(&mut list, &mut self.list);
                let o = list.swap_remove(i);
                proof {
                    let after = Seq::new(list@.len(), |k: int| list@[k]@);
                    assert(after =~= swap_removed(before, i as int));
                    let last = before.len() - 1;
                    assert forall|a: int, b: int| 0 <= a < b < after.len() implies apart(
                        after[a],
                        after[b],
                    ) by {
                        let a0 = if a == i { last } else { a };
                        let b0 = if b == i { last } else { b };
                        assert(after[a] == before[a0]);
                        assert(after[b] == before[b0]);
                        if a0 < b0 {
                            assert(apart(before[a0], before[b0]));
                        } else {
                            assert(apart(before[b0], before[a0]));
                        }
                    }
                    assert(o@ == before[i as int]);
                }
                self.list = list;
                assert(self@ =~= swap_removed(before, i as int));
                Ok(o)
            },
        }
    }

    /// The items of every outfit: chest, leg, foot.
    pub fn to_id_matrix(&self) -> (r: Vec<[u32; 3]>)
        ensures
            r@.len() == self@.len(),
            forall|i: int| 0 <= i < r@.len() ==> (#[trigger] r@[i])@ == triple(self@[i]),
    {
        let mut r: Vec<[u32; 3]> = Vec::new();
        let mut i: usize = 0;
        while i < self.list.len()
            invariant
                i <= self.list.len(),
                r@.len() == i,
                forall|k: int| 0 <= k < i ==> (#[trigger] r@[k])@ == triple(self@[k]),
            decreases self.list.len() - i,
        {
            r.push(self.list[i].to_id_arr());
            i += 1;
        }
        r
    }

    /// The outfit of this id.
    pub fn get(&self, id: u32) -> (r: Option<&Outfit>)
        ensures
            r is Some <==> outfit_ids(self@).contains(id),
            r is Some ==> r->0@ == self@[index_of(outfit_ids(self@), id)] && r->0@.id == id,
    {
        let ids = self.ids();
        match find_id(&ids, id) {
            None => None,
            Some(i) => {
                proof {
                    lemma_index_of(outfit_ids(self@), id);
                    assert(outfit_ids(self@)[i as int] == self@[i as int].id);
                    assert(self@[i as int] == self.list@[i as int]@);
                }
                Some(&self.list[i])
            },
        }
    }

    /// The outfit made of these three items: chest, leg, foot.
    pub fn get_by_triple(&self, ids: [u32; 3]) -> (r: Option<&Outfit>)
        ensures
            r is Some <==> has_triple(self@, ids@),
            r is Some ==> r->0@ == self@[index_of_triple(self@, ids@)] && triple(r->0@) == ids@,
    {
        assert(ids@ =~= seq![ids[0], ids[1], ids[2]]);
        match self.position(ids[0], ids[1], ids[2]) {
            None => None,
            Some(i) => {
                proof {
                    lemma_index_of_triple(self@, ids@);
                    assert(self@[i as int] == self.list@[i as int]@);
                }
                Some(&self.list[i])
            },
        }
    }

    /// The smallest number that is the id of no outfit.
    pub fn request_id(&self) -> (id: u32)
        ensures
            is_smallest_free(outfit_ids(self@), id),
    {
        proof {
            use_type_invariant(self);
        }
        let ids = self.ids();
        first_free(&ids)
    }

    /// Whether an outfit holds this item in one of its slots.
    pub fn references(&self, item_id: u32) -> (r: bool)
        ensures
            r == in_use(self@, item_id),
    {
        let mut i: usize = 0;
        while i < self.list.len()
            invariant
                i <= self.list.len(),
                forall|k: int| 0 <= k < i ==> !refers_to(#[trigger] self@[k], item_id),
            decreases self.list.len() - i,
        {
            let o = &self.list[i];
            if o.chest == item_id || o.leg == item_id || o.foot == item_id {
                assert(refers_to(self@[i as int], item_id));
                return true;
            }
            i += 1;
        }
        false
    }

    /// Drops every outfit that has a dangling slot: one whose item the
    /// registry of items no longer holds. The others stay in their order.
    pub fn clean(&mut self, clothes: &Clothes)
        ensures
            final(self)@ == cleaned(old(self)@, clothes@),
            final(self).wf(),
    {
        proof {
            use_type_invariant(&*self);
        }
        let ghost before = self@;
        let ghost pred = |o: OutfitView| resolves(clothes@, o);
        let mut kept: Vec<Outfit> = Vec::new();
        let mut i: usize = 0;
        proof {
            reveal(Seq::filter);
            assert(before.take(0) =~= Seq::<OutfitView>::empty());
            assert(Seq::new(kept@.len(), |k: int| kept@[k]@) =~= before.take(0).filter(pred));
        }
        while i < self.list.len()
            invariant
                i <= self.list.len(),
                before == self@,
                pred == (|o: OutfitView| resolves(clothes@, o)),
                Seq::new(kept@.len(), |k: int| kept@[k]@) == before.take(i as int).filter(pred),
            decreases self.list.len() - i,
        {
            let ghost so_far = Seq::new(kept@.len(), |k: int| kept@[k]@);
            proof {
                lemma_filter_step(before, i as int, pred);
            }
            if self.list[i].is_valid(clothes) {
                kept.push(self.list[i]);
                assert(Seq::new(kept@.len(), |k: int| kept@[k]@) =~= so_far.push(
                    before[i as int],
                ));
            }
            i += 1;
        }
        proof {
            assert(before.take(i as int) =~= before);
            lemma_filter_pairs(before, pred, |a: OutfitView, b: OutfitView| apart(a, b));
            let after = Seq::new(kept@.len(), |k: int| kept@[k]@);
            assert(after == cleaned(before, clothes@));
            assert(outfits_ok(after));
        }
        self.list = kept;
        assert(self@ =~= cleaned(before, clothes@));
    }
}

// ---------------------------------------------------------------------------
// Drafts
// ---------------------------------------------------------------------------

/// An item in the making: each field is filled in on its own.
#[derive(Debug, Clone, Copy, PartialEq, Eq, Structural)]
pub struct ClthBuffer {
    pub kind: Option<Kind>,
    pub sex: Option<Sex>,
    pub size: Option<Size>,
    pub color: Option<Rgb>,
    pub price: Option<u64>,
    pub target: Option<Target>,
}

/// The first field that an item in the making still lacks.
pub open spec fn first_missing(b: ClthBuffer) -> Option<Field> {
    if b.kind is None {
        Some(Field::Kind)
    } else if b.sex is None {
        Some(Field::Sex)
    } else if b.size is None {
        Some(Field::Size)
    } else if b.color is None {
        Some(Field::Color)
    } else if b.target is None {
        Some(Field::Target)
    } else {
        None
    }
}

impl ClthBuffer {
    pub fn new() -> (b: ClthBuffer)
        ensures
            b == (ClthBuffer {
                kind: None,
                sex: None,
                size: None,
                color: None,
                price: None,
                target: None,
            }),
    {
        ClthBuffer { kind: None, sex: None, size: None, color: None, price: None, target: None }
    }

    /// The finished item, once no field is missing.
    pub fn to_clth(self, id: u32, date: Date, style: Style) -> (r: Result<Clth, ClosetError>)
        ensures
            match r {
                Ok(c) => first_missing(self) is None && c@ == (ClthView {
                    id,
                    kind: self.kind->0,
                    sex: self.sex->0,
                    size: self.size->0,
                    color: self.color->0,
                    target: self.target->0,
                    purchase_date: date@,
                    style: style@,
                }),
                Err(e) => first_missing(self) is Some && e == ClosetError::IncompleteDraft(
                    first_missing(self)->0,
                ),
            },
    {
        let kind = match self.kind {
            Some(v) => v,
            None => {
                return Err(ClosetError::IncompleteDraft(Field::Kind));
            },
        };
        let sex = match self.sex {
            Some(v) => v,
            None => {
                return Err(ClosetError::IncompleteDraft(Field::Sex));
            },
        };
        let size = match self.size {
            Some(v) => v,
            None => {
                return Err(ClosetError::IncompleteDraft(Field::Size));
            },
        };
        let color = match self.color {
            Some(v) => v,
            None => {
                return Err(ClosetError::IncompleteDraft(Field::Color));
            },
        };
        let target = match self.target {
            Some(v) => v,
            None => {
                return Err(ClosetError::IncompleteDraft(Field::Target));
            },
        };
        Ok(Clth::new(id, kind, sex, size, color, target, date, style))
    }
}

/// An outfit in the making: each slot is filled in on its own, with the id of
/// an item.
#[derive(Debug, Clone, Copy, PartialEq, Eq, Structural)]
pub struct OutfitBuffer {
    pub chest: Option<u32>,
    pub leg: Option<u32>,
    pub foot: Option<u32>,
}

/// What the making of an outfit from a draft gives.
pub open spec fn draft_check(b: OutfitBuffer, items: Seq<ClthView>) -> Result<(), ClosetError> {
    if b.chest is None {
        Err(ClosetError::IncompleteDraft(Field::Chest))
    } else if b.leg is None {
        Err(ClosetError::IncompleteDraft(Field::Leg))
    } else if b.foot is None {
        Err(ClosetError::IncompleteDraft(Field::Foot))
    } else {
        outfit_check(items, b.chest->0, b.leg->0, b.foot->0)
    }
}

impl OutfitBuffer {
    pub fn new() -> (b: OutfitBuffer)
        ensures
            b == (OutfitBuffer { chest: None, leg: None, foot: None }),
    {
        OutfitBuffer { chest: None, leg: None, foot: None }
    }

    /// The finished outfit, once no slot is empty and the three items may
    /// make one.
    pub fn to_outfit(self, id: u32, clothes: &Clothes) -> (r: Result<Outfit, ClosetError>)
        ensures
            match r {
                Ok(o) => draft_check(self, clothes@) is Ok && o@ == outfit(
                    id,
                    self.chest->0,
                    self.leg->0,
                    self.foot->0,
                ),
                Err(e) => draft_check(self, clothes@) == Err::<(), ClosetError>(e),
            },
    {
        let chest = match self.chest {
            Some(v) => v,
            None => {
                return Err(ClosetError::IncompleteDraft(Field::Chest));
            },
        };
        let leg = match self.leg {
            Some(v) => v,
            None => {
                return Err(ClosetError::IncompleteDraft(Field::Leg));
            },
        };
        let foot = match self.foot {
            Some(v) => v,
            None => {
                return Err(ClosetError::IncompleteDraft(Field::Foot));
            },
        };
        Outfit::new(id, chest, leg, foot, clothes)
    }
}

// ---------------------------------------------------------------------------
// Writing
// ---------------------------------------------------------------------------

/// The line that stores a number under a key.
pub open spec fn number_line(key: Seq<char>, n: nat) -> Seq<char> {
    key + " = "@ + decimal_text(n)
}

/// The line that stores a text under a key: the text stands between double
/// quotes, as it is.
pub open spec fn text_line(key: Seq<char>, value: Seq<char>) -> Seq<char> {
    key + " = \""@ + value + "\""@
}

/// The lines of the chunk that stores an item: the header, and the fields
/// in the order id, kind, sex, size, color, target, purchase date, style.
pub open spec fn clth_lines(c: ClthView) -> Seq<Seq<char>> {
    seq![
        "[clth]"@,
        number_line(field_name(Field::Id), c.id as nat),
        text_line(field_name(Field::Kind), c.kind.text()),
        text_line(field_name(Field::Sex), c.sex.text()),
        text_line(field_name(Field::Size), c.size.text()),
        text_line(field_name(Field::Color), c.color.hex()),
        text_line(field_name(Field::Target), c.target.text()),
        text_line(field_name(Field::PurchaseDate), date_text(c.purchase_date)),
        text_line(field_name(Field::Style), c.style),
    ]
}

/// The chunk that stores an item.
pub open spec fn clth_toml(c: ClthView) -> Seq<char> {
    joined(clth_lines(c), "\n"@)
}

/// The lines that show an item.
pub open spec fn clth_text_lines(c: ClthView) -> Seq<Seq<char>> {
    seq![
        "Id: "@ + decimal_text(c.id as nat),
        "Kind: "@ + c.kind.text(),
        "Sex: "@ + c.sex.text(),
        "Size: "@ + c.size.text(),
        "Color: "@ + c.color.text(),
        "Target: "@ + c.target.text(),
        "Purchase date: "@ + date_text(c.purchase_date),
        "Style: "@ + c.style,
    ]
}

/// The text that shows an item.
pub open spec fn clth_text(c: ClthView) -> Seq<char> {
    joined(clth_text_lines(c), "\n"@)
}

/// The chunks that store the items, with an empty line between each two.
pub open spec fn clothes_toml(items: Seq<ClthView>) -> Seq<char> {
    joined(Seq::new(items.len(), |i: int| clth_toml(items[i])), "\n\n"@)
}

/// The text that shows the items, with an empty line between each two.
pub open spec fn clothes_text(items: Seq<ClthView>) -> Seq<char> {
    if items.len() == 0 {
        "No clothes to display!"@
    } else {
        joined(Seq::new(items.len(), |i: int| clth_text(items[i])), "\n\n"@)
    }
}

/// The lines of the chunk that stores an outfit: the header, and the ids of
/// its three items.
pub open spec fn outfit_lines(o: OutfitView) -> Seq<Seq<char>> {
    seq![
        "[outfit]"@,
        number_line(field_name(Field::Chest), o.chest as nat),
        number_line(field_name(Field::Leg), o.leg as nat),
        number_line(field_name(Field::Foot), o.foot as nat),
    ]
}

/// The chunk that stores an outfit.
pub open spec fn outfit_toml(o: OutfitView) -> Seq<char> {
    joined(outfit_lines(o), "\n"@)
}

/// The chunks that store the outfits, with an empty line between each two.
pub open spec fn outfits_toml(outfits: Seq<OutfitView>) -> Seq<char> {
    joined(Seq::new(outfits.len(), |i: int| outfit_toml(outfits[i])), "\n\n"@)
}

/// The text that shows an outfit: a title with its id, and its three items
/// with an empty line between each two.
pub open spec fn outfit_text(o: OutfitView, items: Seq<ClthView>) -> Seq<char>
    recommends
        resolves(items, o),
{
    "[ Outfit "@ + decimal_text(o.id as nat) + " ]\n"@ + joined(
        seq![
            clth_text(item(items, o.chest)),
            clth_text(item(items, o.leg)),
            clth_text(item(items, o.foot)),
        ],
        "\n\n"@,
    )
}

/// The text that shows the outfits, each on lines of its own.
pub open spec fn outfits_text(outfits: Seq<OutfitView>, items: Seq<ClthView>) -> Seq<char> {
    if outfits.len() == 0 {
        "No outfits to display!"@
    } else {
        joined(Seq::new(outfits.len(), |i: int| outfit_text(outfits[i], items)), "\n"@)
    }
}

/// The characters of the line that stores a number under the name of a
/// field.
fn number_line_chars(f: Field, n: u32) -> (v: Vec<char>)
    ensures
        v@ == number_line(field_name(f), n as nat),
{
    let mut v = chars_of(f.name());
    append_str(&mut v, " = ");
    append(&mut v, &decimal_of(n as u64));
    v
}

/// The characters of the line that stores a text under the name of a field.
fn text_line_chars(f: Field, value: &str) -> (v: Vec<char>)
    ensures
        v@ == text_line(field_name(f), value@),
{
    let mut v = chars_of(f.name());
    append_str(&mut v, " = \"");
    append_str(&mut v, value);
    append_str(&mut v, "\"");
    v
}

/// The characters of a label and of what it is the label of.
fn labelled(label: &str, value: &str) -> (v: Vec<char>)
    ensures
        v@ == label@ + value@,
{
    let mut v = chars_of(label);
    append_str(&mut v, value);
    v
}

impl Clth {
    fn toml_chars(&self) -> (v: Vec<char>)
        ensures
            v@ == clth_toml(self@),
    {
        let mut lines: Vec<Vec<char>> = Vec::new();
        lines.push(chars_of("[clth]"));
        lines.push(number_line_chars(Field::Id, self.id));
        lines.push(text_line_chars(Field::Kind, self.kind.to_string().as_str()));
        lines.push(text_line_chars(Field::Sex, self.sex.to_string().as_str()));
        lines.push(text_line_chars(Field::Size, self.size.to_string().as_str()));
        lines.push(text_line_chars(Field::Color, self.color.to_hex().as_str()));
        lines.push(text_line_chars(Field::Target, self.target.to_string().as_str()));
        lines.push(text_line_chars(Field::PurchaseDate, self.purchase_date.to_string().as_str()));
        lines.push(text_line_chars(Field::Style, self.style.name.as_str()));
        assert(views(lines@) =~= clth_lines(self@));
        join(&lines, "\n")
    }

    fn text_chars(&self) -> (v: Vec<char>)
        ensures
            v@ == clth_text(self@),
    {
        let mut lines: Vec<Vec<char>> = Vec::new();
        lines.push(labelled("Id: ", string_of(&decimal_of(self.id as u64)).as_str()));
        lines.push(labelled("Kind: ", self.kind.to_string().as_str()));
        lines.push(labelled("Sex: ", self.sex.to_string().as_str()));
        lines.push(labelled("Size: ", self.size.to_string().as_str()));
        lines.push(labelled("Color: ", self.color.to_string().as_str()));
        lines.push(labelled("Target: ", self.target.to_string().as_str()));
        lines.push(labelled("Purchase date: ", self.purchase_date.to_string().as_str()));
        lines.push(labelled("Style: ", self.style.name.as_str()));
        assert(views(lines@) =~= clth_text_lines(self@));
        join(&lines, "\n")
    }

    /// Writes the chunk that stores the item.
    pub fn to_toml(&self) -> (r: String)
        ensures
            r@ == clth_toml(self@),
    {
        string_of(&self.toml_chars())
    }

    /// Writes the text that shows the item.
    pub fn to_string(&self) -> (r: String)
        ensures
            r@ == clth_text(self@),
    {
        string_of(&self.text_chars())
    }
}

impl Clothes {
    /// Writes the chunks that store the items.
    pub fn to_toml(&self) -> (r: String)
        ensures
            r@ == clothes_toml(self@),
    {
        let mut parts: Vec<Vec<char>> = Vec::new();
        let mut i: usize = 0;
        while i < self.list.len()
            invariant
                i <= self.list.len(),
                parts@.len() == i,
                forall|k: int| 0 <= k < i ==> (#[trigger] parts@[k])@ == clth_toml(self@[k]),
            decreases self.list.len() - i,
        {
            parts.push(self.list[i].toml_chars());
            i += 1;
        }
        assert(views(parts@) =~= Seq::new(self@.len(), |i: int| clth_toml(self@[i])));
        string_of(&join(&parts, "\n\n"))
    }

    /// Writes the text that shows the items.
    pub fn to_string(&self) -> (r: String)
        ensures
            r@ == clothes_text(self@),
    {
        if self.list.len() == 0 {
            return "No clothes to display!".to_owned();
        }
        let mut parts: Vec<Vec<char>> = Vec::new();
        let mut i: usize = 0;
        while i < self.list.len()
            invariant
                i <= self.list.len(),
                parts@.len() == i,
                forall|k: int| 0 <= k < i ==> (#[trigger] parts@[k])@ == clth_text(self@[k]),
            decreases self.list.len() - i,
        {
            parts.push(self.list[i].text_chars());
            i += 1;
        }
        assert(views(parts@) =~= Seq::new(self@.len(), |i: int| clth_text(self@[i])));
        string_of(&join(&parts, "\n\n"))
    }
}

impl Outfit {
    fn toml_chars(&self) -> (v: Vec<char>)
        ensures
            v@ == outfit_toml(self@),
    {
        let mut lines: Vec<Vec<char>> = Vec::new();
        lines.push(chars_of("[outfit]"));
        lines.push(number_line_chars(Field::Chest, self.chest));
        lines.push(number_line_chars(Field::Leg, self.leg));
        lines.push(number_line_chars(Field::Foot, self.foot));
        assert(views(lines@) =~= outfit_lines(self@));
        join(&lines, "\n")
    }

    fn text_chars(&self, clothes: &Clothes) -> (r: Option<Vec<char>>)
        ensures
            r is Some <==> resolves(clothes@, self@),
            r is Some ==> r->0@ == outfit_text(self@, clothes@),
    {
        match (clothes.get(self.chest), clothes.get(self.leg), clothes.get(self.foot)) {
            (Some(a), Some(b), Some(c)) => {
                let mut parts: Vec<Vec<char>> = Vec::new();
                parts.push(a.text_chars());
                parts.push(b.text_chars());
                parts.push(c.text_chars());
                assert(views(parts@) =~= seq![
                    clth_text(item(clothes@, self@.chest)),
                    clth_text(item(clothes@, self@.leg)),
                    clth_text(item(clothes@, self@.foot)),
                ]);
                let mut v = chars_of("[ Outfit ");
                append(&mut v, &decimal_of(self.id as u64));
                append_str(&mut v, " ]\n");
                append(&mut v, &join(&parts, "\n\n"));
                Some(v)
            },
            _ => None,
        }
    }

    /// Writes the chunk that stores the outfit.
    pub fn to_toml(&self) -> (r: String)
        ensures
            r@ == outfit_toml(self@),
    {
        string_of(&self.toml_chars())
    }

    /// Writes the text that shows the outfit, unless a slot is dangling.
    pub fn to_string(&self, clothes: &Clothes) -> (r: Result<String, ClosetError>)
        ensures
            match r {
                Ok(s) => resolves(clothes@, self@) && s@ == outfit_text(self@, clothes@),
                Err(e) => !resolves(clothes@, self@) && e == ClosetError::BrokenReference,
            },
    {
        match self.text_chars(clothes) {
            Some(v) => Ok(string_of(&v)),
            None => Err(ClosetError::BrokenReference),
        }
    }
}

impl Outfits {
    /// Writes the chunks that store the outfits.
    pub fn to_toml(&self) -> (r: String)
        ensures
            r@ == outfits_toml(self@),
    {
        let mut parts: Vec<Vec<char>> = Vec::new();
        let mut i: usize = 0;
        while i < self.list.len()
            invariant
                i <= self.list.len(),
                parts@.len() == i,
                forall|k: int| 0 <= k < i ==> (#[trigger] parts@[k])@ == outfit_toml(self@[k]),
            decreases self.list.len() - i,
        {
            parts.push(self.list[i].toml_chars());
            i += 1;
        }
        assert(views(parts@) =~= Seq::new(self@.len(), |i: int| outfit_toml(self@[i])));
        string_of(&join(&parts, "\n\n"))
    }

    /// Writes the text that shows the outfits, unless one of them has a
    /// dangling slot.
    pub fn to_string(&self, clothes: &Clothes) -> (r: Result<String, ClosetError>)
        ensures
            match r {
                Ok(s) => cleaned(self@, clothes@) == self@ && s@ == outfits_text(
                    self@,
                    clothes@,
                ),
                Err(e) => cleaned(self@, clothes@) != self@ && e == ClosetError::BrokenReference,
            },
    {
        let ghost pred = |o: OutfitView| resolves(clothes@, o);
        if self.list.len() == 0 {
            proof {
                reveal(Seq::filter);
                assert(self@ =~= Seq::<OutfitView>::empty());
            }
            return Ok("No outfits to display!".to_owned());
        }
        let mut parts: Vec<Vec<char>> = Vec::new();
        let mut i: usize = 0;
        while i < self.list.len()
            invariant
                i <= self.list.len(),
                parts@.len() == i,
                pred == (|o: OutfitView| resolves(clothes@, o)),
                forall|k: int|
                    0 <= k < i ==> (#[trigger] parts@[k])@ == outfit_text(self@[k], clothes@),
                forall|k: int| 0 <= k < i ==> resolves(clothes@, #[trigger] self@[k]),
            decreases self.list.len() - i,
        {
            let part = match self.list[i].text_chars(clothes) {
                Some(p) => p,
                None => {
                    proof {
                        assert(!resolves(clothes@, self@[i as int]));
                        if cleaned(self@, clothes@) == self@ {
                            self@.lemma_filter_pred(pred, i as int);
                        }
                    }
                    return Err(ClosetError::BrokenReference);
                },
            };
            parts.push(part);
            i += 1;
        }
        proof {
            assert(views(parts@) =~= Seq::new(
                self@.len(),
                |i: int| outfit_text(self@[i], clothes@),
            ));
            lemma_filter_all(self@, pred);
        }
        Ok(string_of(&join(&parts, "\n")))
    }
}

/// A filter that every element passes keeps the whole sequence.
pub proof fn lemma_filter_all<A>(s: Seq<A>, pred: spec_fn(A) -> bool)
    requires
        forall|i: int| 0 <= i < s.len() ==> pred(#[trigger] s[i]),
    ensures
        s.filter(pred) == s,
    decreases s.len(),
{
    reveal(Seq::filter);
    if s.len() > 0 {
        let rest = s.drop_last();
        assert forall|i: int| 0 <= i < rest.len() implies pred(#[trigger] rest[i]) by {
            assert(rest[i] == s[i]);
        }
        lemma_filter_all(rest, pred);
        assert(pred(s[s.len() - 1]));
        assert(rest.push(s.last()) =~= s);
    }
}

// ---------------------------------------------------------------------------
// Laws
// ---------------------------------------------------------------------------

/// The id of an item that is taken out is the next one that the registry
/// hands out, where every smaller number is the id of an item.
pub proof fn removed_item_id_is_next(items: Seq<ClthView>, id: u32)
    requires
        items_ok(items),
        has_id(items, id),
        forall|k: u32| k < id ==> has_id(items, k),
    ensures
        is_smallest_free(item_ids(removed(items, id)), id),
{
    let ids = item_ids(items);
    lemma_index_of(ids, id);
    lemma_ids_swap_removed(items, index_of(ids, id));
    assert forall|k: u32| k < id implies ids.contains(k) by {
        assert(has_id(items, k));
    }
    crate::ids::removed_id_is_next(ids, id);
}

/// Three items make an outfit exactly when each is there, the first is for
/// the chest, the second for the legs and the third for the feet, and the
/// three share one style.
pub proof fn outfit_accepted_iff(items: Seq<ClthView>, chest: u32, leg: u32, foot: u32)
    ensures
        outfit_check(items, chest, leg, foot) is Ok <==> {
            &&& has_id(items, chest)
            &&& has_id(items, leg)
            &&& has_id(items, foot)
            &&& item(items, chest).kind == Kind::Chest
            &&& item(items, leg).kind == Kind::Leg
            &&& item(items, foot).kind == Kind::Foot
            &&& item(items, chest).style == item(items, leg).style
            &&& item(items, leg).style == item(items, foot).style
        },
{
}

/// Once an outfit is in the registry, another of the same three items is
/// refused, whatever its id.
pub proof fn same_items_are_refused(outfits: Seq<OutfitView>, first: OutfitView, second: OutfitView)
    requires
        outfit_added(outfits, first) is Ok,
        triple(second) == triple(first),
    ensures
        outfit_added(outfit_added(outfits, first)->Ok_0, second) == Err::<
            Seq<OutfitView>,
            ClosetError,
        >(ClosetError::DuplicateOutfit),
{
    let next = outfits.push(first);
    assert(triple(next[outfits.len() as int]) == triple(second));
}

/// An outfit of three items that the registry already holds as an outfit is
/// refused, whatever its id.
pub proof fn held_items_are_refused(outfits: Seq<OutfitView>, o: OutfitView)
    requires
        has_triple(outfits, triple(o)),
    ensures
        outfit_added(outfits, o) == Err::<Seq<OutfitView>, ClosetError>(
            ClosetError::DuplicateOutfit,
        ),
{
}

} // verus!
