//! Menus: labelled actions and submenus, and the path of a walk through
//! them.

use crate::text::{
    append, append_str, chars_of, decimal_of, decimal_text, parse_unsigned, string_of, trim,
    trimmed, unsigned_up_to,
};
use std::rc::Rc;
use vstd::prelude::*;

verus! {

/// An action of a menu: a label and the value that choosing it gives.
#[derive(Debug)]
pub struct Act<T: Clone> {
    pub label: String,
    pub value: T,
}

impl<T: Clone> Act<T> {
    pub fn new(label: &str, value: T) -> (a: Act<T>)
        ensures
            a.label@ == label@,
            a.value == value,
    {
        Act { label: label.to_owned(), value }
    }
}

/// An entry of a menu.
#[derive(Debug)]
pub enum Item<T: Clone> {
    Submenu(Rc<Menu<T>>),
    Action(Act<T>),
}

/// A labelled list of actions and submenus.
#[derive(Debug)]
pub struct Menu<T: Clone> {
    pub label: String,
    pub items: Vec<Item<T>>,
}

impl<T: Clone> Item<T> {
    /// The label of the entry: that of the action, or that of the submenu.
    pub open spec fn label_text(&self) -> Seq<char> {
        match self {
            Item::Submenu(sub) => sub.label@,
            Item::Action(act) => act.label@,
        }
    }

    /// The label of the entry.
    pub fn label(&self) -> (r: &str)
        ensures
            r@ == self.label_text(),
    {
        match self {
            Item::Submenu(sub) => sub.label.as_str(),
            Item::Action(act) => act.label.as_str(),
        }
    }
}

/// Whether a menu is made of actions with these labels and values, in their
/// order.
pub open spec fn acts<T: Clone>(m: Menu<T>, entries: Seq<(Seq<char>, T)>) -> bool {
    &&& m.items@.len() == entries.len()
    &&& forall|i: int|
        0 <= i < entries.len() ==> match #[trigger] m.items@[i] {
            Item::Action(act) => act.label@ == entries[i].0 && act.value == entries[i].1,
            Item::Submenu(_) => false,
        }
}

/// The line that shows the entry at position `i`.
pub open spec fn entry_line(i: nat, label: Seq<char>) -> Seq<char> {
    "["@ + decimal_text(i) + "] "@ + label
}

/// The number that a line of input names, where it is one.
pub open spec fn choice_of(input: Seq<char>) -> Option<usize> {
    match unsigned_up_to(trim(input), usize::MAX as u64) {
        Some(n) => Some(n as usize),
        None => None,
    }
}

impl<T: Clone> Menu<T> {
    pub fn new(label: &str) -> (m: Menu<T>)
        ensures
            m.label@ == label@,
            m.items@.len() == 0,
    {
        Menu { label: label.to_owned(), items: Vec::new() }
    }

    /// Puts a submenu at the end of the menu.
    pub fn add_submenu(&mut self, menu: Menu<T>)
        ensures
            final(self).label == old(self).label,
            final(self).items@ == old(self).items@.push(Item::Submenu(Rc::new(menu))),
    {
        self.items.push(Item::Submenu(Rc::new(menu)));
    }

    /// Puts an action at the end of the menu.
    pub fn add_action(&mut self, act: Act<T>)
        ensures
            final(self).label == old(self).label,
            final(self).items@ == old(self).items@.push(Item::Action(act)),
    {
        self.items.push(Item::Action(act));
    }

    /// The entry at position `id`.
    pub fn select(&self, id: usize) -> (r: Result<&Item<T>, &'static str>)
        ensures
            match r {
                Ok(item) => id < self.items@.len() && *item == self.items@[id as int],
                Err(msg) => id >= self.items@.len() && msg@ == "Invalid option!"@,
            },
    {
        if id < self.items.len() {
            Ok(&self.items[id])
        } else {
            Err("Invalid option!")
        }
    }

    /// The lines that show the menu: one for each entry, with its position
    /// and its label.
    pub fn display_lines(&self) -> (r: Vec<String>)
        ensures
            r@.len() == self.items@.len(),
            forall|i: int|
                0 <= i < r@.len() ==> (#[trigger] r@[i])@ == entry_line(
                    i as nat,
                    self.items@[i].label_text(),
                ),
    {
        let mut r: Vec<String> = Vec::new();
        let mut i: usize = 0;
        while i < self.items.len()
            invariant
                i <= self.items.len(),
                r@.len() == i,
                forall|k: int|
                    0 <= k < i ==> (#[trigger] r@[k])@ == entry_line(
                        k as nat,
                        self.items@[k].label_text(),
                    ),
            decreases self.items.len() - i,
        {
            let mut v = chars_of("[");
            append(&mut v, &decimal_of(i as u64));
            append_str(&mut v, "] ");
            append_str(&mut v, self.items[i].label());
            r.push(string_of(&v));
            i += 1;
        }
        r
    }
}

/// A walk through a menu and its submenus: the menus entered so far, the
/// root first.
#[derive(Debug)]
pub struct Runner<T: Clone> {
    path: Vec<Rc<Menu<T>>>,
}

impl<T: Clone> Runner<T> {
    /// Whether the walk is in a menu: this holds of every walk.
    #[verifier::type_invariant]
    pub closed spec fn wf(&self) -> bool {
        self.path@.len() >= 1
    }

    /// The menus entered so far, the root first.
    pub closed spec fn path(&self) -> Seq<Rc<Menu<T>>> {
        self.path@
    }

    pub fn new(menu: Menu<T>) -> (r: Runner<T>)
        ensures
            r.path() == seq![Rc::new(menu)],
    {
        let mut path: Vec<Rc<Menu<T>>> = Vec::new();
        path.push(Rc::new(menu));
        assert(path@ =~= seq![Rc::new(menu)]);
        Runner { path }
    }

    /// The number of menus entered so far, the root among them.
    pub fn depth(&self) -> (n: usize)
        ensures
            n == self.path().len(),
            n >= 1,
    {
        proof {
            use_type_invariant(self);
        }
        self.path.len()
    }

    /// The menu that the walk is in.
    pub fn current(&self) -> (m: &Rc<Menu<T>>)
        ensures
            self.path().len() >= 1,
            *m == self.path().last(),
    {
        proof {
            use_type_invariant(self);
        }
        &self.path[self.path.len() - 1]
    }

    /// Enters a menu.
    pub fn select(&mut self, menu: Rc<Menu<T>>)
        ensures
            final(self).path() == old(self).path().push(menu),
    {
        proof {
            use_type_invariant(&*self);
        }
        let mut path: Vec<Rc<Menu<T>>> = Vec::new();
        path.push(menu.clone());
        std::mem::swap(&mut path, &mut self.path);
        path.push(menu);
        self.path = path;
    }

    /// Leaves the menu that the walk is in, unless it is the root.
    pub fn back(&mut self) -> (r: Result<(), &'static str>)
        ensures
            match r {
                Ok(_) => old(self).path().len() > 1
                    && final(self).path() == old(self).path().drop_last(),
                Err(msg) => old(self).path().len() == 1 && final(self).path() == old(self).path()
                    && msg@ == "Can't back from the root menu!"@,
            },
    {
        proof {
            use_type_invariant(&*self);
        }
        if self.path.len() == 1 {
            Err("Can't back from the root menu!")
        } else {
            let mut path: Vec<Rc<Menu<T>>> = Vec::new();
            path.push(self.path[0].clone());
            std::mem::swap(&mut path, &mut self.path);
            path.pop();
            self.path = path;
            Ok(())
        }
    }
}

impl<T: Clone> Runner<T> {
    /// The entry that a line of input names by its position.
    pub fn req_sel<'a>(menu: &'a Menu<T>, input: &str) -> (r: Result<&'a Item<T>, &'static str>)
        ensures
            match r {
                Ok(item) => choice_of(input@) is Some && choice_of(input@)->0 < menu.items@.len()
                    && *item == menu.items@[choice_of(input@)->0 as int],
                Err(msg) => match choice_of(input@) {
                    None => msg@ == "Invalid number!"@,
                    Some(id) => id >= menu.items@.len() && msg@ == "Invalid option!"@,
                },
            },
    {
        let t = trimmed(&chars_of(input));
        match parse_unsigned(&t, usize::MAX as u64) {
            None => Err("Invalid number!"),
            Some(n) => menu.select(n as usize),
        }
    }
}

/// What choosing an entry of a menu does to a walk that is in that menu.
#[derive(Debug)]
pub enum Chosen<T: Clone> {
    /// The entry is an action: the walk stays, and the action's value is
    /// handed out.
    Value(T),
    /// The entry is a submenu: the walk enters it.
    Entered(Rc<Menu<T>>),
    /// The menu has no entry at that position.
    Nothing,
}

/// What choosing the entry at position `id` of a menu does.
pub open spec fn chosen<T: Clone>(menu: Menu<T>, id: usize) -> Chosen<T> {
    if id >= menu.items@.len() {
        Chosen::Nothing
    } else {
        match menu.items@[id as int] {
            Item::Action(act) => Chosen::Value(act.value),
            Item::Submenu(sub) => Chosen::Entered(sub),
        }
    }
}

impl<T: Clone> Runner<T> {
    /// Chooses the entry at position `id` of the menu that the walk is in.
    /// An action hands out a clone of its value; a submenu is entered.
    pub fn pick(&mut self, id: usize) -> (r: Result<Option<T>, &'static str>)
        ensures
            match chosen(*old(self).path().last(), id) {
                Chosen::Value(v) => r is Ok && r->Ok_0 is Some && cloned(v, r->Ok_0->0)
                    && final(self).path() == old(self).path(),
                Chosen::Entered(sub) => r is Ok && r->Ok_0 is None
                    && final(self).path() == old(self).path().push(sub),
                Chosen::Nothing => r is Err && r->Err_0@ == "Invalid option!"@
                    && final(self).path() == old(self).path(),
            },
    {
        let menu = self.current().clone();
        match menu.select(id) {
            Err(msg) => Err(msg),
            Ok(Item::Action(act)) => Ok(Some(act.value.clone())),
            Ok(Item::Submenu(sub)) => {
                self.select(sub.clone());
                Ok(None)
            },
        }
    }
}

impl<T: Clone> Runner<T> {
    /// Takes a line of input as the choice of an entry of the menu that the
    /// walk is in: the line names the entry by its position.
    pub fn run(&mut self, input: &str) -> (r: Result<Option<T>, &'static str>)
        ensures
            match choice_of(input@) {
                None => r is Err && r->Err_0@ == "Invalid number!"@
                    && final(self).path() == old(self).path(),
                Some(id) => match chosen(*old(self).path().last(), id) {
                    Chosen::Value(v) => r is Ok && r->Ok_0 is Some && cloned(v, r->Ok_0->0)
                        && final(self).path() == old(self).path(),
                    Chosen::Entered(sub) => r is Ok && r->Ok_0 is None && final(self).path()
                        == old(self).path().push(sub),
                    Chosen::Nothing => r is Err && r->Err_0@ == "Invalid option!"@
                        && final(self).path() == old(self).path(),
                },
            },
    {
        let t = trimmed(&chars_of(input));
        match parse_unsigned(&t, usize::MAX as u64) {
            None => Err("Invalid number!"),
            Some(n) => self.pick(n as usize),
        }
    }
}

} // verus!
