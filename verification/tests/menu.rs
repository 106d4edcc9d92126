use recloset::closet::{
    Change, Clothes, Clth, ClthBuffer, Kind, Outfit, OutfitBuffer, Outfits, Rgb, Sex, Size, Style,
    Target,
};
use recloset::input::{
    color, confirm, field_menu, kind, kind_menu, menu_from_vec, price, select_clth,
    select_clth_field, select_outfit, sex, sex_menu, size, size_menu, style_name, target,
    target_menu, ErrType, InputErr, Reaction,
};
use recloset::date::Date;
use recloset::error::{ClosetError, Field};
use recloset::menu::{Act, Item, Menu, Runner};
use recloset::{
    fill_clth_buffer, fill_outfit_buffer, main_menu, next_clth_question, next_outfit_question,
    target_answer, user_add_clth, user_add_outfit, user_rm_clth, user_rm_outfit,
    user_update_clth, Answer, Data, Event, TmpCache,
};

#[test]
fn add_items() {
    let mut sub = Menu::new("Submenu");
    sub.add_action(Act::new("Back", 1));

    let mut root = Menu::new("root");
    root.add_submenu(sub);
    root.add_action(Act::new("Quit", 0));

    assert!(root.items.len() == 2);
}

#[test]
fn reject_empty_path() {
    let mut root = Menu::new("root");
    root.add_action(Act::new("Quit", 0));

    let mut runner = Runner::new(root);
    assert!(runner.back().is_err());
}

#[test]
fn a_walk_enters_and_leaves_submenus() {
    let mut runner = Runner::new(main_menu());
    assert_eq!(runner.depth(), 1);
    assert_eq!(runner.current().label, "root");
    assert_eq!(
        runner.current().display_lines(),
        vec!["[0] Clothes", "[1] Outfits", "[2] Quit"]
    );
    assert_eq!(runner.pick(3), Err("Invalid option!"));
    assert_eq!(runner.pick(2), Ok(Some(Event::Quit)));
    assert_eq!(runner.depth(), 1);
    assert_eq!(runner.pick(1), Ok(None));
    assert_eq!(runner.depth(), 2);
    assert_eq!(runner.current().label, "Outfits");
    assert_eq!(runner.pick(0), Ok(Some(Event::AddOutfit)));
    assert_eq!(runner.pick(3), Ok(Some(Event::Back)));
    assert_eq!(runner.back(), Ok(()));
    assert_eq!(runner.back(), Err("Can't back from the root menu!"));
    assert_eq!(runner.pick(0), Ok(None));
    assert_eq!(runner.current().label, "Clothes");
    assert_eq!(runner.pick(0), Ok(Some(Event::AddClth)));
    assert_eq!(runner.pick(1), Ok(Some(Event::RemoveClth)));
    assert_eq!(runner.pick(2), Ok(Some(Event::UpdateClth)));
    assert_eq!(runner.pick(3), Ok(Some(Event::ListClths)));
    let way = runner.current().clone();
    runner.select(way);
    assert_eq!(runner.depth(), 3);
}

#[test]
fn an_entry_is_named_by_its_position() {
    let menu = menu_from_vec("m", &["a", "b", "c"]);
    assert_eq!(menu.label, "m");
    assert_eq!(menu.items.len(), 3);
    assert_eq!(menu.select(1).unwrap().label(), "b");
    assert!(matches!(menu.select(2), Ok(Item::Action(act)) if act.value == 2 && act.label == "c"));
    assert!(matches!(menu.select(3), Err("Invalid option!")));
    assert_eq!(Runner::req_sel(&menu, " 2 \n").unwrap().label(), "c");
    assert_eq!(Runner::req_sel(&menu, "+0").unwrap().label(), "a");
    assert_eq!(Runner::req_sel(&menu, "002").unwrap().label(), "c");
    assert!(matches!(Runner::req_sel(&menu, "3"), Err("Invalid option!")));
    assert!(matches!(
        Runner::req_sel(&menu, "18446744073709551615"),
        Err("Invalid option!")
    ));
    assert!(matches!(
        Runner::req_sel(&menu, "18446744073709551616"),
        Err("Invalid number!")
    ));
    assert!(matches!(Runner::req_sel(&menu, "-1"), Err("Invalid number!")));
    assert!(matches!(Runner::req_sel(&menu, "b"), Err("Invalid number!")));
    assert!(matches!(Runner::req_sel(&menu, ""), Err("Invalid number!")));
    assert!(matches!(Runner::req_sel(&menu, "1 1"), Err("Invalid number!")));
    let mut root: Menu<usize> = Menu::new("root");
    root.add_submenu(menu);
    assert_eq!(root.select(0).unwrap().label(), "m");
    assert!(menu_from_vec("none", &[]).items.is_empty());
}

fn labels_of(menu: &Menu<usize>) -> Vec<String> {
    (0..menu.items.len())
        .map(|i| match menu.select(i) {
            Ok(Item::Action(act)) if act.value == i => act.label.clone(),
            _ => panic!("the entry is no action of its position"),
        })
        .collect()
}

#[test]
fn the_menus_of_choices_follow_the_order_of_the_answers() {
    assert_eq!(kind_menu().label, "kind menu");
    assert_eq!(labels_of(&kind_menu()), vec!["Chest", "Leg", "Foot", "Exit"]);
    assert_eq!(labels_of(&sex_menu()), vec!["Male", "Female", "Unissex", "Exit"]);
    assert_eq!(labels_of(&size_menu()), vec!["XS", "S", "M", "L", "XL", "Exit"]);
    assert_eq!(labels_of(&target_menu()), vec!["Donation", "Sale", "Keep", "Exit"]);
    assert_eq!(
        labels_of(&field_menu()),
        vec!["Color", "Kind", "Size", "Sex", "Target", "Style", "Exit"]
    );
    for (i, label) in labels_of(&kind_menu()).iter().take(3).enumerate() {
        assert_eq!(kind(i).unwrap().to_string(), *label);
    }
    for (i, label) in labels_of(&sex_menu()).iter().take(3).enumerate() {
        assert_eq!(sex(i).unwrap().to_string(), *label);
    }
    for (i, label) in labels_of(&size_menu()).iter().take(5).enumerate() {
        assert_eq!(size(i).unwrap().to_string(), *label);
    }
    for (i, label) in labels_of(&field_menu()).iter().take(6).enumerate() {
        assert_eq!(select_clth_field(i).unwrap(), label.to_lowercase());
    }
    let mut runner = Runner::new(kind_menu());
    assert_eq!(runner.run(" 1\n"), Ok(Some(1)));
    assert_eq!(runner.run("4"), Err("Invalid option!"));
    assert_eq!(runner.run("one"), Err("Invalid number!"));
    let mut walk = Runner::new(main_menu());
    assert_eq!(walk.run("0"), Ok(None));
    assert_eq!(walk.run("4"), Ok(Some(Event::Back)));
    assert_eq!(walk.depth(), 2);
}

// --- answers ----------------------------------------------------------------

fn class_of<T>(r: Result<T, InputErr>) -> (ErrType, String) {
    match r {
        Ok(_) => panic!("the answer was taken"),
        Err(e) => (e.class, e.msg),
    }
}

#[test]
fn choices_in_menus_are_read_by_position() {
    assert_eq!(kind(0).unwrap(), Kind::Chest);
    assert_eq!(kind(1).unwrap(), Kind::Leg);
    assert_eq!(kind(2).unwrap(), Kind::Foot);
    assert_eq!(class_of(kind(3)), (ErrType::Abort, "Aborted by the user.".to_string()));
    assert_eq!(sex(0).unwrap(), Sex::Male);
    assert_eq!(sex(1).unwrap(), Sex::Female);
    assert_eq!(sex(2).unwrap(), Sex::Unissex);
    assert_eq!(class_of(sex(9)).0, ErrType::Abort);
    assert_eq!(size(0).unwrap(), Size::XS);
    assert_eq!(size(1).unwrap(), Size::S);
    assert_eq!(size(2).unwrap(), Size::M);
    assert_eq!(size(3).unwrap(), Size::L);
    assert_eq!(size(4).unwrap(), Size::XL);
    assert_eq!(class_of(size(5)).0, ErrType::Abort);
    assert_eq!(target(0, 12).unwrap(), Target::Donation);
    assert_eq!(target(1, 12).unwrap(), Target::Sale(12));
    assert_eq!(target(2, 12).unwrap(), Target::Keep);
    assert_eq!(class_of(target(3, 12)).0, ErrType::Abort);
    let names = ["color", "kind", "size", "sex", "target", "style"];
    for (i, name) in names.iter().enumerate() {
        assert_eq!(select_clth_field(i).unwrap(), *name);
    }
    assert_eq!(class_of(select_clth_field(6)).0, ErrType::Abort);
}

#[test]
fn answers_in_words_are_read() {
    assert_eq!(price("20.75").unwrap(), 2075);
    assert_eq!(price("0.29").unwrap(), 29);
    assert_eq!(price("3").unwrap(), 300);
    assert_eq!(class_of(price("Exit")), (ErrType::Abort, "Aborted by the user.".to_string()));
    assert_eq!(class_of(price("cheap")), (ErrType::Recover, "Invalid price!".to_string()));
    assert_eq!(class_of(price("-3")).0, ErrType::Recover);
    assert_eq!(color("#FF00ee").unwrap(), Rgb(255, 0, 238));
    assert_eq!(class_of(color("EXIT")).0, ErrType::Abort);
    assert_eq!(
        class_of(color("FF00EE")),
        (
            ErrType::Recover,
            "Invalid color! Help: valid colors are hex colors.".to_string()
        )
    );
    assert_eq!(class_of(color("#FF00E")).0, ErrType::Recover);
    assert_eq!(class_of(color("")).0, ErrType::Recover);
    assert_eq!(style_name("Summer Nights").unwrap(), "summer nights");
    assert_eq!(style_name("VER\u{C3}O").unwrap(), "ver\u{E3}o");
    assert_eq!(style_name("E\u{445}IT").unwrap(), "e\u{445}it");
    assert_eq!(class_of(style_name("EXIT")).0, ErrType::Abort);
    assert_eq!(class_of(style_name("eXit")).0, ErrType::Abort);
    assert_eq!(confirm("y").unwrap(), true);
    assert_eq!(confirm("Y").unwrap(), true);
    assert_eq!(confirm("n").unwrap(), false);
    assert_eq!(class_of(confirm("yes")), (ErrType::Recover, "Invalid answer.".to_string()));
}

#[test]
fn failures_say_what_is_to_be_done() {
    assert_eq!(
        InputErr::handle(&InputErr::wrong("Bad.")),
        ("Bad.".to_string(), Reaction::Retry)
    );
    assert_eq!(
        InputErr::handle(&InputErr::user_abort()),
        ("Aborted by the user.".to_string(), Reaction::GiveUp)
    );
    let fatal = InputErr { class: ErrType::Fatal(3), msg: "Gone.".to_string() };
    assert_eq!(
        InputErr::handle(&fatal),
        ("FATAL error: Gone.".to_string(), Reaction::Exit(3))
    );
}

fn item(id: u32, kind: Kind, style: &str) -> Clth {
    let date = Date::new(2022, 8, 15).unwrap();
    Clth::new(id, kind, Sex::Male, Size::M, Rgb(0, 0, 0), Target::Keep, date, Style::new(style))
}

fn wardrobe() -> Clothes {
    Clothes::from(vec![
        item(0, Kind::Chest, "a"),
        item(1, Kind::Leg, "a"),
        item(2, Kind::Foot, "a"),
        item(3, Kind::Chest, "a"),
    ])
}

#[test]
fn items_and_outfits_are_picked_by_id() {
    let clothes = wardrobe();
    assert_eq!(select_clth(&clothes, "2").unwrap().id, 2);
    assert_eq!(select_clth(&clothes, "+3").unwrap().id, 3);
    assert_eq!(class_of(select_clth(&clothes, "exit")).0, ErrType::Abort);
    assert_eq!(
        class_of(select_clth(&clothes, "two")),
        (ErrType::Recover, "Invalid number!".to_string())
    );
    assert_eq!(
        class_of(select_clth(&clothes, "4294967296")),
        (ErrType::Recover, "Invalid number!".to_string())
    );
    assert_eq!(
        class_of(select_clth(&clothes, "4294967295")),
        (ErrType::Recover, "Invalid id!".to_string())
    );
    assert_eq!(
        class_of(select_clth(&Clothes::new(), "0")),
        (ErrType::Abort, "No clothes to choose from.".to_string())
    );
    let mut outfits = Outfits::new();
    assert_eq!(
        class_of(select_outfit(&outfits, "0")),
        (ErrType::Abort, "No outfits to choose from.".to_string())
    );
    outfits.add(Outfit::new(6, 0, 1, 2, &clothes).unwrap()).unwrap();
    assert_eq!(select_outfit(&outfits, "6").unwrap().to_id_arr(), [0, 1, 2]);
    assert_eq!(class_of(select_outfit(&outfits, "0")).1, "Invalid id!");
    assert_eq!(class_of(select_outfit(&outfits, "x")).1, "Invalid number!");
    assert_eq!(class_of(select_outfit(&outfits, "EXIT")).0, ErrType::Abort);
}

// --- drafts, answer by answer ---------------------------------------------------

#[test]
fn an_item_draft_is_filled_in_order() {
    let mut draft = ClthBuffer::new();
    let asked = [
        (Field::Kind, Answer::Kind(Kind::Leg)),
        (Field::Sex, Answer::Sex(Sex::Female)),
        (Field::Size, Answer::Size(Size::S)),
        (Field::Color, Answer::Color(Rgb(1, 2, 3))),
        (Field::Price, Answer::Price(150)),
        (Field::Target, Answer::Target(Target::Sale(150))),
    ];
    for (field, answer) in asked {
        assert_eq!(next_clth_question(&draft), Some(field));
        fill_clth_buffer(&mut draft, answer);
    }
    assert_eq!(next_clth_question(&draft), None);
    assert_eq!(target_answer(&draft, 0).unwrap(), Answer::Target(Target::Donation));
    assert_eq!(target_answer(&draft, 1).unwrap(), Answer::Target(Target::Sale(150)));
    assert_eq!(target_answer(&draft, 2).unwrap(), Answer::Target(Target::Keep));
    assert_eq!(class_of(target_answer(&draft, 3)).0, ErrType::Abort);
    fill_clth_buffer(&mut draft, Answer::Kind(Kind::Foot));
    fill_clth_buffer(&mut draft, Answer::Price(1));
    assert_eq!(
        draft,
        ClthBuffer {
            kind: Some(Kind::Leg),
            sex: Some(Sex::Female),
            size: Some(Size::S),
            color: Some(Rgb(1, 2, 3)),
            price: Some(150),
            target: Some(Target::Sale(150)),
        }
    );
}

#[test]
fn an_outfit_draft_takes_items_of_the_kind_of_the_slot() {
    let clothes = wardrobe();
    let mut draft = OutfitBuffer::new();
    assert_eq!(next_outfit_question(&draft), Some(Kind::Chest));
    assert_eq!(
        class_of(fill_outfit_buffer(&mut draft, &clothes, "1")).1,
        "Invalid id!"
    );
    assert_eq!(draft, OutfitBuffer::new());
    assert!(fill_outfit_buffer(&mut draft, &clothes, "3").is_ok());
    assert_eq!(next_outfit_question(&draft), Some(Kind::Leg));
    assert_eq!(class_of(fill_outfit_buffer(&mut draft, &clothes, "exit")).0, ErrType::Abort);
    assert!(fill_outfit_buffer(&mut draft, &clothes, "1").is_ok());
    assert_eq!(next_outfit_question(&draft), Some(Kind::Foot));
    assert!(fill_outfit_buffer(&mut draft, &clothes, "2").is_ok());
    assert_eq!(next_outfit_question(&draft), None);
    assert!(fill_outfit_buffer(&mut draft, &clothes, "nothing").is_ok());
    assert_eq!(draft, OutfitBuffer { chest: Some(3), leg: Some(1), foot: Some(2) });
    let only_chests = Clothes::from(vec![item(0, Kind::Chest, "a")]);
    let mut next = OutfitBuffer { chest: Some(0), leg: None, foot: None };
    assert_eq!(
        class_of(fill_outfit_buffer(&mut next, &only_chests, "0")),
        (ErrType::Abort, "No clothes to choose from.".to_string())
    );
}

// --- changes to the closet ---------------------------------------------------------

fn full_draft(kind: Kind) -> ClthBuffer {
    ClthBuffer {
        kind: Some(kind),
        sex: Some(Sex::Male),
        size: Some(Size::M),
        color: Some(Rgb(0, 0, 0)),
        price: Some(0),
        target: Some(Target::Keep),
    }
}

fn closet() -> Data {
    let date = Date::new(2022, 8, 15).unwrap();
    let mut data = Data::new();
    for kind in [Kind::Chest, Kind::Leg, Kind::Foot, Kind::Chest] {
        user_add_clth(&mut data, full_draft(kind), "Plain", date).unwrap();
    }
    data
}

#[test]
fn items_are_added_under_the_smallest_free_id() {
    let date = Date::new(2022, 8, 15).unwrap();
    let mut data = closet();
    assert_eq!(data.clothes.ids(), vec![0, 1, 2, 3]);
    assert_eq!(data.styles.len(), 1);
    assert_eq!(data.clothes.get(2).unwrap().style.name, "plain");
    assert_eq!(
        user_add_clth(&mut data, ClthBuffer::new(), "new", date),
        Err(ClosetError::IncompleteDraft(Field::Kind))
    );
    assert_eq!(data.clothes.len(), 4);
    assert_eq!(user_rm_clth(&mut data, 1).unwrap().id, 1);
    assert_eq!(user_add_clth(&mut data, full_draft(Kind::Leg), "plain", date), Ok(1));
    assert_eq!(data.clothes.ids(), vec![0, 3, 2, 1]);
    assert_eq!(data.cache, TmpCache::new());
}

#[test]
fn removing_an_item_removes_its_outfits() {
    let mut data = closet();
    let draft = OutfitBuffer { chest: Some(0), leg: Some(1), foot: Some(2) };
    assert_eq!(user_add_outfit(&mut data, draft), Ok(0));
    assert_eq!(user_add_outfit(&mut data, draft), Err(ClosetError::DuplicateOutfit));
    let other = OutfitBuffer { chest: Some(3), leg: Some(1), foot: Some(2) };
    assert_eq!(user_add_outfit(&mut data, other), Ok(1));
    let wrong = OutfitBuffer { chest: Some(1), leg: Some(1), foot: Some(2) };
    assert_eq!(user_add_outfit(&mut data, wrong), Err(ClosetError::InvalidComposition));
    let open = OutfitBuffer { chest: Some(1), leg: None, foot: Some(2) };
    assert_eq!(
        user_add_outfit(&mut data, open),
        Err(ClosetError::IncompleteDraft(Field::Leg))
    );
    assert_eq!(data.outfits.to_id_matrix(), vec![[0, 1, 2], [3, 1, 2]]);
    assert_eq!(user_rm_clth(&mut data, 9).unwrap_err(), ClosetError::NotFound);
    assert_eq!(user_rm_clth(&mut data, 0).unwrap().id, 0);
    assert_eq!(data.outfits.to_id_matrix(), vec![[3, 1, 2]]);
    assert_eq!(user_rm_outfit(&mut data, 0), Err(ClosetError::NotFound));
    assert_eq!(user_rm_outfit(&mut data, 1), Ok(()));
    assert!(data.outfits.is_empty());
    assert_eq!(user_rm_clth(&mut data, 1).unwrap().id, 1);
    assert_eq!(data.clothes.ids(), vec![3, 2]);
}

#[test]
fn an_item_in_an_outfit_keeps_its_kind_and_style() {
    let mut data = closet();
    let draft = OutfitBuffer { chest: Some(0), leg: Some(1), foot: Some(2) };
    user_add_outfit(&mut data, draft).unwrap();
    assert_eq!(
        user_update_clth(&mut data, 0, Change::Kind(Kind::Leg)),
        Err(ClosetError::InUse(Field::Kind))
    );
    assert_eq!(
        user_update_clth(&mut data, 1, Change::Style(Style::new("Other"))),
        Err(ClosetError::InUse(Field::Style))
    );
    assert_eq!(data.styles.len(), 1);
    assert_eq!(user_update_clth(&mut data, 0, Change::Color(Rgb(9, 9, 9))), Ok(()));
    assert_eq!(user_update_clth(&mut data, 0, Change::Sex(Sex::Female)), Ok(()));
    assert_eq!(user_update_clth(&mut data, 0, Change::Size(Size::L)), Ok(()));
    assert_eq!(user_update_clth(&mut data, 0, Change::Target(Target::Sale(5))), Ok(()));
    assert_eq!(user_update_clth(&mut data, 3, Change::Kind(Kind::Foot)), Ok(()));
    assert_eq!(user_update_clth(&mut data, 3, Change::Style(Style::new("Other"))), Ok(()));
    assert_eq!(
        user_update_clth(&mut data, 8, Change::Kind(Kind::Foot)),
        Err(ClosetError::NotFound)
    );
    let first = data.clothes.get(0).unwrap();
    assert_eq!(
        (first.kind, first.sex, first.size, first.color, first.target),
        (Kind::Chest, Sex::Female, Size::L, Rgb(9, 9, 9), Target::Sale(5))
    );
    let last = data.clothes.get(3).unwrap();
    assert_eq!((last.kind, last.style.name.as_str()), (Kind::Foot, "other"));
    assert_eq!(data.styles.len(), 2);
    assert_eq!(
        ClosetError::InUse(Field::Kind).to_string(),
        "Can't update the kind of a clothing that is in some outfit."
    );
}
