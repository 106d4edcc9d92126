use chrono::Datelike;
use recloset::closet::{
    Change, Clothes, Clth, ClthBuffer, Filter, Kind, Outfit, OutfitBuffer, Outfits, Rgb, Sex,
    Size, Style, Styles, Target,
};
use recloset::date::Date;
use recloset::error::{ClosetError, Field};

fn today() -> Date {
    Date::today().unwrap()
}

fn clth(id: u32, kind: Kind, style: &str) -> Clth {
    Clth::new(id, kind, Sex::Male, Size::M, Rgb(0, 0, 0), Target::Keep, today(), Style::new(style))
}

fn closet_of(items: Vec<Clth>) -> Clothes {
    Clothes::from(items)
}

#[test]
fn reject_invalid_clthset() {
    let clothes = closet_of(vec![
        clth(0, Kind::Chest, "style1"),
        clth(1, Kind::Leg, "style2"),
        clth(2, Kind::Foot, "style3"),
    ]);

    let set1 = Outfit::new(0, 0, 0, 0, &clothes);
    let set2 = Outfit::new(1, 0, 1, 2, &clothes);

    assert!(set1.is_err() && set2.is_err());
}

#[test]
fn accept_valid_clthset() {
    let clothes = closet_of(vec![
        clth(0, Kind::Chest, "style"),
        clth(1, Kind::Leg, "style"),
        clth(2, Kind::Foot, "style"),
    ]);

    assert!(Outfit::new(0, 0, 1, 2, &clothes).is_ok());
}

#[test]
pub fn create_color_by_hex() {
    let color = Rgb::try_from_hex("FFFFFF").unwrap();
    assert_eq!(color.0, 255);
    assert_eq!(color.1, 255);
    assert_eq!(color.2, 255);
}

#[test]
pub fn reject_invalid_color() {
    assert!(Rgb::try_from_hex("FFFFFZ").is_none());
}

#[test]
pub fn color_to_hex() {
    assert_eq!("FFFFFF", Rgb(255, 255, 255).to_hex());
}

#[test]
pub fn kind_from_str() {
    assert!(matches!(Kind::from_str("Chest").unwrap(), Kind::Chest));
    assert!(matches!(Kind::from_str("Leg").unwrap(), Kind::Leg));
    assert!(matches!(Kind::from_str("Foot").unwrap(), Kind::Foot));
}

#[test]
pub fn sex_from_str() {
    assert!(matches!(Sex::from_str("Male").unwrap(), Sex::Male));
    assert!(matches!(Sex::from_str("Female").unwrap(), Sex::Female));
    assert!(matches!(Sex::from_str("Unissex").unwrap(), Sex::Unissex));
}

#[test]
pub fn size_from_str() {
    assert!(Size::from_str("invalid").is_err());
    assert!(matches!(Size::from_str("xs").unwrap(), Size::XS));
    assert!(matches!(Size::from_str("s").unwrap(), Size::S));
    assert!(matches!(Size::from_str("m").unwrap(), Size::M));
    assert!(matches!(Size::from_str("l").unwrap(), Size::L));
    assert!(matches!(Size::from_str("xl").unwrap(), Size::XL));
}

#[test]
pub fn target_from_str() {
    assert!(Target::from_str("invalid").is_err());
    assert!(matches!(
        Target::from_str("Sale for $10.00").unwrap(),
        Target::Sale(1000)
    ));
    assert!(matches!(
        Target::from_str("Donation").unwrap(),
        Target::Donation
    ));
    assert!(matches!(Target::from_str("Keep").unwrap(), Target::Keep));
}

// --- value types ---------------------------------------------------------

#[test]
fn kinds_read_in_any_case_and_round_trip() {
    for kind in [Kind::Chest, Kind::Leg, Kind::Foot] {
        assert_eq!(Kind::from_str(&kind.to_string()), Ok(kind));
    }
    assert_eq!(Kind::from_str("cHeSt"), Ok(Kind::Chest));
    assert_eq!(Kind::from_str("FOOT"), Ok(Kind::Foot));
    assert_eq!(Kind::from_str("arm"), Err(ClosetError::InvalidKind));
    assert_eq!(Kind::from_str(""), Err(ClosetError::InvalidKind));
    assert_eq!(Kind::from_str(" chest"), Err(ClosetError::InvalidKind));
    assert_eq!(Kind::Chest.to_string(), "Chest");
}

#[test]
fn words_are_read_as_their_lower_case_reads() {
    assert_eq!(Target::from_str("\u{212A}eep"), Ok(Target::Keep));
    assert_eq!(Target::from_str("\u{212A}EEP"), Ok(Target::Keep));
    assert_eq!(Target::from_str("keep"), Ok(Target::Keep));
    let texts = [
        "Keep", "\u{212A}eep", "keeP", "kee\u{3C1}", "DONATION", "d\u{3BF}nation", "Chest", "CHE\u{17F}T",
        "che\u{17F}t", "LEG", "Foot", "f\u{3BF}\u{3BF}t", "MALE", "Female", "UNISSEX", "Unisex", "XS",
        "x\u{455}", "\u{445}s", "S", "m", "L", "xL", "\u{212A}", "", " keep",
    ];
    for t in texts {
        let lower = t.to_lowercase();
        assert_eq!(Target::from_str(t).is_ok(), ["keep", "donation"].contains(&lower.as_str()));
        assert_eq!(Kind::from_str(t).is_ok(), ["chest", "leg", "foot"].contains(&lower.as_str()));
        assert_eq!(
            Sex::from_str(t).is_ok(),
            ["male", "female", "unissex", "unisex"].contains(&lower.as_str())
        );
        assert_eq!(
            Size::from_str(t).is_ok(),
            ["xs", "s", "m", "l", "xl"].contains(&lower.as_str())
        );
    }
}

#[test]
fn sexes_round_trip() {
    for sex in [Sex::Male, Sex::Female, Sex::Unissex] {
        assert_eq!(Sex::from_str(&sex.to_string()), Ok(sex));
    }
    assert_eq!(Sex::from_str("unisex"), Ok(Sex::Unissex));
    assert_eq!(Sex::from_str("UNISSEX"), Ok(Sex::Unissex));
    assert_eq!(Sex::from_str("other"), Err(ClosetError::InvalidSex));
    assert_eq!(Sex::Unissex.to_string(), "Unissex");
}

#[test]
fn sizes_round_trip() {
    for size in [Size::XS, Size::S, Size::M, Size::L, Size::XL] {
        assert_eq!(Size::from_str(&size.to_string()), Ok(size));
    }
    assert_eq!(Size::from_str("xxl"), Err(ClosetError::InvalidSize));
    assert_eq!(Size::XL.to_string(), "XL");
}

#[test]
fn colors_round_trip() {
    for color in [Rgb(0, 0, 0), Rgb(255, 0, 238), Rgb(1, 35, 69), Rgb(171, 205, 239)] {
        assert_eq!(Rgb::try_from_hex(&color.to_hex()), Some(color));
    }
    assert_eq!(Rgb::new(255, 0, 238), Rgb(255, 0, 238));
    assert_eq!(Rgb(255, 0, 238).to_hex(), "FF00EE");
    assert_eq!(Rgb(1, 35, 69).to_hex(), "012345");
    assert_eq!(Rgb(255, 0, 238).to_string(), "#FF00EE");
    assert_eq!(Rgb::try_from_hex("ff00ee"), Some(Rgb(255, 0, 238)));
    assert_eq!(Rgb::try_from_hex("aBcDeF"), Some(Rgb(171, 205, 239)));
}

#[test]
fn colors_need_six_hex_digits() {
    assert_eq!(Rgb::try_from_hex(""), None);
    assert_eq!(Rgb::try_from_hex("FFFFF"), None);
    assert_eq!(Rgb::try_from_hex("FFFFFFF"), None);
    assert_eq!(Rgb::try_from_hex("#FFFFF"), None);
    assert_eq!(Rgb::try_from_hex("+F+F+F"), None);
    assert_eq!(Rgb::try_from_hex("GG0000"), None);
    assert_eq!(Rgb::try_from_hex("ééé"), None);
}

#[test]
fn targets_round_trip() {
    for target in [
        Target::Keep,
        Target::Donation,
        Target::Sale(0),
        Target::Sale(5),
        Target::Sale(29),
        Target::Sale(2075),
        Target::Sale(123456789),
        Target::Sale(u64::MAX),
    ] {
        assert_eq!(Target::from_str(&target.to_string()), Ok(target));
    }
    assert_eq!(Target::Sale(2075).to_string(), "Sale for $20.75");
    assert_eq!(Target::Sale(5).to_string(), "Sale for $0.05");
    assert_eq!(Target::Sale(1000).to_string(), "Sale for $10.00");
    assert_eq!(Target::Donation.to_string(), "Donation");
    assert_eq!(Target::Keep.to_string(), "Keep");
}

#[test]
fn prices_are_cut_to_whole_cents() {
    assert_eq!(Target::from_str("sale for $20.75"), Ok(Target::Sale(2075)));
    assert_eq!(Target::from_str("SALE FOR $0.29"), Ok(Target::Sale(29)));
    assert_eq!(Target::from_str("Sale for $1.999"), Ok(Target::Sale(199)));
    assert_eq!(Target::from_str("Sale for $7"), Ok(Target::Sale(700)));
    assert_eq!(Target::from_str("Sale for $7."), Ok(Target::Sale(700)));
    assert_eq!(Target::from_str("Sale for $.5"), Ok(Target::Sale(50)));
    assert_eq!(Target::from_str("Sale for $0007.1"), Ok(Target::Sale(710)));
    assert_eq!(
        Target::from_str("Sale for $184467440737095516.15"),
        Ok(Target::Sale(u64::MAX))
    );
    assert_eq!(
        Target::from_str("Sale for $184467440737095516.16"),
        Ok(Target::Sale(u64::MAX))
    );
    assert_eq!(
        Target::from_str("Sale for $99999999999999999999999999"),
        Ok(Target::Sale(u64::MAX))
    );
}

#[test]
fn targets_of_another_shape_are_refused() {
    assert_eq!(Target::from_str("Sale for $"), Err(ClosetError::InvalidPrice));
    assert_eq!(Target::from_str("Sale for $."), Err(ClosetError::InvalidPrice));
    assert_eq!(Target::from_str("Sale for $abc"), Err(ClosetError::InvalidPrice));
    assert_eq!(Target::from_str("Sale for $-1"), Err(ClosetError::InvalidPrice));
    assert_eq!(Target::from_str("Sale for $1.2.3"), Err(ClosetError::InvalidPrice));
    assert_eq!(Target::from_str("Sale for $1$"), Err(ClosetError::InvalidPrice));
    assert_eq!(Target::from_str("Sale for 10"), Err(ClosetError::InvalidTarget));
    assert_eq!(Target::from_str("sale $10"), Err(ClosetError::InvalidTarget));
    assert_eq!(Target::from_str("donation$"), Err(ClosetError::InvalidTarget));
    assert_eq!(Target::from_str(""), Err(ClosetError::InvalidTarget));
}

#[test]
fn dates_round_trip() {
    for (y, m, d) in [(2022, 8, 15), (0, 1, 1), (9999, 12, 31), (2024, 2, 29), (1900, 2, 28)] {
        let date = Date::new(y, m, d).unwrap();
        let text = date.to_string();
        let back = Date::from_str(&text).unwrap();
        assert_eq!(back, date);
        assert_eq!((back.year(), back.month(), back.day()), (y, m, d));
    }
    assert_eq!(Date::new(2022, 8, 5).unwrap().to_string(), "2022-08-05");
    assert_eq!(Date::new(33, 12, 1).unwrap().to_string(), "0033-12-01");
}

#[test]
fn dates_follow_the_calendar() {
    assert!(Date::new(2023, 2, 29).is_none());
    assert!(Date::new(1900, 2, 29).is_none());
    assert!(Date::new(2000, 2, 29).is_some());
    assert!(Date::new(2023, 4, 31).is_none());
    assert!(Date::new(2023, 0, 1).is_none());
    assert!(Date::new(2023, 13, 1).is_none());
    assert!(Date::new(2023, 1, 0).is_none());
    assert!(Date::new(-1, 1, 1).is_none());
    assert!(Date::new(10000, 1, 1).is_none());
    assert_eq!(Date::from_str("2023-02-29"), Err(ClosetError::InvalidDate));
    assert_eq!(Date::from_str("2023-04-31"), Err(ClosetError::InvalidDate));
    assert_eq!(Date::from_str("2023-13-01"), Err(ClosetError::InvalidDate));
    assert_eq!(Date::from_str("2023-00-10"), Err(ClosetError::InvalidDate));
    assert!(Date::from_str("2024-02-29").is_ok());
    assert!(Date::from_str("2022-08-15").unwrap().same_day(&Date::new(2022, 8, 15).unwrap()));
}

fn days_of(year: i32, month: u32) -> u32 {
    let leap = year % 4 == 0 && (year % 100 != 0 || year % 400 == 0);
    match month {
        2 if leap => 29,
        2 => 28,
        4 | 6 | 9 | 11 => 30,
        _ => 31,
    }
}

fn check_day(year: i32, month: u32, day: u32) {
    let text = format!("{:04}-{:02}-{:02}", year, month, day);
    let there = (1..=12).contains(&month) && day >= 1 && day <= days_of(year, month);
    assert_eq!(Date::new(year, month, day).is_some(), there, "{}", text);
    match Date::from_str(&text) {
        Ok(date) => {
            assert!(there, "{}", text);
            assert_eq!((date.year(), date.month(), date.day()), (year, month, day));
            assert_eq!(date.to_string(), text);
            assert_eq!(Some(date), Date::new(year, month, day));
        }
        Err(e) => {
            assert!(!there, "{}", text);
            assert_eq!(e, ClosetError::InvalidDate);
        }
    }
}

#[test]
fn the_end_of_every_month_of_every_year_reads_and_writes() {
    for year in 0..=9999 {
        for month in 1..=12 {
            for day in [1, 28, 29, 30, 31, 32] {
                check_day(year, month, day);
            }
        }
        check_day(year, 0, 1);
        check_day(year, 13, 1);
        check_day(year, 1, 0);
    }
}

#[test]
fn every_pair_of_digits_is_tried_as_month_and_day() {
    for year in [0, 1, 4, 100, 400, 1900, 2000, 2023, 2024, 9999] {
        for month in 0..=99 {
            for day in 0..=99 {
                check_day(year, month, day);
            }
        }
    }
}

#[test]
fn today_is_the_day_of_the_clock() {
    let before = chrono::Local::now().date_naive();
    let today = Date::today().unwrap();
    let after = chrono::Local::now().date_naive();
    let shown = (today.year(), today.month(), today.day());
    assert!(
        shown == (before.year(), before.month(), before.day())
            || shown == (after.year(), after.month(), after.day())
    );
    assert_eq!(
        today.to_string(),
        format!("{}", chrono::NaiveDate::from_ymd_opt(shown.0, shown.1, shown.2).unwrap())
    );
    assert_eq!(
        chrono::NaiveDate::parse_from_str(&today.to_string(), "%Y-%m-%d").unwrap(),
        chrono::NaiveDate::from_ymd_opt(shown.0, shown.1, shown.2).unwrap()
    );
}

#[test]
fn dates_are_written_strictly() {
    for text in [
        "",
        "2022-8-15",
        "2022-08-5",
        "22-08-15",
        " 2022-08-15",
        "2022-08-15 ",
        "2022/08/15",
        "+2022-08-15",
        "2022-08-15x",
        "20220815",
        "2022-0a-15",
        "２０２２-08-15",
    ] {
        assert_eq!(Date::from_str(text), Err(ClosetError::InvalidDate), "{:?}", text);
    }
}

// --- styles ----------------------------------------------------------------

#[test]
fn styles_keep_one_record_for_a_name() {
    let mut styles = Styles::new();
    assert_eq!(styles.len(), 0);
    assert!(styles.get("summer").is_none());
    let first = styles.get_or_add("summer");
    assert_eq!(first.name, "summer");
    let second = styles.get_or_add("Summer");
    assert_eq!(second.name, "summer");
    assert_eq!(styles.len(), 1);
    styles.add(Style::new("SUMMER"));
    assert_eq!(styles.len(), 1);
    styles.add(Style::new("Winter"));
    assert_eq!(styles.len(), 2);
    assert_eq!(styles.get("winter").unwrap().name, "winter");
    assert_eq!(styles.get("WINTER").unwrap().name, "winter");
    assert_eq!(styles.get_or_add("VER\u{C3}O").name, "ver\u{E3}o");
    assert_eq!(styles.get("Ver\u{C3}o").unwrap().name, "ver\u{E3}o");
    assert_eq!(styles.named("ver\u{E3}o").unwrap().name, "ver\u{E3}o");
    assert!(styles.named("VER\u{C3}O").is_none());
    assert!(styles.named("Winter").is_none());
    assert_eq!(styles.len(), 3);
    styles.insert("Mixed".to_string());
    styles.insert("Mixed".to_string());
    assert_eq!(styles.len(), 4);
    assert_eq!(styles.named("Mixed").unwrap().name, "Mixed");
    assert!(styles.get("Mixed").is_none());
    styles.add(Style::new("\u{396}\u{395}\u{3A3}"));
    assert_eq!(styles.get("\u{3B6}\u{3B5}\u{3C2}").unwrap().name, "\u{3B6}\u{3B5}\u{3C2}");
    assert!(styles.get("spring").is_none());
    assert_eq!(Style::new("Spring").name, "Spring");
}

// --- the item registry -----------------------------------------------------

#[test]
fn request_id_gives_the_smallest_free_number() {
    let mut clothes = Clothes::new();
    assert_eq!(clothes.request_id(), 0);
    assert_eq!(clothes.add(clth(0, Kind::Chest, "a")), Ok(()));
    assert_eq!(clothes.request_id(), 1);
    assert_eq!(clothes.add(clth(1, Kind::Leg, "a")), Ok(()));
    assert_eq!(clothes.add(clth(2, Kind::Foot, "a")), Ok(()));
    assert_eq!(clothes.add(clth(5, Kind::Foot, "a")), Ok(()));
    assert_eq!(clothes.request_id(), 3);
    let gone = clothes.remove(1).unwrap();
    assert_eq!(gone.id, 1);
    assert_eq!(clothes.request_id(), 1);
    assert_eq!(clothes.add(clth(1, Kind::Leg, "b")), Ok(()));
    assert_eq!(clothes.request_id(), 3);
    clothes.remove(0).unwrap();
    assert_eq!(clothes.request_id(), 0);
}

#[test]
fn a_removed_id_below_which_a_number_is_free_is_not_the_next() {
    let mut clothes = closet_of(vec![clth(0, Kind::Chest, "a"), clth(2, Kind::Leg, "a")]);
    clothes.remove(2).unwrap();
    assert_eq!(clothes.request_id(), 1);
}

#[test]
fn add_refuses_an_id_in_use() {
    let mut clothes = Clothes::new();
    assert_eq!(clothes.add(clth(7, Kind::Chest, "a")), Ok(()));
    assert_eq!(clothes.add(clth(7, Kind::Leg, "b")), Err(ClosetError::DuplicateId));
    assert_eq!(clothes.len(), 1);
    assert!(matches!(clothes.get(7).unwrap().kind, Kind::Chest));
    assert_eq!(
        ClosetError::DuplicateId.to_string(),
        "A clothing with the same id already exists in 'Clothes'"
    );
}

#[test]
fn from_leaves_out_a_second_item_of_an_id() {
    let clothes = closet_of(vec![
        clth(1, Kind::Chest, "a"),
        clth(1, Kind::Leg, "a"),
        clth(0, Kind::Foot, "a"),
    ]);
    assert_eq!(clothes.ids(), vec![1, 0]);
    assert!(matches!(clothes.get(1).unwrap().kind, Kind::Chest));
}

#[test]
fn remove_puts_the_last_item_in_the_gap() {
    let mut clothes = closet_of(vec![
        clth(0, Kind::Chest, "a"),
        clth(1, Kind::Leg, "a"),
        clth(2, Kind::Foot, "a"),
        clth(3, Kind::Foot, "a"),
    ]);
    assert_eq!(clothes.remove(9).unwrap_err(), ClosetError::NotFound);
    assert_eq!(clothes.remove(1).unwrap().id, 1);
    assert_eq!(clothes.ids(), vec![0, 3, 2]);
    assert!(clothes.get(1).is_none());
    assert!(!clothes.contains(1));
    assert!(clothes.contains(3));
    assert_eq!(clothes.remove(2).unwrap().id, 2);
    assert_eq!(clothes.ids(), vec![0, 3]);
    assert_eq!(clothes.remove(3).unwrap().id, 3);
    assert_eq!(clothes.remove(0).unwrap().id, 0);
    assert!(clothes.is_empty());
    assert_eq!(ClosetError::NotFound.to_string(), "Clothing not found.");
}

fn mixed() -> Clothes {
    let date = Date::new(2022, 8, 15).unwrap();
    closet_of(vec![
        Clth::new(0, Kind::Chest, Sex::Male, Size::M, Rgb(1, 2, 3), Target::Keep, date, Style::new("a")),
        Clth::new(1, Kind::Leg, Sex::Female, Size::L, Rgb(1, 2, 3), Target::Donation, date, Style::new("b")),
        Clth::new(2, Kind::Foot, Sex::Unissex, Size::M, Rgb(9, 9, 9), Target::Sale(100), date, Style::new("a")),
        Clth::new(3, Kind::Chest, Sex::Male, Size::XS, Rgb(9, 9, 9), Target::Sale(5), date, Style::new("c")),
    ])
}

#[test]
fn filters_keep_the_matching_items_in_order() {
    let clothes = mixed();
    assert_eq!(clothes.filter_by_color(Rgb(1, 2, 3)).ids(), vec![0, 1]);
    assert_eq!(clothes.filter_by_color(Rgb(0, 0, 0)).ids(), Vec::<u32>::new());
    assert_eq!(clothes.filter_by_style("a").ids(), vec![0, 2]);
    assert_eq!(clothes.filter_by_style("A").ids(), Vec::<u32>::new());
    assert_eq!(clothes.filter_by_kind(Kind::Chest).ids(), vec![0, 3]);
    assert_eq!(clothes.filter_by_sex(Sex::Male).ids(), vec![0, 3]);
    assert_eq!(clothes.filter_by_size(Size::M).ids(), vec![0, 2]);
    assert_eq!(clothes.filter(&Filter::OnSale).ids(), vec![2, 3]);
    assert_eq!(clothes.ids(), vec![0, 1, 2, 3]);
}

#[test]
fn groups_hold_every_item_once() {
    let clothes = mixed();
    let by_kind = clothes.map_by_kind();
    assert_eq!(by_kind.len(), 3);
    assert_eq!(by_kind.get("chest").unwrap().ids(), vec![0, 3]);
    assert_eq!(by_kind.get("leg").unwrap().ids(), vec![1]);
    assert_eq!(by_kind.get("foot").unwrap().ids(), vec![2]);
    assert!(by_kind.get("hat").is_none());
    let by_target = clothes.map_by_target();
    assert_eq!(by_target.get("keep").unwrap().ids(), vec![0]);
    assert_eq!(by_target.get("donation").unwrap().ids(), vec![1]);
    assert_eq!(by_target.get("sale").unwrap().ids(), vec![2, 3]);
    let none = Clothes::new().map_by_kind();
    assert!(none.get("chest").unwrap().is_empty());
    assert!(none.get("leg").unwrap().is_empty());
    assert!(none.get("foot").unwrap().is_empty());
}

#[test]
fn update_changes_one_field_in_place() {
    let mut clothes = mixed();
    assert_eq!(clothes.update(1, Change::Color(Rgb(7, 7, 7))), Ok(()));
    assert_eq!(clothes.update(1, Change::Size(Size::XL)), Ok(()));
    assert_eq!(clothes.update(1, Change::Style(Style::new("z"))), Ok(()));
    assert_eq!(clothes.update(8, Change::Sex(Sex::Male)), Err(ClosetError::NotFound));
    let item = clothes.get(1).unwrap();
    assert_eq!(item.id, 1);
    assert_eq!(item.color, Rgb(7, 7, 7));
    assert_eq!(item.size, Size::XL);
    assert_eq!(item.style.name, "z");
    assert_eq!(item.sex, Sex::Female);
    assert_eq!(clothes.ids(), vec![0, 1, 2, 3]);
}

// --- outfits -----------------------------------------------------------------

#[test]
fn an_outfit_needs_the_right_kinds_and_one_style() {
    let clothes = closet_of(vec![
        clth(0, Kind::Chest, "a"),
        clth(1, Kind::Leg, "a"),
        clth(2, Kind::Foot, "a"),
        clth(3, Kind::Foot, "b"),
        clth(4, Kind::Chest, "a"),
    ]);
    let made = Outfit::new(9, 0, 1, 2, &clothes).unwrap();
    assert_eq!(made.id(), 9);
    assert_eq!(made.to_id_arr(), [0, 1, 2]);
    assert_eq!(Outfit::new(9, 1, 0, 2, &clothes), Err(ClosetError::InvalidComposition));
    assert_eq!(Outfit::new(9, 0, 2, 1, &clothes), Err(ClosetError::InvalidComposition));
    assert_eq!(Outfit::new(9, 0, 1, 4, &clothes), Err(ClosetError::InvalidComposition));
    assert_eq!(Outfit::new(9, 0, 1, 3, &clothes), Err(ClosetError::StyleMismatch));
    assert_eq!(Outfit::new(9, 3, 1, 0, &clothes), Err(ClosetError::StyleMismatch));
    assert_eq!(Outfit::new(9, 0, 1, 7, &clothes), Err(ClosetError::BrokenReference));
    assert_eq!(Outfit::new(9, 7, 3, 0, &clothes), Err(ClosetError::BrokenReference));
    assert_eq!(
        ClosetError::StyleMismatch.to_string(),
        "The clothes of a clothing set must have the same style."
    );
    assert_eq!(ClosetError::InvalidComposition.to_string(), "Invalid clothing set!");
}

fn wardrobe() -> Clothes {
    closet_of(vec![
        clth(0, Kind::Chest, "a"),
        clth(1, Kind::Leg, "a"),
        clth(2, Kind::Foot, "a"),
        clth(3, Kind::Chest, "a"),
        clth(4, Kind::Leg, "a"),
        clth(5, Kind::Foot, "a"),
    ])
}

#[test]
fn add_refuses_an_outfit_of_the_same_items() {
    let clothes = wardrobe();
    let mut outfits = Outfits::new();
    assert_eq!(outfits.add(Outfit::new(0, 0, 1, 2, &clothes).unwrap()), Ok(()));
    assert_eq!(
        outfits.add(Outfit::new(1, 0, 1, 2, &clothes).unwrap()),
        Err(ClosetError::DuplicateOutfit)
    );
    assert_eq!(
        outfits.add(Outfit::new(0, 0, 1, 2, &clothes).unwrap()),
        Err(ClosetError::DuplicateOutfit)
    );
    assert_eq!(
        outfits.add(Outfit::new(0, 3, 1, 2, &clothes).unwrap()),
        Err(ClosetError::DuplicateId)
    );
    assert_eq!(outfits.add(Outfit::new(1, 3, 1, 2, &clothes).unwrap()), Ok(()));
    assert_eq!(outfits.to_id_matrix(), vec![[0, 1, 2], [3, 1, 2]]);
    assert_eq!(outfits.len(), 2);
    assert_eq!(ClosetError::DuplicateOutfit.to_string(), "This outfit already exists!");
}

#[test]
fn outfits_are_found_by_id_and_by_items() {
    let clothes = wardrobe();
    let mut outfits = Outfits::new();
    assert!(outfits.is_empty());
    assert_eq!(outfits.request_id(), 0);
    outfits.add(Outfit::new(0, 0, 1, 2, &clothes).unwrap()).unwrap();
    outfits.add(Outfit::new(1, 3, 4, 5, &clothes).unwrap()).unwrap();
    outfits.add(Outfit::new(4, 0, 4, 5, &clothes).unwrap()).unwrap();
    assert_eq!(outfits.request_id(), 2);
    assert_eq!(outfits.get(1).unwrap().to_id_arr(), [3, 4, 5]);
    assert!(outfits.get(2).is_none());
    assert_eq!(outfits.get_by_triple([0, 4, 5]).unwrap().id(), 4);
    assert!(outfits.get_by_triple([5, 4, 0]).is_none());
    assert!(outfits.references(4));
    assert!(!outfits.references(6));
    assert_eq!(outfits.remove(0).unwrap().to_id_arr(), [0, 1, 2]);
    assert_eq!(outfits.ids(), vec![4, 1]);
    assert_eq!(outfits.remove(0), Err(ClosetError::NotFound));
    assert_eq!(outfits.request_id(), 0);
}

#[test]
fn clean_drops_the_outfits_of_a_removed_item() {
    let mut clothes = wardrobe();
    let mut outfits = Outfits::new();
    outfits.add(Outfit::new(0, 0, 1, 2, &clothes).unwrap()).unwrap();
    outfits.add(Outfit::new(1, 3, 4, 5, &clothes).unwrap()).unwrap();
    outfits.add(Outfit::new(2, 0, 4, 5, &clothes).unwrap()).unwrap();
    outfits.add(Outfit::new(3, 3, 1, 5, &clothes).unwrap()).unwrap();
    outfits.clean(&clothes);
    assert_eq!(outfits.ids(), vec![0, 1, 2, 3]);
    clothes.remove(0).unwrap();
    assert!(!outfits.get(0).unwrap().is_valid(&clothes));
    assert!(outfits.get(1).unwrap().is_valid(&clothes));
    outfits.clean(&clothes);
    assert_eq!(outfits.to_id_matrix(), vec![[3, 4, 5], [3, 1, 5]]);
    assert_eq!(outfits.ids(), vec![1, 3]);
    outfits.clean(&clothes);
    assert_eq!(outfits.ids(), vec![1, 3]);
}

#[test]
fn an_outfit_gives_its_items() {
    let mut clothes = wardrobe();
    let made = Outfit::new(0, 3, 1, 5, &clothes).unwrap();
    assert_eq!(made.to_clothes(&clothes).unwrap().ids(), vec![3, 1, 5]);
    clothes.remove(1).unwrap();
    assert!(matches!(made.to_clothes(&clothes), Err(ClosetError::BrokenReference)));
    assert_eq!(made.to_string(&clothes), Err(ClosetError::BrokenReference));
}

// --- drafts --------------------------------------------------------------------

#[test]
fn a_draft_names_its_first_missing_field() {
    let date = Date::new(2022, 8, 15).unwrap();
    let mut draft = ClthBuffer::new();
    assert!(draft.kind.is_none() && draft.target.is_none() && draft.price.is_none());
    assert_eq!(
        draft.to_clth(0, date, Style::new("a")).unwrap_err(),
        ClosetError::IncompleteDraft(Field::Kind)
    );
    draft.kind = Some(Kind::Leg);
    draft.size = Some(Size::S);
    assert_eq!(
        draft.to_clth(0, date, Style::new("a")).unwrap_err(),
        ClosetError::IncompleteDraft(Field::Sex)
    );
    draft.sex = Some(Sex::Female);
    draft.color = Some(Rgb(1, 2, 3));
    assert_eq!(
        draft.to_clth(0, date, Style::new("a")).unwrap_err(),
        ClosetError::IncompleteDraft(Field::Target)
    );
    draft.target = Some(Target::Sale(150));
    let item = draft.to_clth(4, date, Style::new("a")).unwrap();
    assert_eq!(item.id, 4);
    assert_eq!(item.kind, Kind::Leg);
    assert_eq!(item.sex, Sex::Female);
    assert_eq!(item.size, Size::S);
    assert_eq!(item.color, Rgb(1, 2, 3));
    assert_eq!(item.target, Target::Sale(150));
    assert_eq!(item.purchase_date, date);
    assert_eq!(item.style.name, "a");
    assert_eq!(
        ClosetError::IncompleteDraft(Field::Kind).to_string(),
        "Missing 'kind' field on buffer."
    );
}

#[test]
fn an_outfit_draft_is_checked_like_an_outfit() {
    let clothes = wardrobe();
    let mut draft = OutfitBuffer::new();
    assert_eq!(
        draft.to_outfit(0, &clothes),
        Err(ClosetError::IncompleteDraft(Field::Chest))
    );
    draft.chest = Some(0);
    draft.foot = Some(2);
    assert_eq!(
        draft.to_outfit(0, &clothes),
        Err(ClosetError::IncompleteDraft(Field::Leg))
    );
    draft.leg = Some(2);
    assert_eq!(draft.to_outfit(0, &clothes), Err(ClosetError::InvalidComposition));
    draft.leg = Some(4);
    assert_eq!(draft.to_outfit(3, &clothes).unwrap().to_id_arr(), [0, 4, 2]);
    draft.foot = None;
    assert_eq!(
        draft.to_outfit(0, &clothes),
        Err(ClosetError::IncompleteDraft(Field::Foot))
    );
}

// --- writing -------------------------------------------------------------------

#[test]
fn an_item_is_written_field_by_field() {
    let item = Clth::new(
        2,
        Kind::Chest,
        Sex::Male,
        Size::M,
        Rgb(255, 0, 238),
        Target::Sale(2075),
        Date::new(2022, 8, 15).unwrap(),
        Style::new("summer"),
    );
    assert_eq!(
        item.to_toml(),
        "[clth]\nid = 2\nkind = \"Chest\"\nsex = \"Male\"\nsize = \"M\"\ncolor = \"FF00EE\"\n\
         target = \"Sale for $20.75\"\npurchase_date = \"2022-08-15\"\nstyle = \"summer\""
    );
    assert_eq!(
        item.to_string(),
        "Id: 2\nKind: Chest\nSex: Male\nSize: M\nColor: #FF00EE\nTarget: Sale for $20.75\n\
         Purchase date: 2022-08-15\nStyle: summer"
    );
    let copy = item.clone();
    assert_eq!(copy.to_toml(), item.to_toml());
}

#[test]
fn registries_are_written_chunk_by_chunk() {
    let clothes = wardrobe();
    let mut outfits = Outfits::new();
    assert_eq!(Clothes::new().to_toml(), "");
    assert_eq!(Clothes::new().to_string(), "No clothes to display!");
    assert_eq!(outfits.to_toml(), "");
    assert_eq!(outfits.to_string(&clothes).unwrap(), "No outfits to display!");
    outfits.add(Outfit::new(0, 0, 1, 2, &clothes).unwrap()).unwrap();
    assert_eq!(outfits.to_toml(), "[outfit]\nchest = 0\nleg = 1\nfoot = 2");
    outfits.add(Outfit::new(1, 3, 4, 5, &clothes).unwrap()).unwrap();
    assert_eq!(
        outfits.to_toml(),
        "[outfit]\nchest = 0\nleg = 1\nfoot = 2\n\n[outfit]\nchest = 3\nleg = 4\nfoot = 5"
    );
    let two = closet_of(vec![clth(0, Kind::Chest, "a"), clth(1, Kind::Leg, "a")]);
    let parts: Vec<String> = vec![
        two.get(0).unwrap().to_toml(),
        two.get(1).unwrap().to_toml(),
    ];
    assert_eq!(two.to_toml(), parts.join("\n\n"));
    let shown: Vec<String> = vec![
        two.get(0).unwrap().to_string(),
        two.get(1).unwrap().to_string(),
    ];
    assert_eq!(two.to_string(), shown.join("\n\n"));
    let first = outfits.get(0).unwrap().to_string(&clothes).unwrap();
    let items: Vec<String> = vec![
        clothes.get(0).unwrap().to_string(),
        clothes.get(1).unwrap().to_string(),
        clothes.get(2).unwrap().to_string(),
    ];
    assert_eq!(first, format!("[ Outfit 0 ]\n{}", items.join("\n\n")));
    let second = outfits.get(1).unwrap().to_string(&clothes).unwrap();
    assert_eq!(outfits.to_string(&clothes).unwrap(), format!("{}\n{}", first, second));
}
