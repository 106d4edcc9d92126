use recloset::closet::{Clothes, Clth, Kind, Outfit, Outfits, Rgb, Sex, Size, Style, Target};
use recloset::date::Date;
use recloset::error::{ClosetError, Field};
use recloset::storage::{
    into_chunks, parse, DataChunk, DataHeader, Fields, FileData, ParseError, Value,
};
use recloset::Data;

const TEXT1: &str = "[clth]\n id   = 2\nkind = \"chest\"";
const TEXT2: &str = "[outfit]\nchest = 1\nleg = 3\n";

const CLTH1: &str = "
        [clth]
        id = 0
        kind = \"chest\"
        sex = \"male\"
        size = \"L\"
        color = \"FF00EE\"
        target= \"Sale for $20.75\"
        purchase_date = \"2022-08-15\"
        style = \"summer\"
    ";
const CLTH2: &str = "
        [clth]
        id = 1
        kind = \"foot\"
        sex = \"male\"
        size = \"M\"
        color = \"FF00EE\"
        target= \"Sale for $20.75\"
        purchase_date = \"2022-08-15\"
        style = \"summer\"
    ";
const CLTH3: &str = "
        [clth]
        id = 2
        kind = \"leg\"
        sex = \"male\"
        size = \"M\"
        color = \"FF00EE\"
        target= \"Sale for $20.75\"
        purchase_date = \"2022-08-15\"
        style = \"summer\"
    ";

const OUTFIT: &str = "
        [outfit]
        chest = 0
        leg = 2
        foot = 1
    ";

#[test]
pub fn text_to_datachunk() {
    let result = match parse(TEXT1) {
        Ok(value) => value,
        Err(msg) => panic!("{}", msg),
    };

    assert!(matches!(result.header, DataHeader::Clth));

    let id = match &*result.fields.get("id").expect("Id not found.") {
        Value::Num(v) => v,
        Value::Text(_) => panic!("Id interpreted as string!"),
    };
    assert_eq!(2, *id);

    let kind = match &*result.fields.get("kind").expect("Kind not found.") {
        Value::Text(v) => v,
        Value::Num(_) => panic!("Kind interpreted as number!"),
    };
    assert_eq!("chest", kind);
}

#[test]
pub fn create_datachunks_from_text() {
    let txt = format!("{}\n\n\n\n{}", TEXT1, TEXT2);
    let file_data = match FileData::from(&txt) {
        Ok(value) => value,
        Err(msg) => panic!("{}", msg.to_string()),
    };
    assert_eq!(1, file_data.clth_chunks.len());
    assert_eq!(1, file_data.outfit_chunks.len());
}

#[test]
pub fn create_clths() {
    let text = [CLTH1, CLTH2, CLTH3].join("\n\n");
    let fdata = FileData::from(&text).unwrap();
    assert_eq!(3, fdata.clth_chunks.len());
    assert_eq!(0, fdata.outfit_chunks.len());

    let (clths, stls) = fdata.extract_clths().unwrap();
    assert!(clths.get(0).is_some() && clths.get(1).is_some() && clths.get(2).is_some());
    assert!(stls.get("summer").is_some());
}

#[test]
pub fn create_outfits() {
    let text = [CLTH1, CLTH2, CLTH3, OUTFIT].join("\n\n");
    let fdata = FileData::from(&text).unwrap();

    let (clths, _) = fdata.extract_clths().unwrap();
    let outfits = fdata.extract_outfits(&clths).unwrap();
    assert_eq!(vec![[0, 2, 1]], outfits.to_id_matrix());
}

// --- whole texts -----------------------------------------------------------

#[test]
fn one_item_is_read_from_its_chunk() {
    let text = "[clth]\nid = 2\nkind = \"chest\"\nsex=\"male\"\nsize=\"m\"\ncolor=\"FF00EE\"\ntarget=\"Keep\"\npurchase_date=\"2022-08-15\"\nstyle=\"summer\"";
    let fdata = FileData::from(text).unwrap();
    let (clothes, styles) = fdata.extract_clths().unwrap();
    assert_eq!(clothes.len(), 1);
    let item = clothes.get(2).unwrap();
    assert_eq!(item.id, 2);
    assert_eq!(item.kind, Kind::Chest);
    assert_eq!(item.sex, Sex::Male);
    assert_eq!(item.size, Size::M);
    assert_eq!(item.color, Rgb(255, 0, 238));
    assert_eq!(item.target, Target::Keep);
    assert_eq!(item.purchase_date, Date::new(2022, 8, 15).unwrap());
    assert_eq!(item.style.name, "summer");
    assert_eq!(styles.len(), 1);
    assert_eq!(styles.get("summer").unwrap().name, "summer");
}

#[test]
fn a_failure_holds_the_line_of_the_header() {
    let text = "[clth]\nid = 1\n\n\n[clth]\nid = 2\nkind chest\nsex = \"male\"\n";
    let err = into_chunks(text).unwrap_err();
    assert_eq!(err.line, 5);
    assert_eq!(err.msg, "Syntax error: 'kind chest'");
    assert_eq!(err.to_string(), "Error on line 5: Syntax error: 'kind chest'");
    let err = FileData::from(text).unwrap_err();
    assert_eq!(err.line, 5);
    let err = into_chunks("\n  \n[clth]\nid = x").unwrap_err();
    assert_eq!((err.line, err.msg.as_str()), (3, "Syntax error: 'x'"));
    let err = into_chunks("[shoe]\nid = 1\n\n[clth]\nid").unwrap_err();
    assert_eq!((err.line, err.msg.as_str()), (1, "'[shoe]' is a invalid header."));
}

#[test]
fn an_outfit_of_a_missing_item_is_refused() {
    let text = [CLTH1, CLTH2, CLTH3, "[outfit]\nchest = 7\nleg = 2\nfoot = 1"].join("\n\n");
    let fdata = FileData::from(&text).unwrap();
    let (clothes, _) = fdata.extract_clths().unwrap();
    let err = fdata.extract_outfits(&clothes).unwrap_err();
    assert_eq!(err, ClosetError::InvalidReference(Field::Chest));
    assert_eq!(err.to_string(), "Invalid 'chest' id.");
    assert!(fdata.to_data().is_err());
    let text = [CLTH1, CLTH2, CLTH3, "[outfit]\nchest = 0\nleg = 2\nfoot = 9"].join("\n\n");
    let fdata = FileData::from(&text).unwrap();
    assert_eq!(
        fdata.extract_outfits(&clothes).unwrap_err(),
        ClosetError::InvalidReference(Field::Foot)
    );
}

#[test]
fn an_empty_text_is_an_empty_closet() {
    for text in ["", "\n", "   \n\t\n \r\n"] {
        let fdata = FileData::from(text).unwrap();
        assert!(fdata.clth_chunks.is_empty() && fdata.outfit_chunks.is_empty());
        let data = fdata.to_data().unwrap();
        assert!(data.clothes.is_empty());
        assert!(data.outfits.is_empty());
        assert_eq!(data.styles.len(), 0);
        assert!(data.cache.clth.is_none() && data.cache.outfit.is_none());
    }
    let fresh = FileData::new();
    assert!(fresh.clth_chunks.is_empty() && fresh.outfit_chunks.is_empty());
}

#[test]
fn chunks_keep_their_order() {
    let text = "[outfit]\nchest = 1\n\n[clth]\nid = 1\n\n[outfit]\nchest = 2\n\n\n[clth]\nid = 2\r\n\r\n[clth]\n";
    let chunks = into_chunks(text).unwrap();
    assert_eq!(chunks.len(), 5);
    assert!(matches!(chunks[0].header, DataHeader::Outfit));
    assert!(matches!(chunks[1].header, DataHeader::Clth));
    let fdata = FileData::from(text).unwrap();
    let ids: Vec<i32> = fdata
        .clth_chunks
        .iter()
        .map(|c| match c.fields.get("id") {
            Some(Value::Num(n)) => *n,
            _ => -1,
        })
        .collect();
    assert_eq!(ids, vec![1, 2, -1]);
    let chests: Vec<i32> = fdata
        .outfit_chunks
        .iter()
        .map(|c| match c.fields.get("chest") {
            Some(Value::Num(n)) => *n,
            _ => -1,
        })
        .collect();
    assert_eq!(chests, vec![1, 2]);
}

// --- one chunk -----------------------------------------------------------------

fn text_of(chunk: &DataChunk, key: &str) -> Option<String> {
    match chunk.fields.get(key) {
        Some(Value::Text(t)) => Some(t.clone()),
        _ => None,
    }
}

fn num_of(chunk: &DataChunk, key: &str) -> Option<i32> {
    match chunk.fields.get(key) {
        Some(Value::Num(n)) => Some(*n),
        _ => None,
    }
}

#[test]
fn values_are_texts_or_numbers() {
    let chunk = parse(
        "  [outfit]  \n a = \"x y\" \nb=-12\nc = +7\nd = \"\"\n e e = \" q \"\nf = \"a\"b\"\ng = \"=\"\nh = 2147483647\ni = -2147483648\nj = 007",
    )
    .unwrap();
    assert!(matches!(chunk.header, DataHeader::Outfit));
    assert_eq!(text_of(&chunk, "a").unwrap(), "x y");
    assert_eq!(num_of(&chunk, "b"), Some(-12));
    assert_eq!(num_of(&chunk, "c"), Some(7));
    assert_eq!(text_of(&chunk, "d").unwrap(), "");
    assert_eq!(text_of(&chunk, "e e").unwrap(), " q ");
    assert_eq!(text_of(&chunk, "f").unwrap(), "a\"b");
    assert_eq!(text_of(&chunk, "g").unwrap(), "=");
    assert_eq!(num_of(&chunk, "h"), Some(i32::MAX));
    assert_eq!(num_of(&chunk, "i"), Some(i32::MIN));
    assert_eq!(num_of(&chunk, "j"), Some(7));
    assert!(chunk.fields.get("A").is_none());
    assert!(chunk.fields.get("").is_none());
}

#[test]
fn a_later_value_takes_the_place_of_an_earlier_one() {
    let chunk = parse("[clth]\nid = 1\nid = \"two\"\nid = 3").unwrap();
    assert_eq!(num_of(&chunk, "id"), Some(3));
    let chunk = parse("[clth]\nid = 1\nid = \"two\"").unwrap();
    assert_eq!(text_of(&chunk, "id").unwrap(), "two");
    let mut fields = Fields::new();
    assert!(fields.get("k").is_none());
    fields.insert("k".to_string(), Value::Num(1));
    fields.insert("l".to_string(), Value::Num(2));
    fields.insert("k".to_string(), Value::Num(3));
    assert!(matches!(fields.get("k"), Some(Value::Num(3))));
    assert!(matches!(fields.get("l"), Some(Value::Num(2))));
}

#[test]
fn what_is_no_chunk_is_reported() {
    assert_eq!(parse("").unwrap_err(), "'' is a invalid header.");
    assert_eq!(parse("\n[clth]").unwrap_err(), "'' is a invalid header.");
    assert_eq!(parse("[Clth]").unwrap_err(), "'[Clth]' is a invalid header.");
    assert_eq!(parse(" clth \nid = 1").unwrap_err(), "'clth' is a invalid header.");
    assert_eq!(parse("[clth]\nid").unwrap_err(), "Syntax error: 'id'");
    assert_eq!(parse("[clth]\n\nid = 1").unwrap_err(), "Syntax error: ''");
    assert_eq!(parse("[clth]\nid = 1 2").unwrap_err(), "Syntax error: '1 2'");
    assert_eq!(parse("[clth]\nid = \"").unwrap_err(), "Syntax error: '\"'");
    assert_eq!(parse("[clth]\nid = \"a").unwrap_err(), "Syntax error: '\"a'");
    assert_eq!(parse("[clth]\nid = ").unwrap_err(), "Syntax error: ''");
    assert_eq!(parse("[clth]\nid = 2147483648").unwrap_err(), "Syntax error: '2147483648'");
    assert_eq!(parse("[clth]\nid = -").unwrap_err(), "Syntax error: '-'");
    assert_eq!(parse("[clth]\nid = 1.5").unwrap_err(), "Syntax error: '1.5'");
    assert_eq!(parse("[clth]\ng==\"1\"").unwrap_err(), "Syntax error: '=\"1\"'");
    assert_eq!(parse("[clth]\na = 1\nb\nc").unwrap_err(), "Syntax error: 'b'");
    assert!(parse("[clth]").unwrap().fields.get("id").is_none());
    assert!(parse("[clth]\r\nid = 1\r\n").is_ok());
}

// --- from chunks to records ------------------------------------------------------

fn item_text(id: i32, kind: &str, style: &str) -> String {
    format!(
        "[clth]\nid = {}\nkind = \"{}\"\nsex = \"Female\"\nsize = \"xs\"\ncolor = \"000000\"\ntarget = \"Donation\"\npurchase_date = \"2020-02-29\"\nstyle = \"{}\"",
        id, kind, style
    )
}

fn failure_of(text: &str) -> ClosetError {
    match FileData::from(text).unwrap().to_data() {
        Ok(_) => panic!("the text was read"),
        Err(e) => e,
    }
}

#[test]
fn every_field_of_an_item_is_checked() {
    let full = item_text(1, "leg", "x");
    assert!(FileData::from(&full).unwrap().to_data().is_ok());
    let lines: Vec<&str> = full.lines().collect();
    let fields = [
        Field::Id,
        Field::Kind,
        Field::Sex,
        Field::Size,
        Field::Color,
        Field::Target,
        Field::PurchaseDate,
        Field::Style,
    ];
    for (i, field) in fields.iter().enumerate() {
        let mut kept = lines.clone();
        kept.remove(i + 1);
        assert_eq!(failure_of(&kept.join("\n")), ClosetError::MissingField(*field));
        let mut other = lines.clone();
        let swapped = if i == 0 {
            format!("{} = \"1\"", field.name())
        } else {
            format!("{} = 1", field.name())
        };
        other[i + 1] = &swapped;
        assert_eq!(failure_of(&other.join("\n")), ClosetError::WrongType(*field));
    }
    assert_eq!(ClosetError::MissingField(Field::Id).to_string(), "Missing 'id' field.");
    assert_eq!(ClosetError::WrongType(Field::Id).to_string(), "'id' is not a text field.");
    assert_eq!(
        ClosetError::WrongType(Field::Kind).to_string(),
        "'kind' is not a numerical field."
    );
    assert_eq!(
        ClosetError::MissingField(Field::PurchaseDate).to_string(),
        "Missing 'purchase_date' field."
    );
}

#[test]
fn every_value_of_an_item_is_checked() {
    let full = item_text(1, "leg", "x");
    let cases = [
        ("kind = \"leg\"", "kind = \"arm\"", ClosetError::InvalidKind),
        ("sex = \"Female\"", "sex = \"?\"", ClosetError::InvalidSex),
        ("size = \"xs\"", "size = \"xxs\"", ClosetError::InvalidSize),
        ("color = \"000000\"", "color = \"00000\"", ClosetError::InvalidColor),
        ("target = \"Donation\"", "target = \"Sell\"", ClosetError::InvalidTarget),
        ("target = \"Donation\"", "target = \"Sale for $x\"", ClosetError::InvalidPrice),
        ("purchase_date = \"2020-02-29\"", "purchase_date = \"2021-02-29\"", ClosetError::InvalidDate),
        ("purchase_date = \"2020-02-29\"", "purchase_date = \"2020-2-29\"", ClosetError::InvalidDate),
    ];
    for (from, to, failure) in cases {
        assert_eq!(failure_of(&full.replace(from, to)), failure);
    }
    let two = full.replace("kind = \"leg\"", "kind = \"arm\"").replace("size = \"xs\"", "size = 1");
    assert_eq!(failure_of(&two), ClosetError::InvalidKind);
    assert_eq!(ClosetError::InvalidKind.to_string(), "Invalid kind.");
    assert_eq!(ClosetError::InvalidSex.to_string(), "Invalid sex.");
    assert_eq!(ClosetError::InvalidSize.to_string(), "Invalid size.");
    assert_eq!(ClosetError::InvalidColor.to_string(), "Invalid color.");
    assert_eq!(ClosetError::InvalidTarget.to_string(), "Invalid target.");
    assert_eq!(ClosetError::InvalidPrice.to_string(), "Invalid price.");
    assert_eq!(ClosetError::InvalidDate.to_string(), "Invalid date.");
}

#[test]
fn items_come_in_the_order_of_the_text() {
    let text = [item_text(3, "leg", "B"), item_text(0, "chest", "a"), item_text(7, "foot", "b")].join("\n\n");
    let data = FileData::from(&text).unwrap().to_data().unwrap();
    assert_eq!(data.clothes.ids(), vec![3, 0, 7]);
    assert_eq!(data.styles.len(), 2);
    assert_eq!(data.clothes.get(3).unwrap().style.name, "b");
    assert_eq!(data.clothes.get(0).unwrap().style.name, "a");
    let twice = [item_text(3, "leg", "a"), item_text(3, "chest", "a")].join("\n\n");
    assert_eq!(failure_of(&twice), ClosetError::DuplicateId);
    let below = item_text(-1, "leg", "a");
    let data = FileData::from(&below).unwrap().to_data().unwrap();
    assert_eq!(data.clothes.ids(), vec![u32::MAX]);
}

#[test]
fn outfits_get_their_ids_as_they_are_read() {
    let items = [
        item_text(10, "chest", "a"),
        item_text(11, "leg", "a"),
        item_text(12, "foot", "a"),
        item_text(13, "foot", "a"),
        item_text(14, "foot", "z"),
    ]
    .join("\n\n");
    let outfit = |c: i32, l: i32, f: i32| format!("[outfit]\nid = 40\nchest = {}\nleg = {}\nfoot = {}", c, l, f);
    let text = [items.clone(), outfit(10, 11, 12), outfit(10, 11, 13), outfit(10, 11, 12)].join("\n\n");
    let data = FileData::from(&text).unwrap().to_data().unwrap();
    assert_eq!(data.outfits.to_id_matrix(), vec![[10, 11, 12], [10, 11, 13]]);
    assert_eq!(data.outfits.ids(), vec![0, 1]);
    let text = [items.clone(), outfit(10, 11, 14)].join("\n\n");
    assert_eq!(failure_of(&text), ClosetError::StyleMismatch);
    let text = [items.clone(), outfit(11, 10, 12)].join("\n\n");
    assert_eq!(failure_of(&text), ClosetError::InvalidComposition);
    let text = [items.clone(), "[outfit]\nchest = 10\nfoot = 12".to_string()].join("\n\n");
    assert_eq!(failure_of(&text), ClosetError::MissingField(Field::Leg));
    let text = [items.clone(), "[outfit]\nchest = 10\nleg = \"11\"\nfoot = 12".to_string()].join("\n\n");
    assert_eq!(failure_of(&text), ClosetError::WrongType(Field::Leg));
    let text = [items, "[outfit]\nchest = 10\nleg = 99\nfoot = 12".to_string()].join("\n\n");
    assert_eq!(failure_of(&text), ClosetError::InvalidReference(Field::Leg));
    assert_eq!(ClosetError::WrongType(Field::Leg).to_string(), "'leg' is not a text field.");
}

#[test]
fn a_written_closet_reads_back() {
    let date = Date::new(2022, 8, 15).unwrap();
    let mut data = Data::new();
    let looks = [
        (Kind::Chest, Sex::Male, Size::XS, Rgb(1, 2, 3), Target::Keep),
        (Kind::Leg, Sex::Female, Size::L, Rgb(255, 0, 238), Target::Sale(2075)),
        (Kind::Foot, Sex::Unissex, Size::XL, Rgb(0, 0, 0), Target::Donation),
    ];
    for (id, (kind, sex, size, color, target)) in looks.iter().enumerate() {
        let style = data.styles.get_or_add("Summer");
        data.clothes
            .add(Clth::new(id as u32, *kind, *sex, *size, *color, *target, date, style))
            .unwrap();
    }
    let made = Outfit::new(5, 0, 1, 2, &data.clothes).unwrap();
    data.outfits.add(made).unwrap();
    let text = data.to_toml();
    assert_eq!(
        text,
        format!("{}\n\n{}", data.clothes.to_toml(), data.outfits.to_toml())
    );
    let back = FileData::from(&text).unwrap().to_data().unwrap();
    assert_eq!(back.clothes.to_toml(), data.clothes.to_toml());
    assert_eq!(back.outfits.to_id_matrix(), vec![[0, 1, 2]]);
    assert_eq!(back.outfits.ids(), vec![0]);
    assert_eq!(back.styles.len(), 1);
    let empty = Data::new();
    assert_eq!(empty.to_toml(), "\n\n");
    assert!(FileData::from(&empty.to_toml()).unwrap().to_data().is_ok());
    let _unused: (Clothes, Outfits, Style) = (Clothes::new(), Outfits::new(), Style::new("s"));
    let shown = ParseError::new(3, "m".to_string()).to_string();
    assert_eq!(shown, "Error on line 3: m");
}
