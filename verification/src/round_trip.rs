//! A closet that was written reads back as it is.
//!
//! The proofs follow the text from the inside out: a line gives its field
//! back, the lines of a chunk give the record back, and the chunks of a text
//! give the closet back.

use crate::closet::{
    added, apart, has_id, has_triple, item_ids, items_ok, lemma_filter_all, outfit, outfit_added,
    outfit_check, outfit_ids, outfits_ok, triple, with_name,
    clothes_toml, clth_toml, outfit_toml, outfits_toml,
    clth_lines, number_line, outfit_lines, text_line, ClthView, Kind, OutfitView, Rgb, Sex, Size,
    Target,
};
use crate::date::{date_round_trip, date_text, is_calendar_date};
use crate::error::{field_name, ClosetError, Field};
use crate::ids::{is_smallest_free, lemma_smallest_free};
use crate::storage::{
    data_of, clths_of, outfits_of, with_header, with_outfit_of,
    chunks_of, file_chunks, lemma_run_len, lemma_run_len_is, run_len, ParseErrorView,
    as_id, chunk_of, chunk_text, clth_of, color_field, date_field, field_of, fields_map, fields_of,
    head_line, header_of, kind_field, lemma_fields_map, number_field, sex_field,
    size_field, slots_of, style_field, target_field, value_of, ChunkView, DataHeader,
    ValueView,
};
use crate::text::{
    lemma_joined_concat, lemma_joined_first,
    decimal_text, is_blank, is_digit, is_hex_digit, is_line, is_tight, joined,
    lemma_decimal_text, lemma_digit_char, lemma_find_is, lemma_i32_literal_of_text,
    lemma_lines_of_joined, lemma_trim_tight, lowercase_of, text_lines,
};
use crate::values::{
    kind_round_trip, rgb_round_trip, sex_round_trip, size_round_trip, target_round_trip,
};
use vstd::prelude::*;

verus! {

// ---------------------------------------------------------------------------
// One line
// ---------------------------------------------------------------------------

/// Whether a text can be the key of a field: it is tight and holds neither
/// `=` nor a line feed.
pub open spec fn is_key(k: Seq<char>) -> bool {
    &&& is_tight(k)
    &&& forall|i: int| 0 <= i < k.len() ==> #[trigger] k[i] != '=' && k[i] != '\n'
}

/// Whether a text holds no line feed.
pub open spec fn is_plain(s: Seq<char>) -> bool {
    forall|i: int| 0 <= i < s.len() ==> #[trigger] s[i] != '\n'
}

/// The line that stores a number gives the key and the number back.
pub proof fn lemma_number_line(key: Seq<char>, n: nat)
    requires
        is_key(key),
        n <= i32::MAX,
    ensures
        field_of(number_line(key, n)) == Ok::<(Seq<char>, ValueView), Seq<char>>(
            (key, ValueView::Num(n as i32)),
        ),
        is_line(number_line(key, n)),
        !is_blank(number_line(key, n)),
{
    reveal_strlit(" = ");
    let digits = decimal_text(n);
    lemma_decimal_text(n);
    let line = number_line(key, n);
    let i = key.len() as int + 1;
    assert(line.len() == key.len() + 3 + digits.len());
    assert forall|k: int| 0 <= k < i implies line[k] != '=' by {
        if k < key.len() {
            assert(line[k] == key[k]);
        }
    }
    assert(line[i] == '=');
    lemma_find_is(line, '=', i);
    assert(line.take(i) =~= key + seq![' ']);
    assert(line.skip(i + 1) =~= seq![' '] + digits);
    lemma_trim_tight(key);
    assert(is_digit(digits[0]));
    assert(is_digit(digits.last()));
    lemma_trim_tight(digits);
    lemma_i32_literal_of_text(n);
    assert(value_of(digits) == Some(ValueView::Num(n as i32)));
    assert forall|k: int| 0 <= k < line.len() implies #[trigger] line[k] != '\n' by {
        if k < key.len() {
            assert(line[k] == key[k]);
        } else if k >= key.len() + 3 {
            assert(line[k] == digits[k - key.len() - 3]);
            assert(is_digit(digits[k - key.len() - 3]));
        }
    }
    assert(line.last() == digits.last());
    assert(line[0] == key[0]);
}

/// The line that stores a text gives the key and the text back.
pub proof fn lemma_text_line(key: Seq<char>, value: Seq<char>)
    requires
        is_key(key),
        is_plain(value),
    ensures
        field_of(text_line(key, value)) == Ok::<(Seq<char>, ValueView), Seq<char>>(
            (key, ValueView::Text(value)),
        ),
        is_line(text_line(key, value)),
        !is_blank(text_line(key, value)),
{
    reveal_strlit(" = \"");
    reveal_strlit("\"");
    let line = text_line(key, value);
    let quoted = seq!['"'] + value + seq!['"'];
    let i = key.len() as int + 1;
    assert(line.len() == key.len() + 4 + value.len() + 1);
    assert forall|k: int| 0 <= k < i implies line[k] != '=' by {
        if k < key.len() {
            assert(line[k] == key[k]);
        }
    }
    assert(line[i] == '=');
    lemma_find_is(line, '=', i);
    assert(line.take(i) =~= key + seq![' ']);
    assert(line.skip(i + 1) =~= seq![' '] + quoted);
    lemma_trim_tight(key);
    assert(quoted[0] == '"');
    assert(quoted.last() == '"');
    lemma_trim_tight(quoted);
    assert(quoted.subrange(1, quoted.len() - 1) =~= value);
    assert(value_of(quoted) == Some(ValueView::Text(value)));
    assert forall|k: int| 0 <= k < line.len() implies #[trigger] line[k] != '\n' by {
        if k < key.len() {
            assert(line[k] == key[k]);
        } else if key.len() + 4 <= k < key.len() + 4 + value.len() {
            assert(line[k] == value[k - key.len() - 4]);
        }
    }
    assert(line.last() == '"');
    assert(line[0] == key[0]);
}

// ---------------------------------------------------------------------------
// One chunk
// ---------------------------------------------------------------------------

/// The names of the fields are keys, and no two fields share a name.
pub proof fn lemma_field_names()
    ensures
        forall|f: Field| is_key(#[trigger] field_name(f)),
        forall|f: Field, g: Field| f != g ==> #[trigger] field_name(f) != #[trigger] field_name(g),
{
    reveal_strlit("id");
    reveal_strlit("kind");
    reveal_strlit("sex");
    reveal_strlit("size");
    reveal_strlit("color");
    reveal_strlit("price");
    reveal_strlit("target");
    reveal_strlit("purchase_date");
    reveal_strlit("style");
    reveal_strlit("chest");
    reveal_strlit("leg");
    reveal_strlit("foot");
    assert forall|f: Field| is_key(#[trigger] field_name(f)) by {
        let k = field_name(f);
        assert(k.len() >= 2);
        assert(k[0] != ' ' && k[1] != ' ');
    }
    assert forall|f: Field, g: Field| f != g implies #[trigger] field_name(f) != #[trigger] field_name(
        g,
    ) by {
        let a = field_name(f);
        let b = field_name(g);
        if a.len() == b.len() && a[0] == b[0] {
            assert(a[1] != b[1]);
        }
    }
}

/// The lines of a chunk, each with a line feed behind it, are the lines of
/// the text they make.
pub proof fn lemma_chunk_text(lines: Seq<Seq<char>>)
    requires
        lines.len() > 0,
        forall|i: int| 0 <= i < lines.len() ==> is_line(#[trigger] lines[i]),
    ensures
        chunk_text(lines) == joined(lines, "\n"@) + "\n"@,
        text_lines(chunk_text(lines)) == lines,
    decreases lines.len(),
{
    reveal_strlit("\n");
    let init = lines.drop_last();
    if init.len() == 0 {
        assert(chunk_text(init) =~= Seq::<char>::empty());
        assert(chunk_text(lines) =~= joined(lines, "\n"@) + "\n"@);
    } else {
        assert forall|i: int| 0 <= i < init.len() implies is_line(#[trigger] init[i]) by {
            assert(init[i] == lines[i]);
        }
        lemma_chunk_text(init);
        assert(chunk_text(lines) =~= joined(lines, "\n"@) + "\n"@);
    }
    let more = lines.push(Seq::<char>::empty());
    assert(more.drop_last() =~= lines);
    assert(joined(more, "\n"@) =~= joined(lines, "\n"@) + "\n"@);
    assert forall|i: int| 0 <= i < more.len() implies is_line(#[trigger] more[i]) by {
        if i < lines.len() {
            assert(more[i] == lines[i]);
        }
    }
    lemma_lines_of_joined(more);
}

/// Lines that each give a field give all the fields, in their order.
pub proof fn lemma_fields_of(lines: Seq<Seq<char>>, entries: Seq<(Seq<char>, ValueView)>)
    requires
        lines.len() == entries.len(),
        forall|i: int|
            0 <= i < lines.len() ==> field_of(#[trigger] lines[i]) == Ok::<
                (Seq<char>, ValueView),
                Seq<char>,
            >(entries[i]),
    ensures
        fields_of(lines) == Ok::<Seq<(Seq<char>, ValueView)>, Seq<char>>(entries),
    decreases lines.len(),
{
    if lines.len() == 0 {
        assert(entries =~= Seq::<(Seq<char>, ValueView)>::empty());
    } else {
        let init = lines.drop_last();
        let first = entries.drop_last();
        assert forall|i: int| 0 <= i < init.len() implies field_of(#[trigger] init[i]) == Ok::<
            (Seq<char>, ValueView),
            Seq<char>,
        >(first[i]) by {
            assert(init[i] == lines[i]);
        }
        lemma_fields_of(init, first);
        assert(field_of(lines[lines.len() - 1]) == Ok::<(Seq<char>, ValueView), Seq<char>>(
            entries[lines.len() - 1],
        ));
        assert(first.push(entries.last()) =~= entries);
    }
}

/// A key that no later entry has holds the value of its entry.
pub proof fn lemma_entry(entries: Seq<(Seq<char>, ValueView)>, p: int)
    requires
        0 <= p < entries.len(),
        forall|k: int| p < k < entries.len() ==> entries[k].0 != entries[p].0,
    ensures
        fields_map(entries).contains_key(entries[p].0),
        fields_map(entries)[entries[p].0] == entries[p].1,
{
    lemma_fields_map(entries, entries[p].0, p + 1);
}

/// The texts of the values of an item hold no line feed.
pub proof fn lemma_values_plain(c: ClthView)
    requires
        is_calendar_date(c.purchase_date),
    ensures
        is_plain(c.kind.text()),
        is_plain(c.sex.text()),
        is_plain(c.size.text()),
        is_plain(c.color.hex()),
        is_plain(c.target.text()),
        is_plain(date_text(c.purchase_date)),
{
    reveal_strlit("Chest");
    reveal_strlit("Leg");
    reveal_strlit("Foot");
    reveal_strlit("Male");
    reveal_strlit("Female");
    reveal_strlit("Unissex");
    reveal_strlit("XS");
    reveal_strlit("S");
    reveal_strlit("M");
    reveal_strlit("L");
    reveal_strlit("XL");
    reveal_strlit("Donation");
    reveal_strlit("Keep");
    reveal_strlit("Sale for $");
    assert(is_plain(c.kind.text()));
    assert(is_plain(c.sex.text()));
    assert(is_plain(c.size.text()));
    assert(is_plain(c.color.hex())) by {
        let h = c.color.hex();
        assert forall|i: int| 0 <= i < h.len() implies #[trigger] h[i] != '\n' by {
            assert(is_hex_digit(h[i]));
        }
    }
    assert(is_plain(c.target.text())) by {
        match c.target {
            Target::Sale(p) => {
                let t = c.target.text();
                let digits = decimal_text(p as nat / 100);
                lemma_decimal_text(p as nat / 100);
                lemma_digit_char(p as nat % 100 / 10);
                lemma_digit_char(p as nat % 10);
                assert forall|i: int| 0 <= i < t.len() implies #[trigger] t[i] != '\n' by {
                    if 10 <= i < 10 + digits.len() {
                        assert(t[i] == digits[i - 10]);
                        assert(is_digit(digits[i - 10]));
                    }
                }
            },
            _ => {},
        }
    }
    assert(is_plain(date_text(c.purchase_date))) by {
        let d = c.purchase_date;
        let t = date_text(d);
        lemma_digit_char((d.year / 1000) as nat);
        lemma_digit_char((d.year / 100 % 10) as nat);
        lemma_digit_char((d.year / 10 % 10) as nat);
        lemma_digit_char((d.year % 10) as nat);
        lemma_digit_char((d.month / 10) as nat);
        lemma_digit_char((d.month % 10) as nat);
        lemma_digit_char((d.day / 10) as nat);
        lemma_digit_char((d.day % 10) as nat);
        assert forall|i: int| 0 <= i < t.len() implies #[trigger] t[i] != '\n' by {}
    }
}

/// The keys and values that the chunk of an item gives.
pub open spec fn clth_entries(c: ClthView) -> Seq<(Seq<char>, ValueView)> {
    seq![
        (field_name(Field::Id), ValueView::Num(c.id as i32)),
        (field_name(Field::Kind), ValueView::Text(c.kind.text())),
        (field_name(Field::Sex), ValueView::Text(c.sex.text())),
        (field_name(Field::Size), ValueView::Text(c.size.text())),
        (field_name(Field::Color), ValueView::Text(c.color.hex())),
        (field_name(Field::Target), ValueView::Text(c.target.text())),
        (field_name(Field::PurchaseDate), ValueView::Text(date_text(c.purchase_date))),
        (field_name(Field::Style), ValueView::Text(c.style)),
    ]
}

/// The keys and values that the chunk of an outfit gives.
pub open spec fn outfit_entries(o: OutfitView) -> Seq<(Seq<char>, ValueView)> {
    seq![
        (field_name(Field::Chest), ValueView::Num(o.chest as i32)),
        (field_name(Field::Leg), ValueView::Num(o.leg as i32)),
        (field_name(Field::Foot), ValueView::Num(o.foot as i32)),
    ]
}

/// Whether an item can be stored: its id is a number of 31 bits, its date a
/// day of the calendar, and the name of its style without a line feed and
/// its own lower-case form.
pub open spec fn is_storable(c: ClthView) -> bool {
    &&& c.id <= i32::MAX
    &&& is_calendar_date(c.purchase_date)
    &&& is_plain(c.style)
    &&& lowercase_of(c.style) == c.style
}

/// Whether lines can be those of a chunk: none is blank.
pub open spec fn is_group(lines: Seq<Seq<char>>) -> bool {
    &&& lines.len() > 0
    &&& forall|i: int| 0 <= i < lines.len() ==> is_line(#[trigger] lines[i])
    &&& forall|i: int| 0 <= i < lines.len() ==> !is_blank(#[trigger] lines[i])
}

/// The chunk of a header and of lines that each give a field.
pub proof fn lemma_chunk(
    header_text: Seq<char>,
    header: DataHeader,
    lines: Seq<Seq<char>>,
    entries: Seq<(Seq<char>, ValueView)>,
)
    requires
        is_tight(header_text),
        is_line(header_text),
        header_of(header_text) == Some(header),
        lines.len() >= 1,
        lines[0] == header_text,
        lines.len() == entries.len() + 1,
        forall|i: int| 1 <= i < lines.len() ==> is_line(#[trigger] lines[i]),
        forall|i: int| 1 <= i < lines.len() ==> !is_blank(#[trigger] lines[i]),
        forall|i: int|
            1 <= i < lines.len() ==> field_of(#[trigger] lines[i]) == Ok::<
                (Seq<char>, ValueView),
                Seq<char>,
            >(entries[i - 1]),
    ensures
        is_group(lines),
        chunk_of(chunk_text(lines)) == Ok::<ChunkView, Seq<char>>(
            ChunkView { header, fields: fields_map(entries) },
        ),
{
    assert(!is_blank(lines[0]));
    assert(is_group(lines));
    lemma_chunk_text(lines);
    lemma_trim_tight(header_text);
    assert(head_line(lines) == header_text);
    let rest = lines.skip(1);
    assert forall|i: int| 0 <= i < rest.len() implies field_of(#[trigger] rest[i]) == Ok::<
        (Seq<char>, ValueView),
        Seq<char>,
    >(entries[i]) by {
        assert(rest[i] == lines[i + 1]);
    }
    lemma_fields_of(rest, entries);
}

/// The chunk that stores an item reads as the keys and values of the item.
pub proof fn lemma_clth_chunk(c: ClthView)
    requires
        is_storable(c),
    ensures
        is_group(clth_lines(c)),
        chunk_of(chunk_text(clth_lines(c))) == Ok::<ChunkView, Seq<char>>(
            ChunkView { header: DataHeader::Clth, fields: fields_map(clth_entries(c)) },
        ),
{
    reveal_strlit("[clth]");
    lemma_field_names();
    lemma_values_plain(c);
    let lines = clth_lines(c);
    let entries = clth_entries(c);
    lemma_number_line(field_name(Field::Id), c.id as nat);
    lemma_text_line(field_name(Field::Kind), c.kind.text());
    lemma_text_line(field_name(Field::Sex), c.sex.text());
    lemma_text_line(field_name(Field::Size), c.size.text());
    lemma_text_line(field_name(Field::Color), c.color.hex());
    lemma_text_line(field_name(Field::Target), c.target.text());
    lemma_text_line(field_name(Field::PurchaseDate), date_text(c.purchase_date));
    lemma_text_line(field_name(Field::Style), c.style);
    assert(is_tight("[clth]"@));
    assert(is_line("[clth]"@));
    lemma_chunk("[clth]"@, DataHeader::Clth, lines, entries);
}

/// The chunk that stores an outfit reads as the ids of its three items.
pub proof fn lemma_outfit_chunk(o: OutfitView)
    requires
        o.chest <= i32::MAX,
        o.leg <= i32::MAX,
        o.foot <= i32::MAX,
    ensures
        is_group(outfit_lines(o)),
        chunk_of(chunk_text(outfit_lines(o))) == Ok::<ChunkView, Seq<char>>(
            ChunkView { header: DataHeader::Outfit, fields: fields_map(outfit_entries(o)) },
        ),
{
    reveal_strlit("[outfit]");
    reveal_strlit("[clth]");
    lemma_field_names();
    let lines = outfit_lines(o);
    let entries = outfit_entries(o);
    lemma_number_line(field_name(Field::Chest), o.chest as nat);
    lemma_number_line(field_name(Field::Leg), o.leg as nat);
    lemma_number_line(field_name(Field::Foot), o.foot as nat);
    assert(is_tight("[outfit]"@));
    assert(is_line("[outfit]"@));
    assert("[outfit]"@.len() != "[clth]"@.len());
    lemma_chunk("[outfit]"@, DataHeader::Outfit, lines, entries);
}

/// The keys and values of an item give the item back.
pub proof fn lemma_clth_record(c: ClthView)
    requires
        is_storable(c),
    ensures
        clth_of(fields_map(clth_entries(c))) == Ok::<ClthView, ClosetError>(c),
{
    lemma_field_names();
    let entries = clth_entries(c);
    let fields = fields_map(entries);
    lemma_entry(entries, 0);
    lemma_entry(entries, 1);
    lemma_entry(entries, 2);
    lemma_entry(entries, 3);
    lemma_entry(entries, 4);
    lemma_entry(entries, 5);
    lemma_entry(entries, 6);
    lemma_entry(entries, 7);
    assert(number_field(fields, Field::Id) == Ok::<i32, ClosetError>(c.id as i32));
    assert(as_id(c.id as i32) == c.id);
    kind_round_trip(c.kind);
    sex_round_trip(c.sex);
    size_round_trip(c.size);
    rgb_round_trip(c.color);
    target_round_trip(c.target);
    date_round_trip(c.purchase_date);
    assert(kind_field(fields) == Ok::<Kind, ClosetError>(c.kind));
    assert(sex_field(fields) == Ok::<Sex, ClosetError>(c.sex));
    assert(size_field(fields) == Ok::<Size, ClosetError>(c.size));
    assert(color_field(fields) == Ok::<Rgb, ClosetError>(c.color));
    assert(target_field(fields) == Ok::<Target, ClosetError>(c.target));
    assert(date_field(fields) == Ok::<crate::date::Ymd, ClosetError>(c.purchase_date));
    assert(style_field(fields) == Ok::<Seq<char>, ClosetError>(c.style));
}

// ---------------------------------------------------------------------------
// The chunks of a text
// ---------------------------------------------------------------------------

/// The lines of chunks, with an empty line between each two chunks.
pub open spec fn spread(groups: Seq<Seq<Seq<char>>>) -> Seq<Seq<char>>
    decreases groups.len(),
{
    if groups.len() == 0 {
        Seq::empty()
    } else if groups.len() == 1 {
        groups[0]
    } else {
        groups[0] + seq![Seq::<char>::empty()] + spread(groups.drop_first())
    }
}

/// The lines of the text that chunks make when they are joined: those of the
/// chunks with an empty line between each two, or one empty line where there
/// is no chunk.
pub open spec fn lines_of_groups(groups: Seq<Seq<Seq<char>>>) -> Seq<Seq<char>> {
    if groups.len() == 0 {
        seq![Seq::<char>::empty()]
    } else {
        spread(groups)
    }
}

/// The lines of chunks are lines; the last of them is the last line of the
/// last chunk.
pub proof fn lemma_spread(groups: Seq<Seq<Seq<char>>>)
    requires
        groups.len() >= 1,
        forall|i: int| 0 <= i < groups.len() ==> is_group(#[trigger] groups[i]),
    ensures
        spread(groups).len() >= 1,
        forall|k: int| 0 <= k < spread(groups).len() ==> is_line(#[trigger] spread(groups)[k]),
        spread(groups).last() == groups.last().last(),
        !is_blank(spread(groups)[0]),
    decreases groups.len(),
{
    let first = groups[0];
    assert(is_group(first));
    if groups.len() >= 2 {
        let rest = groups.drop_first();
        assert forall|i: int| 0 <= i < rest.len() implies is_group(#[trigger] rest[i]) by {
            assert(rest[i] == groups[i + 1]);
        }
        lemma_spread(rest);
        let all = spread(groups);
        let tail = spread(rest);
        assert(all.len() == first.len() + 1 + tail.len());
        assert forall|k: int| 0 <= k < all.len() implies is_line(#[trigger] all[k]) by {
            if k < first.len() {
                assert(all[k] == first[k]);
            } else if k == first.len() {
                assert(all[k] =~= Seq::<char>::empty());
            } else {
                assert(all[k] == tail[k - first.len() - 1]);
            }
        }
        assert(all.last() == tail.last());
        assert(rest.last() == groups.last());
        assert(all[0] == first[0]);
    }
}

/// Chunks that are joined by empty lines make the text of their lines.
pub proof fn lemma_joined_groups(groups: Seq<Seq<Seq<char>>>)
    requires
        forall|i: int| 0 <= i < groups.len() ==> is_group(#[trigger] groups[i]),
    ensures
        joined(Seq::new(groups.len(), |i: int| joined(groups[i], "\n"@)), "\n\n"@) == joined(
            lines_of_groups(groups),
            "\n"@,
        ),
    decreases groups.len(),
{
    reveal_strlit("\n");
    reveal_strlit("\n\n");
    let texts = Seq::new(groups.len(), |i: int| joined(groups[i], "\n"@));
    let blank = Seq::<char>::empty();
    if groups.len() == 0 {
        assert(joined(seq![blank], "\n"@) == blank);
    } else if groups.len() == 1 {
    } else {
        let rest = groups.drop_first();
        let first = groups[0];
        assert(is_group(first));
        assert forall|i: int| 0 <= i < rest.len() implies is_group(#[trigger] rest[i]) by {
            assert(rest[i] == groups[i + 1]);
        }
        lemma_joined_groups(rest);
        lemma_spread(rest);
        let rest_texts = Seq::new(rest.len(), |i: int| joined(rest[i], "\n"@));
        assert(texts.drop_first() =~= rest_texts);
        lemma_joined_first(texts, "\n\n"@);
        let tail = spread(rest);
        lemma_joined_concat(seq![blank], tail, "\n"@);
        lemma_joined_concat(first, seq![blank] + tail, "\n"@);
        assert(joined(seq![blank], "\n"@) == blank);
        assert(spread(groups) =~= first + (seq![blank] + tail));
        assert("\n\n"@ =~= "\n"@ + "\n"@);
        assert(joined(spread(groups), "\n"@) =~= joined(first, "\n"@) + "\n\n"@ + joined(
            tail,
            "\n"@,
        ));
    }
}

/// Where the chunks of lines read well, they are the same whatever the
/// number of the first line.
pub proof fn lemma_chunks_first(lines: Seq<Seq<char>>, f: int, g: int)
    requires
        chunks_of(lines, f) is Ok,
    ensures
        chunks_of(lines, g) == chunks_of(lines, f),
    decreases lines.len(),
{
    if lines.len() == 0 {
    } else if is_blank(lines[0]) {
        lemma_chunks_first(lines.drop_first(), f + 1, g + 1);
    } else {
        let n = run_len(lines);
        lemma_run_len(lines);
        lemma_chunks_first(lines.skip(n), f + n, g + n);
    }
}

/// The lines of a chunk, and then lines that do not go on with it, read as
/// the chunk and then as what the other lines give.
pub proof fn lemma_chunks_group(group: Seq<Seq<char>>, rest: Seq<Seq<char>>, f: int)
    requires
        is_group(group),
        rest.len() == 0 || is_blank(rest[0]),
    ensures
        chunks_of(group + rest, f) == (match chunk_of(chunk_text(group)) {
            Err(msg) => Err(ParseErrorView { line: f, msg }),
            Ok(chunk) => match chunks_of(rest, f + group.len()) {
                Err(e) => Err(e),
                Ok(more) => Ok(seq![chunk] + more),
            },
        }),
{
    let lines = group + rest;
    let n = group.len() as int;
    assert forall|k: int| 0 <= k < n implies !is_blank(#[trigger] lines[k]) by {
        assert(lines[k] == group[k]);
    }
    if n < lines.len() {
        assert(lines[n] == rest[0]);
    }
    lemma_run_len_is(lines, n);
    assert(lines.take(n) =~= group);
    assert(lines.skip(n) =~= rest);
    assert(lines[0] == group[0]);
}

/// A chunk that reads well, and then lines that give chunks and do not go on
/// with it, read as that chunk and then those chunks.
pub proof fn lemma_chunks_cons(
    group: Seq<Seq<char>>,
    chunk: ChunkView,
    rest: Seq<Seq<char>>,
    more: Seq<ChunkView>,
    f: int,
)
    requires
        is_group(group),
        chunk_of(chunk_text(group)) == Ok::<ChunkView, Seq<char>>(chunk),
        rest.len() == 0 || is_blank(rest[0]),
        chunks_of(rest, f + group.len()) == Ok::<Seq<ChunkView>, ParseErrorView>(more),
    ensures
        chunks_of(group + rest, f) == Ok::<Seq<ChunkView>, ParseErrorView>(seq![chunk] + more),
{
    lemma_chunks_group(group, rest, f);
}

/// The lines of chunks that each read well, and then lines that do not go on
/// with the last of them, read as those chunks and then as what the other
/// lines give.
pub proof fn lemma_chunks_spread(
    groups: Seq<Seq<Seq<char>>>,
    parsed: Seq<ChunkView>,
    tail: Seq<Seq<char>>,
    after: Seq<ChunkView>,
    f: int,
)
    requires
        groups.len() >= 1,
        groups.len() == parsed.len(),
        forall|i: int| 0 <= i < groups.len() ==> is_group(#[trigger] groups[i]),
        forall|i: int|
            0 <= i < groups.len() ==> chunk_of(chunk_text(#[trigger] groups[i])) == Ok::<
                ChunkView,
                Seq<char>,
            >(parsed[i]),
        tail.len() == 0 || is_blank(tail[0]),
        chunks_of(tail, 0) == Ok::<Seq<ChunkView>, ParseErrorView>(after),
    ensures
        chunks_of(spread(groups) + tail, f) == Ok::<Seq<ChunkView>, ParseErrorView>(
            parsed + after,
        ),
    decreases groups.len(),
{
    let first = groups[0];
    assert(is_group(first));
    assert(chunk_of(chunk_text(first)) == Ok::<ChunkView, Seq<char>>(parsed[0]));
    if groups.len() == 1 {
        lemma_chunks_first(tail, 0, f + first.len());
        lemma_chunks_cons(first, parsed[0], tail, after, f);
        assert(seq![parsed[0]] + after =~= parsed + after);
    } else {
        let rest = groups.drop_first();
        let more = parsed.drop_first();
        assert forall|i: int| 0 <= i < rest.len() implies is_group(#[trigger] rest[i]) by {
            assert(rest[i] == groups[i + 1]);
        }
        assert forall|i: int| 0 <= i < rest.len() implies chunk_of(
            chunk_text(#[trigger] rest[i]),
        ) == Ok::<ChunkView, Seq<char>>(more[i]) by {
            assert(rest[i] == groups[i + 1]);
            assert(more[i] == parsed[i + 1]);
        }
        lemma_chunks_spread(rest, more, tail, after, f + first.len() + 1);
        let others = seq![Seq::<char>::empty()] + (spread(rest) + tail);
        lemma_chunks_blank(spread(rest) + tail, f + first.len());
        assert(is_blank(others[0]));
        lemma_chunks_cons(first, parsed[0], others, more + after, f);
        assert(spread(groups) + tail =~= first + others);
        assert(seq![parsed[0]] + (more + after) =~= parsed + after);
    }
}

/// The chunk that an item is read from.
pub open spec fn clth_chunk(c: ClthView) -> ChunkView {
    ChunkView { header: DataHeader::Clth, fields: fields_map(clth_entries(c)) }
}

/// The chunk that an outfit is read from.
pub open spec fn outfit_chunk(o: OutfitView) -> ChunkView {
    ChunkView { header: DataHeader::Outfit, fields: fields_map(outfit_entries(o)) }
}

/// The chunks that the items are read from.
pub open spec fn clth_chunks(items: Seq<ClthView>) -> Seq<ChunkView> {
    Seq::new(items.len(), |i: int| clth_chunk(items[i]))
}

/// The chunks that the outfits are read from.
pub open spec fn outfit_chunks(outfits: Seq<OutfitView>) -> Seq<ChunkView> {
    Seq::new(outfits.len(), |i: int| outfit_chunk(outfits[i]))
}

/// Whether the ids of the three items of an outfit are numbers of 31 bits.
pub open spec fn has_small_ids(o: OutfitView) -> bool {
    o.chest <= i32::MAX && o.leg <= i32::MAX && o.foot <= i32::MAX
}

/// The texts of chunks, joined by empty lines.
pub open spec fn group_text(groups: Seq<Seq<Seq<char>>>) -> Seq<char> {
    joined(Seq::new(groups.len(), |i: int| joined(groups[i], "\n"@)), "\n\n"@)
}

/// The lines of the text of two lists of chunks with an empty line between
/// them.
pub open spec fn data_lines(first: Seq<Seq<Seq<char>>>, second: Seq<Seq<Seq<char>>>) -> Seq<
    Seq<char>,
> {
    if second.len() == 0 {
        lines_of_groups(first) + seq![Seq::<char>::empty()]
    } else {
        lines_of_groups(first) + (seq![Seq::<char>::empty()] + spread(second))
    }
}

/// The text of two lists of chunks with an empty line between them has the
/// lines of the chunks.
pub proof fn lemma_data_text(first: Seq<Seq<Seq<char>>>, second: Seq<Seq<Seq<char>>>)
    requires
        forall|i: int| 0 <= i < first.len() ==> is_group(#[trigger] first[i]),
        forall|i: int| 0 <= i < second.len() ==> is_group(#[trigger] second[i]),
    ensures
        text_lines(group_text(first) + "\n\n"@ + group_text(second)) == data_lines(first, second),
{
    reveal_strlit("\n");
    reveal_strlit("\n\n");
    let blank = Seq::<char>::empty();
    lemma_joined_groups(first);
    lemma_joined_groups(second);
    let li = lines_of_groups(first);
    let lo = lines_of_groups(second);
    if first.len() > 0 {
        lemma_spread(first);
    }
    if second.len() > 0 {
        lemma_spread(second);
    }
    let all = li + (seq![blank] + lo);
    lemma_joined_concat(seq![blank], lo, "\n"@);
    lemma_joined_concat(li, seq![blank] + lo, "\n"@);
    assert(joined(seq![blank], "\n"@) == blank);
    assert("\n\n"@ =~= "\n"@ + "\n"@);
    let text = group_text(first) + "\n\n"@ + group_text(second);
    assert(text =~= joined(all, "\n"@));
    assert forall|k: int| 0 <= k < all.len() implies is_line(#[trigger] all[k]) by {
        if k < li.len() {
            assert(all[k] == li[k]);
        } else if k == li.len() {
            assert(all[k] == blank);
        } else {
            assert(all[k] == lo[k - li.len() - 1]);
        }
    }
    lemma_lines_of_joined(all);
    assert(all.last() == lo.last());
    if second.len() == 0 {
        assert(all.drop_last() =~= li + seq![blank]);
    } else {
        let last = second.last();
        assert(is_group(last));
        assert(!is_blank(last.last()));
        assert(lo.last().len() > 0);
    }
}

/// No lines give no chunks, and so does one empty line.
pub proof fn lemma_chunks_none(f: int)
    ensures
        chunks_of(Seq::<Seq<char>>::empty(), f) == Ok::<Seq<ChunkView>, ParseErrorView>(
            Seq::<ChunkView>::empty(),
        ),
        chunks_of(seq![Seq::<char>::empty()], f) == Ok::<Seq<ChunkView>, ParseErrorView>(
            Seq::<ChunkView>::empty(),
        ),
{
    let one = seq![Seq::<char>::empty()];
    assert(is_blank(one[0]));
    assert(one.drop_first() =~= Seq::<Seq<char>>::empty());
    assert(chunks_of(Seq::<Seq<char>>::empty(), f + 1) == Ok::<Seq<ChunkView>, ParseErrorView>(
        Seq::<ChunkView>::empty(),
    ));
}

/// An empty line in front of lines changes nothing in the chunks they give.
pub proof fn lemma_chunks_blank(lines: Seq<Seq<char>>, f: int)
    ensures
        chunks_of(seq![Seq::<char>::empty()] + lines, f) == chunks_of(lines, f + 1),
{
    let all = seq![Seq::<char>::empty()] + lines;
    assert(is_blank(all[0]));
    assert(all.drop_first() =~= lines);
}

/// The lines of chunks that each read well give those chunks.
pub proof fn lemma_chunks_all(groups: Seq<Seq<Seq<char>>>, parsed: Seq<ChunkView>, f: int)
    requires
        groups.len() == parsed.len(),
        forall|i: int| 0 <= i < groups.len() ==> is_group(#[trigger] groups[i]),
        forall|i: int|
            0 <= i < groups.len() ==> chunk_of(chunk_text(#[trigger] groups[i])) == Ok::<
                ChunkView,
                Seq<char>,
            >(parsed[i]),
    ensures
        chunks_of(spread(groups), f) == Ok::<Seq<ChunkView>, ParseErrorView>(parsed),
{
    let no_lines = Seq::<Seq<char>>::empty();
    let none = Seq::<ChunkView>::empty();
    lemma_chunks_none(0);
    if groups.len() == 0 {
        lemma_chunks_none(f);
        assert(parsed =~= none);
    } else {
        lemma_chunks_spread(groups, parsed, no_lines, none, f);
        assert(spread(groups) + no_lines =~= spread(groups));
        assert(parsed + none =~= parsed);
    }
}

/// The lines of two lists of chunks that each read well give the chunks of
/// the first list and then those of the second.
pub proof fn lemma_data_chunks(
    first: Seq<Seq<Seq<char>>>,
    read_first: Seq<ChunkView>,
    second: Seq<Seq<Seq<char>>>,
    read_second: Seq<ChunkView>,
)
    requires
        first.len() == read_first.len(),
        second.len() == read_second.len(),
        forall|i: int| 0 <= i < first.len() ==> is_group(#[trigger] first[i]),
        forall|i: int| 0 <= i < second.len() ==> is_group(#[trigger] second[i]),
        forall|i: int|
            0 <= i < first.len() ==> chunk_of(chunk_text(#[trigger] first[i])) == Ok::<
                ChunkView,
                Seq<char>,
            >(read_first[i]),
        forall|i: int|
            0 <= i < second.len() ==> chunk_of(chunk_text(#[trigger] second[i])) == Ok::<
                ChunkView,
                Seq<char>,
            >(read_second[i]),
    ensures
        chunks_of(data_lines(first, second), 1) == Ok::<Seq<ChunkView>, ParseErrorView>(
            read_first + read_second,
        ),
{
    let blank = Seq::<char>::empty();
    let one = seq![blank];
    // What follows the lines of the first list: an empty line, and the lines
    // of the second list.
    let tail = if second.len() == 0 {
        one
    } else {
        one + spread(second)
    };
    lemma_chunks_none(0);
    lemma_chunks_none(1);
    lemma_chunks_all(second, read_second, 1);
    lemma_chunks_blank(spread(second), 0);
    assert(chunks_of(tail, 0) == Ok::<Seq<ChunkView>, ParseErrorView>(read_second)) by {
        if second.len() == 0 {
            assert(read_second =~= Seq::<ChunkView>::empty());
        }
    }
    assert(is_blank(tail[0]));
    if first.len() == 0 {
        assert(data_lines(first, second) =~= one + tail);
        lemma_chunks_blank(tail, 1);
        lemma_chunks_first(tail, 0, 2);
        assert(read_first + read_second =~= read_second);
    } else {
        assert(data_lines(first, second) =~= spread(first) + tail);
        lemma_chunks_spread(first, read_first, tail, read_second, 1);
    }
}

/// The text that stores a closet reads as the chunks of its items and then
/// those of its outfits.
pub proof fn lemma_file_chunks(items: Seq<ClthView>, outfits: Seq<OutfitView>)
    requires
        forall|i: int| 0 <= i < items.len() ==> is_storable(#[trigger] items[i]),
        forall|j: int| 0 <= j < outfits.len() ==> has_small_ids(#[trigger] outfits[j]),
    ensures
        file_chunks(crate::data_toml(items, outfits)) == Ok::<Seq<ChunkView>, ParseErrorView>(
            clth_chunks(items) + outfit_chunks(outfits),
        ),
{
    let gi = Seq::new(items.len(), |i: int| clth_lines(items[i]));
    let go = Seq::new(outfits.len(), |j: int| outfit_lines(outfits[j]));
    let pi = clth_chunks(items);
    let po = outfit_chunks(outfits);
    assert forall|i: int| 0 <= i < gi.len() implies is_group(#[trigger] gi[i]) && chunk_of(
        chunk_text(gi[i]),
    ) == Ok::<ChunkView, Seq<char>>(pi[i]) by {
        lemma_clth_chunk(items[i]);
    }
    assert forall|j: int| 0 <= j < go.len() implies is_group(#[trigger] go[j]) && chunk_of(
        chunk_text(go[j]),
    ) == Ok::<ChunkView, Seq<char>>(po[j]) by {
        lemma_outfit_chunk(outfits[j]);
    }
    assert(Seq::new(items.len(), |i: int| clth_toml(items[i])) =~= Seq::new(
        gi.len(),
        |i: int| joined(gi[i], "\n"@),
    ));
    assert(Seq::new(outfits.len(), |j: int| outfit_toml(outfits[j])) =~= Seq::new(
        go.len(),
        |j: int| joined(go[j], "\n"@),
    ));
    assert(clothes_toml(items) == group_text(gi));
    assert(outfits_toml(outfits) == group_text(go));
    lemma_data_text(gi, go);
    lemma_data_chunks(gi, pi, go, po);
}

// ---------------------------------------------------------------------------
// The closet
// ---------------------------------------------------------------------------

/// The names of the styles of the items, each once, in the order in which
/// they come first.
pub open spec fn styles_of(items: Seq<ClthView>) -> Seq<Seq<char>>
    decreases items.len(),
{
    if items.len() == 0 {
        Seq::empty()
    } else {
        with_name(styles_of(items.drop_last()), items.last().style)
    }
}

/// The outfits with the ids that they get when they are read: the first one
/// 0, the second one 1, and so on.
pub open spec fn renumbered(outfits: Seq<OutfitView>) -> Seq<OutfitView> {
    Seq::new(
        outfits.len(),
        |j: int| outfit(j as u32, outfits[j].chest, outfits[j].leg, outfits[j].foot),
    )
}

/// Whether a closet can be stored: its items can be, no id of an item and no
/// id of an outfit comes twice, no two outfits are made of the same three
/// items, and the three items of each outfit may make an outfit.
pub open spec fn is_storable_closet(items: Seq<ClthView>, outfits: Seq<OutfitView>) -> bool {
    &&& items_ok(items)
    &&& outfits_ok(outfits)
    &&& forall|i: int| 0 <= i < items.len() ==> is_storable(#[trigger] items[i])
    &&& forall|j: int|
        0 <= j < outfits.len() ==> outfit_check(
            items,
            (#[trigger] outfits[j]).chest,
            outfits[j].leg,
            outfits[j].foot,
        ) is Ok
}

/// Among the chunks of the items and of the outfits, those with the header of
/// the items are the chunks of the items, and those with the header of the
/// outfits are the chunks of the outfits.
pub proof fn lemma_headers(items: Seq<ClthView>, outfits: Seq<OutfitView>)
    ensures
        with_header(clth_chunks(items) + outfit_chunks(outfits), DataHeader::Clth) == clth_chunks(
            items,
        ),
        with_header(clth_chunks(items) + outfit_chunks(outfits), DataHeader::Outfit)
            == outfit_chunks(outfits),
{
    let a = clth_chunks(items);
    let b = outfit_chunks(outfits);
    let is_clth = |c: ChunkView| c.header == DataHeader::Clth;
    let is_outfit = |c: ChunkView| c.header == DataHeader::Outfit;
    Seq::filter_distributes_over_add(a, b, is_clth);
    Seq::filter_distributes_over_add(a, b, is_outfit);
    lemma_filter_all(a, is_clth);
    lemma_filter_all(b, is_outfit);
    a.lemma_all_neg_filter_empty(is_outfit);
    b.lemma_all_neg_filter_empty(is_clth);
    assert(a + Seq::<ChunkView>::empty() =~= a);
    assert(Seq::<ChunkView>::empty() + b =~= b);
}

/// The chunks of items that can stand in a registry give the items back.
pub proof fn lemma_clths_read(items: Seq<ClthView>)
    requires
        items_ok(items),
        forall|i: int| 0 <= i < items.len() ==> is_storable(#[trigger] items[i]),
    ensures
        clths_of(clth_chunks(items)) == Ok::<(Seq<ClthView>, Seq<Seq<char>>), ClosetError>(
            (items, styles_of(items)),
        ),
    decreases items.len(),
{
    let chunks = clth_chunks(items);
    if items.len() == 0 {
        assert(items =~= Seq::<ClthView>::empty());
    } else {
        let init = items.drop_last();
        let last = items.last();
        assert(item_ids(init) =~= item_ids(items).drop_last());
        assert forall|i: int| 0 <= i < init.len() implies is_storable(#[trigger] init[i]) by {
            assert(init[i] == items[i]);
        }
        lemma_clths_read(init);
        assert(chunks.drop_last() =~= clth_chunks(init));
        assert(chunks.last() == clth_chunk(last));
        assert(is_storable(last));
        lemma_clth_record(last);
        if has_id(init, last.id) {
            let k = choose|k: int| 0 <= k < item_ids(init).len() && item_ids(init)[k] == last.id;
            assert(item_ids(items)[k] == item_ids(items)[items.len() - 1]);
        }
        assert(init.push(last) =~= items);
        assert(added(init, last) == Ok::<Seq<ClthView>, ClosetError>(items));
    }
}

/// An id of an item that can be stored is a number of 31 bits.
pub proof fn lemma_small_id(items: Seq<ClthView>, id: u32)
    requires
        has_id(items, id),
        forall|i: int| 0 <= i < items.len() ==> is_storable(#[trigger] items[i]),
    ensures
        id <= i32::MAX,
{
    let k = choose|k: int| 0 <= k < item_ids(items).len() && item_ids(items)[k] == id;
    assert(is_storable(items[k]));
}

/// The keys and values of an outfit give the ids of its three items back.
pub proof fn lemma_outfit_record(o: OutfitView, items: Seq<ClthView>)
    requires
        has_id(items, o.chest),
        has_id(items, o.leg),
        has_id(items, o.foot),
        has_small_ids(o),
    ensures
        slots_of(fields_map(outfit_entries(o)), items) == Ok::<(u32, u32, u32), ClosetError>(
            (o.chest, o.leg, o.foot),
        ),
{
    lemma_field_names();
    let entries = outfit_entries(o);
    let fields = fields_map(entries);
    lemma_entry(entries, 0);
    lemma_entry(entries, 1);
    lemma_entry(entries, 2);
    assert(number_field(fields, Field::Chest) == Ok::<i32, ClosetError>(o.chest as i32));
    assert(number_field(fields, Field::Leg) == Ok::<i32, ClosetError>(o.leg as i32));
    assert(number_field(fields, Field::Foot) == Ok::<i32, ClosetError>(o.foot as i32));
    assert(as_id(o.chest as i32) == o.chest);
    assert(as_id(o.leg as i32) == o.leg);
    assert(as_id(o.foot as i32) == o.foot);
}

/// The chunks of outfits that can be stored give the outfits back, with the
/// ids that they get when they are read.
pub proof fn lemma_outfits_read(items: Seq<ClthView>, outfits: Seq<OutfitView>)
    requires
        is_storable_closet(items, outfits),
    ensures
        outfits_of(outfit_chunks(outfits), items) == Ok::<Seq<OutfitView>, ClosetError>(
            renumbered(outfits),
        ),
    decreases outfits.len(),
{
    let chunks = outfit_chunks(outfits);
    if outfits.len() == 0 {
        assert(renumbered(outfits) =~= Seq::<OutfitView>::empty());
    } else {
        let init = outfits.drop_last();
        let last = outfits.last();
        let n = init.len();
        assert forall|i: int, j: int| 0 <= i < j < init.len() implies apart(init[i], init[j]) by {
            assert(init[i] == outfits[i] && init[j] == outfits[j]);
        }
        assert forall|j: int| 0 <= j < init.len() implies outfit_check(
            items,
            (#[trigger] init[j]).chest,
            init[j].leg,
            init[j].foot,
        ) is Ok by {
            assert(init[j] == outfits[j]);
        }
        lemma_outfits_read(items, init);
        assert(chunks.drop_last() =~= outfit_chunks(init));
        assert(chunks.last() == outfit_chunk(last));
        let read = renumbered(init);
        assert(outfit_check(items, last.chest, last.leg, last.foot) is Ok);
        lemma_small_id(items, last.chest);
        lemma_small_id(items, last.leg);
        lemma_small_id(items, last.foot);
        lemma_outfit_record(last, items);
        // The ids in use are the numbers below `n`.
        let ids = outfit_ids(read);
        let next = n as u32;
        assert forall|k: u32| k < next implies ids.contains(k) by {
            assert(ids[k as int] == k);
        }
        if ids.contains(next) {
            let k = choose|k: int| 0 <= k < ids.len() && ids[k] == next;
            assert(ids[k] == k);
        }
        assert(is_smallest_free(ids, next));
        lemma_smallest_free(ids, next);
        let made = outfit(next, last.chest, last.leg, last.foot);
        if has_triple(read, triple(made)) {
            let k = choose|k: int| 0 <= k < read.len() && triple(#[trigger] read[k]) == triple(made);
            assert(triple(read[k]) =~= triple(init[k]));
            assert(triple(made) =~= triple(last));
            assert(apart(outfits[k], outfits[n as int]));
        }
        assert(read.push(made) =~= renumbered(outfits));
        assert(outfit_added(read, made) == Ok::<Seq<OutfitView>, ClosetError>(
            renumbered(outfits),
        ));
        assert(with_outfit_of(chunks.last().fields, items, read) == Ok::<
            Seq<OutfitView>,
            ClosetError,
        >(renumbered(outfits)));
    }
}

/// The ids of the items of the outfits of a closet that can be stored are
/// numbers of 31 bits.
pub proof fn lemma_small_ids(items: Seq<ClthView>, outfits: Seq<OutfitView>)
    requires
        is_storable_closet(items, outfits),
    ensures
        forall|j: int| 0 <= j < outfits.len() ==> has_small_ids(#[trigger] outfits[j]),
{
    assert forall|j: int| 0 <= j < outfits.len() implies has_small_ids(#[trigger] outfits[j]) by {
        let o = outfits[j];
        assert(outfit_check(items, o.chest, o.leg, o.foot) is Ok);
        lemma_small_id(items, o.chest);
        lemma_small_id(items, o.leg);
        lemma_small_id(items, o.foot);
    }
}

/// The chunks of the items and of the outfits of a closet that can be stored
/// give the closet back.
pub proof fn lemma_data_read(items: Seq<ClthView>, outfits: Seq<OutfitView>)
    requires
        is_storable_closet(items, outfits),
    ensures
        data_of(clth_chunks(items), outfit_chunks(outfits)) == Ok::<
            (Seq<ClthView>, Seq<Seq<char>>, Seq<OutfitView>),
            ClosetError,
        >((items, styles_of(items), renumbered(outfits))),
{
    lemma_clths_read(items);
    lemma_outfits_read(items, outfits);
}

/// A closet that can be stored reads back from its text as it is: the same
/// items, and the outfits of the same items in the same order. The outfits
/// get their ids anew, in the order of the text.
pub proof fn stored_closet_reads_back(items: Seq<ClthView>, outfits: Seq<OutfitView>)
    requires
        is_storable_closet(items, outfits),
    ensures
        file_chunks(crate::data_toml(items, outfits)) is Ok,
        data_of(
            with_header(file_chunks(crate::data_toml(items, outfits))->Ok_0, DataHeader::Clth),
            with_header(file_chunks(crate::data_toml(items, outfits))->Ok_0, DataHeader::Outfit),
        ) == Ok::<(Seq<ClthView>, Seq<Seq<char>>, Seq<OutfitView>), ClosetError>(
            (items, styles_of(items), renumbered(outfits)),
        ),
{
    lemma_small_ids(items, outfits);
    lemma_file_chunks(items, outfits);
    lemma_headers(items, outfits);
    lemma_data_read(items, outfits);
}

} // verus!
