//! The stored format: a text of chunks, one for each item and each outfit.
//!
//! Chunks are runs of lines with blank lines between them. The first line of
//! a chunk is its header, `[clth]` or `[outfit]`; each other line gives a
//! field, `key = value`, where the value is a text between double quotes or a
//! whole number.

use crate::closet::{
    added, has_id, outfit, outfit_added, outfit_check, outfit_ids, with_name, Clothes, Clth,
    ClthView, Kind, Outfit, OutfitView, Outfits, Rgb, Sex, Size, Styles, Target,
};
use crate::date::{date_of_text, Date, Ymd};
use crate::error::{field_name, ClosetError, Field};
use crate::ids::{lemma_filter_step, lemma_smallest_free, smallest_free};
use crate::text::{
    append, append_str, blank, chars_of, decimal_of, decimal_text, find, framed, i32_literal,
    is_blank, is_text, lines_of, lowercase_of, parse_i32, position, slice, string_of,
    text_lines, trim, trimmed, views,
};
use vstd::prelude::*;

verus! {

// ---------------------------------------------------------------------------
// Chunks
// ---------------------------------------------------------------------------

/// A failure to read the stored text, with the number of the line where the
/// chunk that holds it begins. The first line has the number 1.
#[derive(Debug)]
pub struct ParseError {
    pub line: usize,
    pub msg: String,
}

/// What a failure to read holds.
pub struct ParseErrorView {
    pub line: int,
    pub msg: Seq<char>,
}

impl View for ParseError {
    type V = ParseErrorView;

    open spec fn view(&self) -> ParseErrorView {
        ParseErrorView { line: self.line as int, msg: self.msg@ }
    }
}

/// The sentence that reports a failure to read.
pub open spec fn parse_error_text(e: ParseErrorView) -> Seq<char> {
    "Error on line "@ + decimal_text(e.line as nat) + ": "@ + e.msg
}

impl ParseError {
    pub fn new(line: usize, msg: String) -> (e: ParseError)
        ensures
            e@ == (ParseErrorView { line: line as int, msg: msg@ }),
    {
        ParseError { line, msg }
    }

    /// Writes the sentence that reports the failure.
    pub fn to_string(&self) -> (r: String)
        ensures
            r@ == parse_error_text(self@),
    {
        let mut v = chars_of("Error on line ");
        append(&mut v, &decimal_of(self.line as u64));
        append_str(&mut v, ": ");
        append_str(&mut v, self.msg.as_str());
        string_of(&v)
    }
}

/// What a chunk describes.
#[derive(Debug, Clone, Copy, PartialEq, Eq, Structural)]
pub enum DataHeader {
    Clth,
    Outfit,
}

/// The value of a field.
#[derive(Debug)]
pub enum Value {
    Text(String),
    Num(i32),
}

/// What a value holds.
pub enum ValueView {
    Text(Seq<char>),
    Num(i32),
}

impl View for Value {
    type V = ValueView;

    open spec fn view(&self) -> ValueView {
        match self {
            Value::Text(t) => ValueView::Text(t@),
            Value::Num(n) => ValueView::Num(*n),
        }
    }
}

/// The fields that a list of keys and values gives: a key that comes again
/// takes the later value.
pub open spec fn fields_map(entries: Seq<(Seq<char>, ValueView)>) -> Map<Seq<char>, ValueView>
    decreases entries.len(),
{
    if entries.len() == 0 {
        Map::empty()
    } else {
        fields_map(entries.drop_last()).insert(entries.last().0, entries.last().1)
    }
}

/// Looking a key up from the end of the list finds what the fields hold.
pub proof fn lemma_fields_map(entries: Seq<(Seq<char>, ValueView)>, key: Seq<char>, n: int)
    requires
        0 <= n <= entries.len(),
        forall|k: int| n <= k < entries.len() ==> entries[k].0 != key,
    ensures
        fields_map(entries).contains_key(key) == fields_map(entries.take(n)).contains_key(key),
        fields_map(entries).contains_key(key) ==> fields_map(entries)[key] == fields_map(
            entries.take(n),
        )[key],
        n > 0 && entries[n - 1].0 == key ==> fields_map(entries).contains_key(key) && fields_map(
            entries,
        )[key] == entries[n - 1].1,
        n == 0 ==> !fields_map(entries).contains_key(key),
    decreases entries.len() - n,
{
    if n == entries.len() {
        assert(entries.take(n) =~= entries);
    } else {
        lemma_fields_map(entries.drop_last(), key, n);
        assert(entries.drop_last().take(n) =~= entries.take(n));
        if n > 0 {
            assert(entries.drop_last()[n - 1] == entries[n - 1]);
        }
    }
    if n > 0 && entries[n - 1].0 == key {
        assert(entries.take(n).drop_last() =~= entries.take(n - 1));
        assert(entries.take(n).last() == entries[n - 1]);
    }
    if n == 0 {
        assert(entries.take(0) =~= Seq::<(Seq<char>, ValueView)>::empty());
    }
}

/// The fields of a chunk, by their keys.
#[derive(Debug)]
pub struct Fields {
    list: Vec<(String, Value)>,
}

impl View for Fields {
    type V = Map<Seq<char>, ValueView>;

    closed spec fn view(&self) -> Map<Seq<char>, ValueView> {
        fields_map(self.entries())
    }
}

impl Fields {
    /// The keys and values in the order in which they were put in.
    pub closed spec fn entries(&self) -> Seq<(Seq<char>, ValueView)> {
        Seq::new(self.list@.len(), |i: int| (self.list@[i].0@, self.list@[i].1@))
    }

    /// The fields are those that the list of keys and values gives.
    pub proof fn lemma_view(&self)
        ensures
            self@ == fields_map(self.entries()),
    {
    }

    pub fn new() -> (f: Fields)
        ensures
            f.entries() == Seq::<(Seq<char>, ValueView)>::empty(),
            f@ == Map::<Seq<char>, ValueView>::empty(),
    {
        let f = Fields { list: Vec::new() };
        assert(f.entries() =~= Seq::<(Seq<char>, ValueView)>::empty());
        f
    }

    /// Gives the key this value, in place of the one it had.
    pub fn insert(&mut self, key: String, value: Value)
        ensures
            final(self).entries() == old(self).entries().push((key@, value@)),
            final(self)@ == old(self)@.insert(key@, value@),
    {
        let ghost before = self.entries();
        self.list.push((key, value));
        proof {
            assert(self.entries() =~= before.push((key@, value@)));
            assert(self.entries().drop_last() =~= before);
        }
    }

    /// The value of the key.
    pub fn get(&self, key: &str) -> (r: Option<&Value>)
        ensures
            r is Some <==> self@.contains_key(key@),
            r is Some ==> r->0@ == self@[key@],
    {
        let k = chars_of(key);
        let mut i: usize = self.list.len();
        while i > 0
            invariant
                i <= self.list.len(),
                k@ == key@,
                forall|j: int| i <= j < self.list.len() ==> self.entries()[j].0 != key@,
            decreases i,
        {
            let name = chars_of(self.list[i - 1].0.as_str());
            if crate::text::same(&name, &k) {
                proof {
                    assert(self.entries()[i - 1].0 == key@);
                    lemma_fields_map(self.entries(), key@, i as int);
                }
                return Some(&self.list[i - 1].1);
            }
            i -= 1;
        }
        proof {
            lemma_fields_map(self.entries(), key@, 0);
        }
        None
    }
}

/// A chunk: its header and its fields.
#[derive(Debug)]
pub struct DataChunk {
    pub header: DataHeader,
    pub fields: Fields,
}

/// What a chunk holds.
pub struct ChunkView {
    pub header: DataHeader,
    pub fields: Map<Seq<char>, ValueView>,
}

impl View for DataChunk {
    type V = ChunkView;

    open spec fn view(&self) -> ChunkView {
        ChunkView { header: self.header, fields: self.fields@ }
    }
}

// ---------------------------------------------------------------------------
// Reading one chunk
// ---------------------------------------------------------------------------

/// The header that a line names, once trimmed.
pub open spec fn header_of(s: Seq<char>) -> Option<DataHeader> {
    if s == "[clth]"@ {
        Some(DataHeader::Clth)
    } else if s == "[outfit]"@ {
        Some(DataHeader::Outfit)
    } else {
        None
    }
}

/// The report on a first line that names no header.
pub open spec fn invalid_header_msg(header: Seq<char>) -> Seq<char> {
    "'"@ + header + "' is a invalid header."@
}

/// The report on a line that gives no field, or on a value that is neither a
/// text nor a number.
pub open spec fn syntax_msg(what: Seq<char>) -> Seq<char> {
    "Syntax error: '"@ + what + "'"@
}

/// The value that a trimmed text denotes: what stands between a first and a
/// last double quote, taken as it is; else the number of a signed decimal
/// literal of 32 bits.
pub open spec fn value_of(v: Seq<char>) -> Option<ValueView> {
    if v.len() >= 2 && v[0] == '"' && v.last() == '"' {
        Some(ValueView::Text(v.subrange(1, v.len() - 1)))
    } else {
        match i32_literal(v) {
            Some(n) => Some(ValueView::Num(n)),
            None => None,
        }
    }
}

/// The field that a line gives: the key in front of the first `=` and the
/// value behind it, both trimmed. Else the report on the line.
pub open spec fn field_of(line: Seq<char>) -> Result<(Seq<char>, ValueView), Seq<char>> {
    let i = find(line, '=');
    if i >= line.len() {
        Err(syntax_msg(line))
    } else {
        let value = trim(line.skip(i + 1));
        match value_of(value) {
            Some(v) => Ok((trim(line.take(i)), v)),
            None => Err(syntax_msg(value)),
        }
    }
}

/// The fields that the lines give, in their order, or the report on the
/// first line that gives none.
pub open spec fn fields_of(lines: Seq<Seq<char>>) -> Result<
    Seq<(Seq<char>, ValueView)>,
    Seq<char>,
>
    decreases lines.len(),
{
    if lines.len() == 0 {
        Ok(Seq::empty())
    } else {
        match fields_of(lines.drop_last()) {
            Err(msg) => Err(msg),
            Ok(entries) => match field_of(lines.last()) {
                Err(msg) => Err(msg),
                Ok(entry) => Ok(entries.push(entry)),
            },
        }
    }
}

/// The first line of a chunk, trimmed; empty where the chunk has no line.
pub open spec fn head_line(lines: Seq<Seq<char>>) -> Seq<char> {
    if lines.len() > 0 {
        trim(lines[0])
    } else {
        Seq::empty()
    }
}

/// The chunk that a text holds, or the report on what is wrong with it.
pub open spec fn chunk_of(text: Seq<char>) -> Result<ChunkView, Seq<char>> {
    let lines = text_lines(text);
    match header_of(head_line(lines)) {
        None => Err(invalid_header_msg(head_line(lines))),
        Some(header) => match fields_of(lines.skip(1)) {
            Err(msg) => Err(msg),
            Ok(entries) => Ok(ChunkView { header, fields: fields_map(entries) }),
        },
    }
}

/// Reads the field that a line gives.
fn parse_field(line: &Vec<char>) -> (r: Result<(String, Value), String>)
    ensures
        match r {
            Ok((key, value)) => field_of(line@) == Ok::<(Seq<char>, ValueView), Seq<char>>(
                (key@, value@),
            ),
            Err(msg) => field_of(line@) == Err::<(Seq<char>, ValueView), Seq<char>>(msg@),
        },
{
    let i = position(line, 0, '=');
    assert(line@.skip(0) =~= line@);
    if i >= line.len() {
        return Err(framed("Syntax error: '", line, "'"));
    }
    let key = trimmed(&slice(line, 0, i));
    let value = trimmed(&slice(line, i + 1, line.len()));
    assert(line@.subrange(0, i as int) =~= line@.take(i as int));
    assert(line@.subrange(i + 1, line.len() as int) =~= line@.skip(i + 1));
    let n = value.len();
    if n >= 2 && value[0] == '"' && value[n - 1] == '"' {
        Ok((string_of(&key), Value::Text(string_of(&slice(&value, 1, n - 1)))))
    } else {
        match parse_i32(&value) {
            Some(x) => Ok((string_of(&key), Value::Num(x))),
            None => Err(framed("Syntax error: '", &value, "'")),
        }
    }
}

/// Reads the chunk that the characters hold.
fn parse_chars(v: &Vec<char>) -> (r: Result<DataChunk, String>)
    ensures
        match r {
            Ok(chunk) => chunk_of(v@) == Ok::<ChunkView, Seq<char>>(chunk@),
            Err(msg) => chunk_of(v@) == Err::<ChunkView, Seq<char>>(msg@),
        },
{
    let lines = lines_of(v);
    let ghost all = views(lines@);
    let head: Vec<char> = if lines.len() > 0 {
        trimmed(&lines[0])
    } else {
        Vec::new()
    };
    assert(head@ == head_line(all));
    let header = if is_text(&head, "[clth]") {
        DataHeader::Clth
    } else if is_text(&head, "[outfit]") {
        DataHeader::Outfit
    } else {
        return Err(framed("'", &head, "' is a invalid header."));
    };
    assert(lines.len() > 0) by {
        reveal_strlit("[clth]");
        reveal_strlit("[outfit]");
    }
    let mut fields = Fields::new();
    let mut i: usize = 1;
    proof {
        assert(all.subrange(1, 1) =~= Seq::<Seq<char>>::empty());
    }
    while i < lines.len()
        invariant
            1 <= i <= lines.len(),
            all == views(lines@),
            all == text_lines(v@),
            header_of(head_line(all)) == Some(header),
            fields_of(all.subrange(1, i as int)) == Ok::<Seq<(Seq<char>, ValueView)>, Seq<char>>(
                fields.entries(),
            ),
        decreases lines.len() - i,
    {
        proof {
            let next = all.subrange(1, i + 1);
            assert(next.drop_last() =~= all.subrange(1, i as int));
            assert(next.last() == lines@[i as int]@);
            lemma_fields_stop(all.skip(1), i as int);
            assert(all.skip(1).take(i as int) =~= next);
        }
        match parse_field(&lines[i]) {
            Ok((key, value)) => {
                fields.insert(key, value);
            },
            Err(msg) => {
                return Err(msg);
            },
        }
        i += 1;
    }
    proof {
        assert(all.subrange(1, i as int) =~= all.skip(1));
        fields.lemma_view();
    }
    Ok(DataChunk { header, fields })
}

/// A report on some of the first lines is the report on all the lines.
pub proof fn lemma_fields_stop(lines: Seq<Seq<char>>, n: int)
    requires
        0 <= n <= lines.len(),
    ensures
        fields_of(lines.take(n)) is Err ==> fields_of(lines) == fields_of(lines.take(n)),
    decreases lines.len() - n,
{
    if n == lines.len() {
        assert(lines.take(n) =~= lines);
    } else {
        lemma_fields_stop(lines.drop_last(), n);
        assert(lines.drop_last().take(n) =~= lines.take(n));
    }
}

/// Reads one chunk: a header line and the lines of its fields.
pub fn parse(chunk: &str) -> (r: Result<DataChunk, String>)
    ensures
        match r {
            Ok(c) => chunk_of(chunk@) == Ok::<ChunkView, Seq<char>>(c@),
            Err(msg) => chunk_of(chunk@) == Err::<ChunkView, Seq<char>>(msg@),
        },
{
    let v = chars_of(chunk);
    parse_chars(&v)
}

// ---------------------------------------------------------------------------
// Reading a whole text
// ---------------------------------------------------------------------------

/// The number of lines at the beginning that are not blank.
pub open spec fn run_len(lines: Seq<Seq<char>>) -> int
    decreases lines.len(),
{
    if lines.len() == 0 || is_blank(lines[0]) {
        0
    } else {
        1 + run_len(lines.drop_first())
    }
}

/// The text of a chunk: its lines, each with a line feed behind it.
pub open spec fn chunk_text(lines: Seq<Seq<char>>) -> Seq<char>
    decreases lines.len(),
{
    if lines.len() == 0 {
        Seq::empty()
    } else {
        chunk_text(lines.drop_last()) + lines.last() + seq!['\n']
    }
}

/// The run of lines that are not blank is made of such lines and ends at a
/// blank line or at the end.
pub proof fn lemma_run_len(lines: Seq<Seq<char>>)
    ensures
        0 <= run_len(lines) <= lines.len(),
        lines.len() > 0 && !is_blank(lines[0]) ==> run_len(lines) >= 1,
        forall|k: int| 0 <= k < run_len(lines) ==> !is_blank(#[trigger] lines[k]),
        run_len(lines) < lines.len() ==> is_blank(lines[run_len(lines)]),
    decreases lines.len(),
{
    if lines.len() == 0 || is_blank(lines[0]) {
    } else {
        let rest = lines.drop_first();
        lemma_run_len(rest);
        assert forall|k: int| 0 <= k < run_len(lines) implies !is_blank(#[trigger] lines[k]) by {
            if k > 0 {
                assert(lines[k] == rest[k - 1]);
            }
        }
        if run_len(lines) < lines.len() {
            assert(lines[run_len(lines)] == rest[run_len(rest)]);
        }
    }
}

/// The run of lines that are not blank ends at the first blank line.
pub proof fn lemma_run_len_is(lines: Seq<Seq<char>>, n: int)
    requires
        0 <= n <= lines.len(),
        forall|k: int| 0 <= k < n ==> !is_blank(#[trigger] lines[k]),
        n < lines.len() ==> is_blank(lines[n]),
    ensures
        run_len(lines) == n,
{
    lemma_run_len(lines);
    let m = run_len(lines);
    if m < n {
        assert(!is_blank(lines[m]));
    } else if n < m {
        assert(!is_blank(lines[n]));
    }
}

/// The chunks of a text, given by its lines, where `first` is the number of
/// the first of them. Blank lines part the chunks. Reading stops at the first
/// chunk that is wrong: the failure holds the number of the line where that
/// chunk begins.
pub open spec fn chunks_of(lines: Seq<Seq<char>>, first: int) -> Result<
    Seq<ChunkView>,
    ParseErrorView,
>
    decreases lines.len(),
{
    if lines.len() == 0 {
        Ok(Seq::empty())
    } else if is_blank(lines[0]) {
        chunks_of(lines.drop_first(), first + 1)
    } else {
        let n = run_len(lines);
        proof {
            lemma_run_len(lines);
        }
        match chunk_of(chunk_text(lines.take(n))) {
            Err(msg) => Err(ParseErrorView { line: first, msg }),
            Ok(chunk) => match chunks_of(lines.skip(n), first + n) {
                Err(e) => Err(e),
                Ok(rest) => Ok(seq![chunk] + rest),
            },
        }
    }
}

/// The chunks of a text.
pub open spec fn file_chunks(text: Seq<char>) -> Result<Seq<ChunkView>, ParseErrorView> {
    chunks_of(text_lines(text), 1)
}

/// The chunks read so far, and then what the rest of the text gives.
pub open spec fn and_then(done: Seq<ChunkView>, rest: Result<Seq<ChunkView>, ParseErrorView>)
    -> Result<Seq<ChunkView>, ParseErrorView> {
    match rest {
        Ok(more) => Ok(done + more),
        Err(e) => Err(e),
    }
}

/// What the chunks hold.
pub open spec fn chunk_views(chunks: Seq<DataChunk>) -> Seq<ChunkView> {
    Seq::new(chunks.len(), |i: int| chunks[i]@)
}

/// What the chunks hold after one more was put at the end.
pub proof fn lemma_chunk_views_push(chunks: Seq<DataChunk>, c: DataChunk)
    ensures
        chunk_views(chunks.push(c)) == chunk_views(chunks).push(c@),
{
    assert(chunk_views(chunks.push(c)) =~= chunk_views(chunks).push(c@));
}

/// Reads the chunks of a text, or reports the first one that is wrong.
pub fn into_chunks(text: &str) -> (r: Result<Vec<DataChunk>, ParseError>)
    ensures
        match r {
            Ok(chunks) => file_chunks(text@) == Ok::<Seq<ChunkView>, ParseErrorView>(
                chunk_views(chunks@),
            ),
            Err(e) => file_chunks(text@) == Err::<Seq<ChunkView>, ParseErrorView>(e@),
        },
{
    let v = chars_of(text);
    let lines = lines_of(&v);
    let ghost all = views(lines@);
    let mut chunks: Vec<DataChunk> = Vec::new();
    let mut i: usize = 0;
    proof {
        assert(all.skip(0) =~= all);
        assert(chunk_views(chunks@) =~= Seq::<ChunkView>::empty());
        assert(and_then(chunk_views(chunks@), chunks_of(all, 1)) =~= chunks_of(all, 1)) by {
            match chunks_of(all, 1) {
                Ok(more) => {
                    assert(Seq::<ChunkView>::empty() + more =~= more);
                },
                Err(_) => {},
            }
        }
    }
    while i < lines.len()
        invariant
            i <= lines.len(),
            all == views(lines@),
            all == text_lines(text@),
            and_then(chunk_views(chunks@), chunks_of(all.skip(i as int), i + 1)) == chunks_of(
                all,
                1,
            ),
        decreases lines.len() - i,
    {
        let ghost rest = all.skip(i as int);
        assert(rest[0] == lines@[i as int]@);
        if blank(&lines[i]) {
            assert(rest.drop_first() =~= all.skip(i + 1));
            i += 1;
        } else {
            let mut chunk: Vec<char> = Vec::new();
            let mut j: usize = i;
            proof {
                assert(all.subrange(i as int, j as int) =~= Seq::<Seq<char>>::empty());
            }
            while j < lines.len() && !blank(&lines[j])
                invariant
                    i <= j <= lines.len(),
                    all == views(lines@),
                    chunk@ == chunk_text(all.subrange(i as int, j as int)),
                    forall|k: int| i <= k < j ==> !is_blank(#[trigger] all[k]),
                decreases lines.len() - j,
            {
                proof {
                    let next = all.subrange(i as int, j + 1);
                    assert(next.drop_last() =~= all.subrange(i as int, j as int));
                    assert(next.last() == lines@[j as int]@);
                }
                append(&mut chunk, &lines[j]);
                chunk.push('\n');
                j += 1;
            }
            proof {
                let n = j - i;
                assert forall|k: int| 0 <= k < n implies !is_blank(#[trigger] rest[k]) by {
                    assert(rest[k] == all[i + k]);
                }
                if n < rest.len() {
                    assert(rest[n] == all[j as int]);
                }
                lemma_run_len_is(rest, n);
                assert(rest.take(n) =~= all.subrange(i as int, j as int));
                assert(rest.skip(n) =~= all.skip(j as int));
            }
            match parse_chars(&chunk) {
                Ok(c) => {
                    proof {
                        lemma_chunk_views_push(chunks@, c);
                        match chunks_of(all.skip(j as int), j + 1) {
                            Ok(more) => {
                                assert(chunk_views(chunks@) + (seq![c@] + more) =~= chunk_views(
                                    chunks@,
                                ).push(c@) + more);
                            },
                            Err(_) => {},
                        }
                    }
                    chunks.push(c);
                },
                Err(msg) => {
                    return Err(ParseError::new(i + 1, msg));
                },
            }
            i = j;
        }
    }
    proof {
        assert(all.skip(i as int) =~= Seq::<Seq<char>>::empty());
        assert(chunk_views(chunks@) + Seq::<ChunkView>::empty() =~= chunk_views(chunks@));
    }
    Ok(chunks)
}

/// The chunks of a stored text: those of the items and those of the outfits,
/// each in the order of the text.
#[derive(Debug)]
pub struct FileData {
    pub clth_chunks: Vec<DataChunk>,
    pub outfit_chunks: Vec<DataChunk>,
}

/// The chunks with the given header, in their order.
pub open spec fn with_header(chunks: Seq<ChunkView>, header: DataHeader) -> Seq<ChunkView> {
    chunks.filter(|c: ChunkView| c.header == header)
}

impl FileData {
    pub fn new() -> (f: FileData)
        ensures
            f.clth_chunks@.len() == 0,
            f.outfit_chunks@.len() == 0,
    {
        FileData { clth_chunks: Vec::new(), outfit_chunks: Vec::new() }
    }

    /// Reads a stored text into its chunks, or reports the first chunk that
    /// is wrong.
    pub fn from(text: &str) -> (r: Result<FileData, ParseError>)
        ensures
            match r {
                Ok(f) => file_chunks(text@) is Ok && chunk_views(f.clth_chunks@) == with_header(
                    file_chunks(text@)->Ok_0,
                    DataHeader::Clth,
                ) && chunk_views(f.outfit_chunks@) == with_header(
                    file_chunks(text@)->Ok_0,
                    DataHeader::Outfit,
                ),
                Err(e) => file_chunks(text@) == Err::<Seq<ChunkView>, ParseErrorView>(e@),
            },
    {
        let chunks = match into_chunks(text) {
            Ok(value) => value,
            Err(err) => {
                return Err(err);
            },
        };
        let ghost all = chunk_views(chunks@);
        let ghost is_clth = |c: ChunkView| c.header == DataHeader::Clth;
        let ghost is_outfit = |c: ChunkView| c.header == DataHeader::Outfit;
        let mut clth_chunks: Vec<DataChunk> = Vec::new();
        let mut outfit_chunks: Vec<DataChunk> = Vec::new();
        proof {
            reveal(Seq::filter);
            assert(all.take(0) =~= Seq::<ChunkView>::empty());
            assert(chunk_views(clth_chunks@) =~= all.take(0).filter(is_clth));
            assert(chunk_views(outfit_chunks@) =~= all.take(0).filter(is_outfit));
        }
        for chunk in it: chunks
            invariant
                all == chunk_views(it.seq()),
                is_clth == (|c: ChunkView| c.header == DataHeader::Clth),
                is_outfit == (|c: ChunkView| c.header == DataHeader::Outfit),
                chunk_views(clth_chunks@) == all.take(it.index() as int).filter(is_clth),
                chunk_views(outfit_chunks@) == all.take(it.index() as int).filter(is_outfit),
        {
            proof {
                lemma_filter_step(all, it.index() as int, is_clth);
                lemma_filter_step(all, it.index() as int, is_outfit);
                assert(all[it.index() as int] == chunk@);
            }
            match chunk.header {
                DataHeader::Clth => {
                    proof {
                        lemma_chunk_views_push(clth_chunks@, chunk);
                    }
                    clth_chunks.push(chunk);
                },
                DataHeader::Outfit => {
                    proof {
                        lemma_chunk_views_push(outfit_chunks@, chunk);
                    }
                    outfit_chunks.push(chunk);
                },
            }
        }
        proof {
            assert(all.take(all.len() as int) =~= all);
        }
        Ok(FileData { clth_chunks, outfit_chunks })
    }
}

// ---------------------------------------------------------------------------
// From chunks to records
// ---------------------------------------------------------------------------

/// The text of a field of a chunk.
pub open spec fn text_field(fields: Map<Seq<char>, ValueView>, f: Field) -> Result<
    Seq<char>,
    ClosetError,
> {
    if !fields.contains_key(field_name(f)) {
        Err(ClosetError::MissingField(f))
    } else {
        match fields[field_name(f)] {
            ValueView::Text(t) => Ok(t),
            ValueView::Num(_) => Err(ClosetError::WrongType(f)),
        }
    }
}

/// The number of a field of a chunk.
pub open spec fn number_field(fields: Map<Seq<char>, ValueView>, f: Field) -> Result<
    i32,
    ClosetError,
> {
    if !fields.contains_key(field_name(f)) {
        Err(ClosetError::MissingField(f))
    } else {
        match fields[field_name(f)] {
            ValueView::Num(n) => Ok(n),
            ValueView::Text(_) => Err(ClosetError::WrongType(f)),
        }
    }
}

/// The id that a stored number denotes. A number below zero stands for the
/// id that is 2^32 above it.
pub open spec fn as_id(n: i32) -> u32 {
    if n >= 0 {
        n as u32
    } else {
        (n + 0x1_0000_0000) as u32
    }
}

/// The id that a field of a chunk holds.
pub open spec fn id_field(fields: Map<Seq<char>, ValueView>, f: Field) -> Result<
    u32,
    ClosetError,
> {
    match number_field(fields, f) {
        Ok(n) => Ok(as_id(n)),
        Err(e) => Err(e),
    }
}

/// The kind that a chunk gives.
pub open spec fn kind_field(fields: Map<Seq<char>, ValueView>) -> Result<Kind, ClosetError> {
    match text_field(fields, Field::Kind) {
        Ok(t) => Kind::of_text(t),
        Err(e) => Err(e),
    }
}

/// The sex that a chunk gives.
pub open spec fn sex_field(fields: Map<Seq<char>, ValueView>) -> Result<Sex, ClosetError> {
    match text_field(fields, Field::Sex) {
        Ok(t) => Sex::of_text(t),
        Err(e) => Err(e),
    }
}

/// The size that a chunk gives.
pub open spec fn size_field(fields: Map<Seq<char>, ValueView>) -> Result<Size, ClosetError> {
    match text_field(fields, Field::Size) {
        Ok(t) => Size::of_text(t),
        Err(e) => Err(e),
    }
}

/// The color that a chunk gives.
pub open spec fn color_field(fields: Map<Seq<char>, ValueView>) -> Result<Rgb, ClosetError> {
    match text_field(fields, Field::Color) {
        Ok(t) => match Rgb::of_hex(t) {
            Some(c) => Ok(c),
            None => Err(ClosetError::InvalidColor),
        },
        Err(e) => Err(e),
    }
}

/// The disposition that a chunk gives.
pub open spec fn target_field(fields: Map<Seq<char>, ValueView>) -> Result<Target, ClosetError> {
    match text_field(fields, Field::Target) {
        Ok(t) => Target::of_text(t),
        Err(e) => Err(e),
    }
}

/// The purchase date that a chunk gives.
pub open spec fn date_field(fields: Map<Seq<char>, ValueView>) -> Result<Ymd, ClosetError> {
    match text_field(fields, Field::PurchaseDate) {
        Ok(t) => date_of_text(t),
        Err(e) => Err(e),
    }
}

/// The name of the style of a chunk, put in lower case.
pub open spec fn style_field(fields: Map<Seq<char>, ValueView>) -> Result<
    Seq<char>,
    ClosetError,
> {
    match text_field(fields, Field::Style) {
        Ok(t) => Ok(lowercase_of(t)),
        Err(e) => Err(e),
    }
}

/// The item that the fields of a chunk describe, or what is wrong with the
/// first field that is, in the order id, kind, sex, size, color, target,
/// purchase date, style.
pub open spec fn clth_of(fields: Map<Seq<char>, ValueView>) -> Result<ClthView, ClosetError> {
    if id_field(fields, Field::Id) is Err {
        Err(id_field(fields, Field::Id)->Err_0)
    } else if kind_field(fields) is Err {
        Err(kind_field(fields)->Err_0)
    } else if sex_field(fields) is Err {
        Err(sex_field(fields)->Err_0)
    } else if size_field(fields) is Err {
        Err(size_field(fields)->Err_0)
    } else if color_field(fields) is Err {
        Err(color_field(fields)->Err_0)
    } else if target_field(fields) is Err {
        Err(target_field(fields)->Err_0)
    } else if date_field(fields) is Err {
        Err(date_field(fields)->Err_0)
    } else if style_field(fields) is Err {
        Err(style_field(fields)->Err_0)
    } else {
        Ok(
            ClthView {
                id: id_field(fields, Field::Id)->Ok_0,
                kind: kind_field(fields)->Ok_0,
                sex: sex_field(fields)->Ok_0,
                size: size_field(fields)->Ok_0,
                color: color_field(fields)->Ok_0,
                target: target_field(fields)->Ok_0,
                purchase_date: date_field(fields)->Ok_0,
                style: style_field(fields)->Ok_0,
            },
        )
    }
}

/// The items and the style names that the chunks give, read in their order.
/// Reading stops at the first chunk that is wrong, or whose id an earlier
/// item has.
pub open spec fn clths_of(chunks: Seq<ChunkView>) -> Result<
    (Seq<ClthView>, Seq<Seq<char>>),
    ClosetError,
>
    decreases chunks.len(),
{
    if chunks.len() == 0 {
        Ok((Seq::empty(), Seq::empty()))
    } else {
        match clths_of(chunks.drop_last()) {
            Err(e) => Err(e),
            Ok((items, styles)) => match clth_of(chunks.last().fields) {
                Err(e) => Err(e),
                Ok(c) => match added(items, c) {
                    Err(e) => Err(e),
                    Ok(next) => Ok((next, with_name(styles, c.style))),
                },
            },
        }
    }
}

/// The three items that the fields of an outfit chunk name, each of which
/// must be among the items; or what is wrong with the first slot that is, in
/// the order chest, leg, foot.
pub open spec fn slots_of(fields: Map<Seq<char>, ValueView>, items: Seq<ClthView>) -> Result<
    (u32, u32, u32),
    ClosetError,
> {
    let chest = id_field(fields, Field::Chest);
    let leg = id_field(fields, Field::Leg);
    let foot = id_field(fields, Field::Foot);
    if chest is Err {
        Err(chest->Err_0)
    } else if !has_id(items, chest->Ok_0) {
        Err(ClosetError::InvalidReference(Field::Chest))
    } else if leg is Err {
        Err(leg->Err_0)
    } else if !has_id(items, leg->Ok_0) {
        Err(ClosetError::InvalidReference(Field::Leg))
    } else if foot is Err {
        Err(foot->Err_0)
    } else if !has_id(items, foot->Ok_0) {
        Err(ClosetError::InvalidReference(Field::Foot))
    } else {
        Ok((chest->Ok_0, leg->Ok_0, foot->Ok_0))
    }
}

/// The outfits after the one that a chunk describes was added under the
/// smallest free id. An outfit of three items that an earlier outfit is
/// made of is left out.
pub open spec fn with_outfit_of(
    fields: Map<Seq<char>, ValueView>,
    items: Seq<ClthView>,
    outfits: Seq<OutfitView>,
) -> Result<Seq<OutfitView>, ClosetError> {
    match slots_of(fields, items) {
        Err(e) => Err(e),
        Ok((chest, leg, foot)) => match outfit_check(items, chest, leg, foot) {
            Err(e) => Err(e),
            Ok(_) => match outfit_added(
                outfits,
                outfit(smallest_free(outfit_ids(outfits)), chest, leg, foot),
            ) {
                Ok(next) => Ok(next),
                Err(_) => Ok(outfits),
            },
        },
    }
}

/// The outfits that the chunks give, read in their order. Reading stops at
/// the first chunk that is wrong.
pub open spec fn outfits_of(chunks: Seq<ChunkView>, items: Seq<ClthView>) -> Result<
    Seq<OutfitView>,
    ClosetError,
>
    decreases chunks.len(),
{
    if chunks.len() == 0 {
        Ok(Seq::empty())
    } else {
        match outfits_of(chunks.drop_last(), items) {
            Err(e) => Err(e),
            Ok(outfits) => with_outfit_of(chunks.last().fields, items, outfits),
        }
    }
}

/// The closet that the chunks of the items and those of the outfits give:
/// the items, the names of their styles, and the outfits made of the items.
pub open spec fn data_of(clth_chunks: Seq<ChunkView>, outfit_chunks: Seq<ChunkView>) -> Result<
    (Seq<ClthView>, Seq<Seq<char>>, Seq<OutfitView>),
    ClosetError,
> {
    match clths_of(clth_chunks) {
        Err(e) => Err(e),
        Ok((items, styles)) => match outfits_of(outfit_chunks, items) {
            Err(e) => Err(e),
            Ok(outfits) => Ok((items, styles, outfits)),
        },
    }
}

/// A failure on some of the first chunks is the failure on all of them.
pub proof fn lemma_clths_stop(chunks: Seq<ChunkView>, n: int)
    requires
        0 <= n <= chunks.len(),
    ensures
        clths_of(chunks.take(n)) is Err ==> clths_of(chunks) == clths_of(chunks.take(n)),
    decreases chunks.len() - n,
{
    if n == chunks.len() {
        assert(chunks.take(n) =~= chunks);
    } else {
        lemma_clths_stop(chunks.drop_last(), n);
        assert(chunks.drop_last().take(n) =~= chunks.take(n));
    }
}

/// A failure on some of the first chunks is the failure on all of them.
pub proof fn lemma_outfits_stop(chunks: Seq<ChunkView>, items: Seq<ClthView>, n: int)
    requires
        0 <= n <= chunks.len(),
    ensures
        outfits_of(chunks.take(n), items) is Err ==> outfits_of(chunks, items) == outfits_of(
            chunks.take(n),
            items,
        ),
    decreases chunks.len() - n,
{
    if n == chunks.len() {
        assert(chunks.take(n) =~= chunks);
    } else {
        lemma_outfits_stop(chunks.drop_last(), items, n);
        assert(chunks.drop_last().take(n) =~= chunks.take(n));
    }
}

/// The text of a field.
fn read_text<'a>(fields: &'a Fields, f: Field) -> (r: Result<&'a String, ClosetError>)
    ensures
        match r {
            Ok(t) => text_field(fields@, f) == Ok::<Seq<char>, ClosetError>(t@),
            Err(e) => text_field(fields@, f) == Err::<Seq<char>, ClosetError>(e),
        },
{
    match fields.get(f.name()) {
        Some(Value::Text(t)) => Ok(t),
        Some(Value::Num(_)) => Err(ClosetError::WrongType(f)),
        None => Err(ClosetError::MissingField(f)),
    }
}

/// The id that a field holds.
fn read_id(fields: &Fields, f: Field) -> (r: Result<u32, ClosetError>)
    ensures
        r == id_field(fields@, f),
{
    match fields.get(f.name()) {
        Some(Value::Num(n)) => {
            let n: i32 = *n;
            if n >= 0 {
                Ok(n as u32)
            } else {
                Ok((n as i64 + 0x1_0000_0000) as u32)
            }
        },
        Some(Value::Text(_)) => Err(ClosetError::WrongType(f)),
        None => Err(ClosetError::MissingField(f)),
    }
}

/// Reads the item that the fields describe. Its style joins the styles.
fn read_clth(fields: &Fields, styles: &mut Styles) -> (r: Result<Clth, ClosetError>)
    ensures
        match r {
            Ok(c) => clth_of(fields@) == Ok::<ClthView, ClosetError>(c@) && final(styles)@
                == with_name(old(styles)@, c@.style),
            Err(e) => clth_of(fields@) == Err::<ClthView, ClosetError>(e) && final(styles)@
                == old(styles)@,
        },
{
    let id = match read_id(fields, Field::Id) {
        Ok(v) => v,
        Err(e) => {
            return Err(e);
        },
    };
    let kind = match read_text(fields, Field::Kind) {
        Ok(t) => match Kind::from_str(t.as_str()) {
            Ok(v) => v,
            Err(e) => {
                return Err(e);
            },
        },
        Err(e) => {
            return Err(e);
        },
    };
    let sex = match read_text(fields, Field::Sex) {
        Ok(t) => match Sex::from_str(t.as_str()) {
            Ok(v) => v,
            Err(e) => {
                return Err(e);
            },
        },
        Err(e) => {
            return Err(e);
        },
    };
    let size = match read_text(fields, Field::Size) {
        Ok(t) => match Size::from_str(t.as_str()) {
            Ok(v) => v,
            Err(e) => {
                return Err(e);
            },
        },
        Err(e) => {
            return Err(e);
        },
    };
    let color = match read_text(fields, Field::Color) {
        Ok(t) => match Rgb::try_from_hex(t.as_str()) {
            Some(v) => v,
            None => {
                return Err(ClosetError::InvalidColor);
            },
        },
        Err(e) => {
            return Err(e);
        },
    };
    let target = match read_text(fields, Field::Target) {
        Ok(t) => match Target::from_str(t.as_str()) {
            Ok(v) => v,
            Err(e) => {
                return Err(e);
            },
        },
        Err(e) => {
            return Err(e);
        },
    };
    let purchase_date = match read_text(fields, Field::PurchaseDate) {
        Ok(t) => match Date::from_str(t.as_str()) {
            Ok(v) => v,
            Err(e) => {
                return Err(e);
            },
        },
        Err(e) => {
            return Err(e);
        },
    };
    let name = match read_text(fields, Field::Style) {
        Ok(t) => t,
        Err(e) => {
            return Err(e);
        },
    };
    let style = styles.get_or_add(name.as_str());
    Ok(Clth::new(id, kind, sex, size, color, target, purchase_date, style))
}

/// Reads the outfit that the fields describe and adds it to the outfits.
fn read_outfit(fields: &Fields, clothes: &Clothes, outfits: &mut Outfits) -> (r: Result<
    (),
    ClosetError,
>)
    ensures
        match r {
            Ok(_) => with_outfit_of(fields@, clothes@, old(outfits)@) == Ok::<
                Seq<OutfitView>,
                ClosetError,
            >(final(outfits)@),
            Err(e) => with_outfit_of(fields@, clothes@, old(outfits)@) == Err::<
                Seq<OutfitView>,
                ClosetError,
            >(e) && final(outfits)@ == old(outfits)@,
        },
{
    let chest = match read_id(fields, Field::Chest) {
        Ok(v) => v,
        Err(e) => {
            return Err(e);
        },
    };
    if !clothes.contains(chest) {
        return Err(ClosetError::InvalidReference(Field::Chest));
    }
    let leg = match read_id(fields, Field::Leg) {
        Ok(v) => v,
        Err(e) => {
            return Err(e);
        },
    };
    if !clothes.contains(leg) {
        return Err(ClosetError::InvalidReference(Field::Leg));
    }
    let foot = match read_id(fields, Field::Foot) {
        Ok(v) => v,
        Err(e) => {
            return Err(e);
        },
    };
    if !clothes.contains(foot) {
        return Err(ClosetError::InvalidReference(Field::Foot));
    }
    let id = outfits.request_id();
    proof {
        lemma_smallest_free(outfit_ids(outfits@), id);
    }
    let made = match Outfit::new(id, chest, leg, foot, clothes) {
        Ok(value) => value,
        Err(e) => {
            return Err(e);
        },
    };
    let _ = outfits.add(made);
    Ok(())
}

impl FileData {
    /// The items that the item chunks describe, and their styles.
    pub fn extract_clths(&self) -> (r: Result<(Clothes, Styles), ClosetError>)
        ensures
            match r {
                Ok((clothes, styles)) => clths_of(chunk_views(self.clth_chunks@)) == Ok::<
                    (Seq<ClthView>, Seq<Seq<char>>),
                    ClosetError,
                >((clothes@, styles@)),
                Err(e) => clths_of(chunk_views(self.clth_chunks@)) == Err::<
                    (Seq<ClthView>, Seq<Seq<char>>),
                    ClosetError,
                >(e),
            },
    {
        let ghost all = chunk_views(self.clth_chunks@);
        let mut clothes = Clothes::new();
        let mut styles = Styles::new();
        let mut i: usize = 0;
        proof {
            assert(all.take(0) =~= Seq::<ChunkView>::empty());
        }
        while i < self.clth_chunks.len()
            invariant
                i <= self.clth_chunks.len(),
                all == chunk_views(self.clth_chunks@),
                clths_of(all.take(i as int)) == Ok::<(Seq<ClthView>, Seq<Seq<char>>), ClosetError>(
                    (clothes@, styles@),
                ),
            decreases self.clth_chunks.len() - i,
        {
            proof {
                let next = all.take(i + 1);
                assert(next.drop_last() =~= all.take(i as int));
                assert(next.last() == self.clth_chunks@[i as int]@);
                lemma_clths_stop(all, i + 1);
            }
            let clth = match read_clth(&self.clth_chunks[i].fields, &mut styles) {
                Ok(value) => value,
                Err(e) => {
                    return Err(e);
                },
            };
            match clothes.add(clth) {
                Ok(_) => {},
                Err(e) => {
                    return Err(e);
                },
            }
            i += 1;
        }
        proof {
            assert(all.take(i as int) =~= all);
        }
        Ok((clothes, styles))
    }

    /// The outfits that the outfit chunks describe, made of the given items.
    pub fn extract_outfits(&self, clothes: &Clothes) -> (r: Result<Outfits, ClosetError>)
        ensures
            match r {
                Ok(outfits) => outfits_of(chunk_views(self.outfit_chunks@), clothes@) == Ok::<
                    Seq<OutfitView>,
                    ClosetError,
                >(outfits@),
                Err(e) => outfits_of(chunk_views(self.outfit_chunks@), clothes@) == Err::<
                    Seq<OutfitView>,
                    ClosetError,
                >(e),
            },
    {
        let ghost all = chunk_views(self.outfit_chunks@);
        let mut outfits = Outfits::new();
        let mut i: usize = 0;
        proof {
            assert(all.take(0) =~= Seq::<ChunkView>::empty());
        }
        while i < self.outfit_chunks.len()
            invariant
                i <= self.outfit_chunks.len(),
                all == chunk_views(self.outfit_chunks@),
                outfits_of(all.take(i as int), clothes@) == Ok::<Seq<OutfitView>, ClosetError>(
                    outfits@,
                ),
            decreases self.outfit_chunks.len() - i,
        {
            proof {
                let next = all.take(i + 1);
                assert(next.drop_last() =~= all.take(i as int));
                assert(next.last() == self.outfit_chunks@[i as int]@);
                lemma_outfits_stop(all, clothes@, i + 1);
            }
            match read_outfit(&self.outfit_chunks[i].fields, clothes, &mut outfits) {
                Ok(_) => {},
                Err(e) => {
                    return Err(e);
                },
            }
            i += 1;
        }
        proof {
            assert(all.take(i as int) =~= all);
        }
        Ok(outfits)
    }

    /// The closet that the chunks describe: the items first, then the
    /// outfits made of them.
    pub fn to_data(&self) -> (r: Result<crate::Data, ClosetError>)
        ensures
            match r {
                Ok(d) => data_of(chunk_views(self.clth_chunks@), chunk_views(self.outfit_chunks@))
                    == Ok::<(Seq<ClthView>, Seq<Seq<char>>, Seq<OutfitView>), ClosetError>(
                    (d.clothes@, d.styles@, d.outfits@),
                ) && d.cache.clth is None && d.cache.outfit is None,
                Err(e) => data_of(chunk_views(self.clth_chunks@), chunk_views(self.outfit_chunks@))
                    == Err::<(Seq<ClthView>, Seq<Seq<char>>, Seq<OutfitView>), ClosetError>(e),
            },
    {
        let (clothes, styles) = match self.extract_clths() {
            Ok(values) => values,
            Err(e) => {
                return Err(e);
            },
        };
        let outfits = match self.extract_outfits(&clothes) {
            Ok(value) => value,
            Err(e) => {
                return Err(e);
            },
        };
        Ok(crate::Data { clothes, styles, outfits, cache: crate::TmpCache::new() })
    }
}

} // verus!
