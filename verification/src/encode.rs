//! Turning one line of the official placement CSV into a packed diff.
//!
//! A line reads `time,user,colour,"x,y"` for a pixel or
//! `time,user,colour,"x,y,x2,y2"` for a rectangle.  Users are numbered in
//! the order they first appear; colours are looked up in the palette.
use crate::bytes::{le_bytes, le_seq, le_value, lemma_le_roundtrip};
use crate::diff::{
    lemma_name_field, lemma_pixel_layout, lemma_rect_layout, RECT_FLAG, pack_pixel, pack_rect, pixel_bits, rect_bits, EPOCH_START_MILLIS,
};
use crate::text::{
    chars_of, ends_with, has_prefix, has_suffix, lemma_split_nonempty, parse_u16, parse_u16_spec,
    push_all, split_chars, split_spec, string_from_chars, views,
};
use vstd::hash_map::StringHashMap;
use vstd::prelude::*;

verus! {

/// The `strftime` pattern of the time column.
pub const TIME_FORMAT: &'static str = "%Y-%m-%d %H:%M:%S%.3f UTC";

/// What `chrono` makes of a time text under a pattern: the milliseconds
/// since the epoch of the naive date and time it parses to, or nothing when
/// it does not parse.
pub uninterp spec fn naive_timestamp_millis(text: Seq<char>, pattern: Seq<char>) -> Option<i64>;

/// Parses `text` with `chrono::NaiveDateTime::parse_from_str(text, pattern)`
/// and, when that succeeds, takes `timestamp_millis()` of the result.  The
/// contract only names the outcome: it is the same for the same text and
/// pattern, and nothing more about chrono's parser is claimed.
#[verifier::external_body]
#[allow(deprecated)]
fn parse_timestamp_millis(text: &str, pattern: &str) -> (r: Option<i64>)
    ensures
        r == naive_timestamp_millis(text@, pattern@),
{
    match chrono::NaiveDateTime::parse_from_str(text, pattern) {
        Ok(t) => Some(t.timestamp_millis()),
        Err(_) => None,
    }
}

/// The colour palette, hex code to index.
pub open spec fn palette_map() -> Map<Seq<char>, u32> {
    Map::empty().insert("#6D001A"@, 0).insert("#BE0039"@, 1).insert("#FF4500"@, 2).insert(
        "#FFA800"@,
        3,
    ).insert("#FFD635"@, 4).insert("#FFF8B8"@, 5).insert("#00A368"@, 6).insert("#00CC78"@, 7).insert(
        "#7EED56"@,
        8,
    ).insert("#00756F"@, 9).insert("#009EAA"@, 10).insert("#00CCC0"@, 11).insert("#2450A4"@, 12).insert(
        "#3690EA"@,
        13,
    ).insert("#51E9F4"@, 14).insert("#493AC1"@, 15).insert("#6A5CFF"@, 16).insert("#94B3FF"@, 17).insert(
        "#811E9F"@,
        18,
    ).insert("#B44AC0"@, 19).insert("#E4ABFF"@, 20).insert("#DE107F"@, 21).insert("#FF3881"@, 22).insert(
        "#FF99AA"@,
        23,
    ).insert("#6D482F"@, 24).insert("#9C6926"@, 25).insert("#FFB470"@, 26).insert("#000000"@, 27).insert(
        "#515252"@,
        28,
    ).insert("#898D90"@, 29).insert("#D4D7D9"@, 30).insert("#FFFFFF"@, 31)
}

/// The palette as a lookup table.
pub struct ColorTable {
    map: StringHashMap<u32>,
}

impl View for ColorTable {
    type V = Map<Seq<char>, u32>;

    closed spec fn view(&self) -> Map<Seq<char>, u32> {
        self.map@
    }
}

impl ColorTable {
    /// The table of the 32 palette colours.
    pub fn new() -> (t: ColorTable)
        ensures
            t@ == palette_map(),
    {
        let mut m: StringHashMap<u32> = StringHashMap::new();
        m.insert(String::from_str("#6D001A"), 0);
        m.insert(String::from_str("#BE0039"), 1);
        m.insert(String::from_str("#FF4500"), 2);
        m.insert(String::from_str("#FFA800"), 3);
        m.insert(String::from_str("#FFD635"), 4);
        m.insert(String::from_str("#FFF8B8"), 5);
        m.insert(String::from_str("#00A368"), 6);
        m.insert(String::from_str("#00CC78"), 7);
        m.insert(String::from_str("#7EED56"), 8);
        m.insert(String::from_str("#00756F"), 9);
        m.insert(String::from_str("#009EAA"), 10);
        m.insert(String::from_str("#00CCC0"), 11);
        m.insert(String::from_str("#2450A4"), 12);
        m.insert(String::from_str("#3690EA"), 13);
        m.insert(String::from_str("#51E9F4"), 14);
        m.insert(String::from_str("#493AC1"), 15);
        m.insert(String::from_str("#6A5CFF"), 16);
        m.insert(String::from_str("#94B3FF"), 17);
        m.insert(String::from_str("#811E9F"), 18);
        m.insert(String::from_str("#B44AC0"), 19);
        m.insert(String::from_str("#E4ABFF"), 20);
        m.insert(String::from_str("#DE107F"), 21);
        m.insert(String::from_str("#FF3881"), 22);
        m.insert(String::from_str("#FF99AA"), 23);
        m.insert(String::from_str("#6D482F"), 24);
        m.insert(String::from_str("#9C6926"), 25);
        m.insert(String::from_str("#FFB470"), 26);
        m.insert(String::from_str("#000000"), 27);
        m.insert(String::from_str("#515252"), 28);
        m.insert(String::from_str("#898D90"), 29);
        m.insert(String::from_str("#D4D7D9"), 30);
        m.insert(String::from_str("#FFFFFF"), 31);
        ColorTable { map: m }
    }

    /// The index of a hex colour code, if it is in the table.
    pub fn get(&self, hex: &str) -> (r: Option<u32>)
        ensures
            r == (if self@.contains_key(hex@) {
                Some(self@[hex@])
            } else {
                None
            }),
    {
        match self.map.get(hex) {
            Some(v) => Some(*v),
            None => None,
        }
    }
}

/// User names numbered in order of first appearance.
pub struct NameTable {
    map: StringHashMap<u32>,
}

impl View for NameTable {
    type V = Map<Seq<char>, u32>;

    closed spec fn view(&self) -> Map<Seq<char>, u32> {
        self.map@
    }
}

/// The numbering is dense: finitely many names, each with a number below
/// their count, no number used twice.
pub open spec fn ids_dense(m: Map<Seq<char>, u32>) -> bool {
    &&& m.dom().finite()
    &&& forall|k: Seq<char>| m.contains_key(k) ==> (#[trigger] m[k] as nat) < m.len()
    &&& forall|a: Seq<char>, b: Seq<char>|
        m.contains_key(a) && m.contains_key(b) && a != b ==> #[trigger] m[a] != #[trigger] m[b]
}

impl NameTable {
    /// A table with no names.
    pub fn new() -> (t: NameTable)
        ensures
            t@ == Map::<Seq<char>, u32>::empty(),
            ids_dense(t@),
    {
        NameTable { map: StringHashMap::new() }
    }

    /// How many names are numbered.
    pub fn len(&self) -> (n: usize)
        ensures
            n == self@.len(),
    {
        self.map.len()
    }

    /// The number of a name, if it has one.
    pub fn get(&self, name: &str) -> (r: Option<u32>)
        ensures
            r == (if self@.contains_key(name@) {
                Some(self@[name@])
            } else {
                None
            }),
    {
        match self.map.get(name) {
            Some(v) => Some(*v),
            None => None,
        }
    }
}

/// The table after `name` has been looked up: unchanged if it knows the
/// name, otherwise with the name numbered by the table's size (as a `u32`).
pub open spec fn with_name(m: Map<Seq<char>, u32>, name: Seq<char>) -> Map<Seq<char>, u32> {
    if m.contains_key(name) {
        m
    } else {
        m.insert(name, m.len() as u32)
    }
}

/// Numbering a name keeps the numbering dense while at most `u32::MAX`
/// names are known (a new name then gets the number `u32::MAX` at most).
pub proof fn lemma_with_name_dense(m: Map<Seq<char>, u32>, name: Seq<char>)
    requires
        ids_dense(m),
        m.len() <= u32::MAX,
    ensures
        ids_dense(with_name(m, name)),
        with_name(m, name).contains_key(name),
        with_name(m, name).len() == m.len() + (if m.contains_key(name) {
            0int
        } else {
            1int
        }),
        with_name(m, name)[name] == (if m.contains_key(name) {
            m[name]
        } else {
            m.len() as u32
        }),
        forall|k: Seq<char>| m.contains_key(k) ==> #[trigger] with_name(m, name)[k] == m[k],
{
    if !m.contains_key(name) {
        let n = with_name(m, name);
        assert(n.dom() == m.dom().insert(name));
        assert(n.len() == m.len() + 1);
        assert forall|k: Seq<char>| n.contains_key(k) implies (#[trigger] n[k] as nat) < n.len() by {
            if k != name {
                assert(m.contains_key(k));
            }
        }
    }
}

/// How a line ends.
#[derive(Debug, Clone, Copy, PartialEq, Eq, Structural)]
pub enum LineOutcome {
    /// The line cannot be read at all: a missing column, a time or a
    /// coordinate that does not parse, or a time before the event starts.
    Aborts,
    /// The colour is not in the palette, or a quote around the coordinates
    /// is missing.
    Rejected { new_name: bool },
    /// The packed diff.
    Packed { diff: u128, new_name: bool },
}

/// Milliseconds since the start of the event, as the encoder computes them
/// on `u128`: a time before the start but after the epoch underflows; a time
/// before the epoch wraps to a huge number.
pub open spec fn time_delta(millis: i64) -> Option<u128> {
    if 0 <= millis < EPOCH_START_MILLIS {
        None
    } else {
        Some(((millis as u128) - (EPOCH_START_MILLIS as u128)) as u128)
    }
}

/// The quote that opens and closes the coordinates.
pub open spec fn quote() -> Seq<char> {
    seq!['"']
}

/// The outcome of a line split into `f`, whose time column parsed to
/// `millis`, against a colour table and a name table; the columns are read
/// left to right and the first failure decides.
pub open spec fn line_outcome(
    f: Seq<Seq<char>>,
    millis: Option<i64>,
    colors: Map<Seq<char>, u32>,
    names: Map<Seq<char>, u32>,
) -> LineOutcome {
    if millis is None || f.len() < 2 {
        LineOutcome::Aborts
    } else {
        let new_name = !names.contains_key(f[1]);
        let name = with_name(names, f[1])[f[1]];
        if f.len() < 3 {
            LineOutcome::Aborts
        } else if !colors.contains_key(f[2]) {
            LineOutcome::Rejected { new_name }
        } else {
            let color = colors[f[2]];
            if f.len() == 5 {
                if !has_prefix(f[3], quote()) {
                    LineOutcome::Rejected { new_name }
                } else if parse_u16_spec(f[3].drop_first()) is None {
                    LineOutcome::Aborts
                } else if !has_suffix(f[4], quote()) {
                    LineOutcome::Rejected { new_name }
                } else if parse_u16_spec(f[4].drop_last()) is None {
                    LineOutcome::Aborts
                } else if time_delta(millis->0) is None {
                    LineOutcome::Aborts
                } else {
                    LineOutcome::Packed {
                        diff: pixel_bits(
                            parse_u16_spec(f[3].drop_first())->0,
                            parse_u16_spec(f[4].drop_last())->0,
                            color,
                            time_delta(millis->0)->0,
                            name,
                        ),
                        new_name,
                    }
                }
            } else if f.len() < 4 {
                LineOutcome::Aborts
            } else if !has_prefix(f[3], quote()) {
                LineOutcome::Rejected { new_name }
            } else if parse_u16_spec(f[3].drop_first()) is None || f.len() < 5
                || parse_u16_spec(f[4]) is None || f.len() < 6 || parse_u16_spec(f[5]) is None
                || f.len() < 7 {
                LineOutcome::Aborts
            } else if !has_suffix(f[6], quote()) {
                LineOutcome::Rejected { new_name }
            } else if parse_u16_spec(f[6].drop_last()) is None || time_delta(millis->0) is None {
                LineOutcome::Aborts
            } else {
                LineOutcome::Packed {
                    diff: rect_bits(
                        parse_u16_spec(f[3].drop_first())->0,
                        parse_u16_spec(f[4])->0,
                        parse_u16_spec(f[5])->0,
                        parse_u16_spec(f[6].drop_last())->0,
                        color,
                        time_delta(millis->0)->0,
                        name,
                    ),
                    new_name,
                }
            }
        }
    }
}

/// The outcome of a whole line.
pub open spec fn read_outcome(
    line: Seq<char>,
    colors: Map<Seq<char>, u32>,
    names: Map<Seq<char>, u32>,
) -> LineOutcome {
    let f = split_spec(line, ',');
    line_outcome(f, naive_timestamp_millis(f[0], TIME_FORMAT@), colors, names)
}

/// Copies characters.
fn copy_chars(v: &Vec<char>) -> (out: Vec<char>)
    ensures
        out@ == v@,
{
    let mut out: Vec<char> = Vec::new();
    push_all(&mut out, v);
    out
}

/// All characters but the first.
fn drop_first_char(v: &Vec<char>) -> (out: Vec<char>)
    requires
        v.len() > 0,
    ensures
        out@ == v@.drop_first(),
{
    let mut out: Vec<char> = Vec::new();
    let mut i: usize = 1;
    while i < v.len()
        invariant
            1 <= i <= v.len(),
            out@ == v@.subrange(1, i as int),
        decreases v.len() - i,
    {
        out.push(v[i]);
        assert(v@.subrange(1, i + 1) == v@.subrange(1, i as int).push(v@[i as int]));
        i = i + 1;
    }
    out
}

/// All characters but the last.
fn drop_last_char(v: &Vec<char>) -> (out: Vec<char>)
    requires
        v.len() > 0,
    ensures
        out@ == v@.drop_last(),
{
    let mut out = copy_chars(v);
    out.pop();
    out
}

/// Decides the outcome of a line already split into columns, given what
/// the time column parsed to; the name table is only read.
pub fn plan_line(
    f: &Vec<Vec<char>>,
    millis: Option<i64>,
    colors: &ColorTable,
    names: &NameTable,
) -> (r: LineOutcome)
    ensures
        r == line_outcome(views(f@), millis, colors@, names@),
{
    let ghost fv = views(f@);
    assert(fv.len() == f.len());
    if millis.is_none() || f.len() < 2 {
        return LineOutcome::Aborts;
    }
    let ms = millis.unwrap();
    let user = string_from_chars(copy_chars(&f[1]));
    assert(user@ == fv[1]);
    let known = names.get(user.as_str());
    let new_name = known.is_none();
    let name: u32 = match known {
        Some(n) => n,
        None => names.len() as u32,
    };
    assert(name == with_name(names@, fv[1])[fv[1]]);
    if f.len() < 3 {
        return LineOutcome::Aborts;
    }
    let hex = string_from_chars(copy_chars(&f[2]));
    let color = match colors.get(hex.as_str()) {
        Some(c) => c,
        None => {
            return LineOutcome::Rejected { new_name };
        },
    };
    let quote_chars: Vec<char> = vec!['"'];
    assert(quote_chars@ == quote());
    if f.len() == 5 {
        let a = &f[3];
        if a.len() == 0 || a[0] != '"' {
            assert(!has_prefix(fv[3], quote())) by {
                if fv[3].len() > 0 {
                    assert(fv[3].take(1)[0] == fv[3][0]);
                }
            }
            return LineOutcome::Rejected { new_name };
        }
        assert(fv[3].take(1) =~= quote());
        let x = match parse_u16(&drop_first_char(a)) {
            Some(v) => v,
            None => {
                return LineOutcome::Aborts;
            },
        };
        let b = &f[4];
        if !ends_with(b, &quote_chars) {
            return LineOutcome::Rejected { new_name };
        }
        let y = match parse_u16(&drop_last_char(b)) {
            Some(v) => v,
            None => {
                return LineOutcome::Aborts;
            },
        };
        let delta = match time_delta_of(ms) {
            Some(d) => d,
            None => {
                return LineOutcome::Aborts;
            },
        };
        LineOutcome::Packed { diff: pack_pixel(x, y, color, delta, name), new_name }
    } else {
        if f.len() < 4 {
            return LineOutcome::Aborts;
        }
        let a = &f[3];
        if a.len() == 0 || a[0] != '"' {
            assert(!has_prefix(fv[3], quote())) by {
                if fv[3].len() > 0 {
                    assert(fv[3].take(1)[0] == fv[3][0]);
                }
            }
            return LineOutcome::Rejected { new_name };
        }
        assert(fv[3].take(1) =~= quote());
        let x = match parse_u16(&drop_first_char(a)) {
            Some(v) => v,
            None => {
                return LineOutcome::Aborts;
            },
        };
        if f.len() < 5 {
            return LineOutcome::Aborts;
        }
        let y = match parse_u16(&f[4]) {
            Some(v) => v,
            None => {
                return LineOutcome::Aborts;
            },
        };
        if f.len() < 6 {
            return LineOutcome::Aborts;
        }
        let x2 = match parse_u16(&f[5]) {
            Some(v) => v,
            None => {
                return LineOutcome::Aborts;
            },
        };
        if f.len() < 7 {
            return LineOutcome::Aborts;
        }
        let b = &f[6];
        if !ends_with(b, &quote_chars) {
            return LineOutcome::Rejected { new_name };
        }
        let y2 = match parse_u16(&drop_last_char(b)) {
            Some(v) => v,
            None => {
                return LineOutcome::Aborts;
            },
        };
        let delta = match time_delta_of(ms) {
            Some(d) => d,
            None => {
                return LineOutcome::Aborts;
            },
        };
        LineOutcome::Packed { diff: pack_rect(x, y, x2, y2, color, delta, name), new_name }
    }
}

/// Milliseconds since the start of the event, if the subtraction the
/// encoder does on `u128` does not underflow.
pub fn time_delta_of(millis: i64) -> (r: Option<u128>)
    ensures
        r == time_delta(millis),
{
    if 0 <= millis && millis < EPOCH_START_MILLIS {
        None
    } else {
        let wide = millis as u128;
        proof {
            if millis < 0 {
                assert(millis as u128 >= 0x8000_0000_0000_0000_0000_0000_0000_0000u128) by (bit_vector)
                    requires
                        millis < 0,
                ;
            }
        }
        Some(wide - EPOCH_START_MILLIS as u128)
    }
}

/// Splits a line into columns and parses its time column.
fn columns_and_time(line: &str) -> (r: (Vec<Vec<char>>, Option<i64>))
    ensures
        views(r.0@) == split_spec(line@, ','),
        r.0.len() >= 1,
        r.1 == naive_timestamp_millis(split_spec(line@, ',')[0], TIME_FORMAT@),
{
    let f = split_chars(&chars_of(line), ',');
    proof {
        lemma_split_nonempty(line@, ',');
    }
    assert(views(f@).len() == f.len());
    let first = string_from_chars(copy_chars(&f[0]));
    let millis = parse_timestamp_millis(first.as_str(), TIME_FORMAT);
    (f, millis)
}

/// Whether reading `line` would abort.
pub open spec fn read_aborts(
    line: Seq<char>,
    colors: Map<Seq<char>, u32>,
    names: Map<Seq<char>, u32>,
) -> bool {
    read_outcome(line, colors, names) is Aborts
}

/// Reads one CSV line: numbers its user if new and returns the packed diff,
/// or `None` when the colour is unknown or a quote is missing.
pub fn read(line: &str, colors: &ColorTable, names: &mut NameTable) -> (r: Option<u128>)
    requires
        !read_aborts(line@, colors@, old(names)@),
    ensures
        ids_dense(old(names)@) && old(names)@.len() <= u32::MAX ==> ids_dense(final(names)@),
        final(names)@ == with_name(old(names)@, user_of(line@)),
        match read_outcome(line@, colors@, old(names)@) {
            LineOutcome::Packed { diff, .. } => r == Some(diff),
            _ => r is None,
        },
{
    let (f, millis) = columns_and_time(line);
    let outcome = plan_line(&f, millis, colors, names);
    let ghost fv = views(f@);
    proof {
        if ids_dense(names@) && names@.len() <= u32::MAX {
            lemma_with_name_dense(names@, fv[1]);
        }
    }
    match outcome {
        LineOutcome::Aborts => {
            assert(false);
            None
        },
        LineOutcome::Rejected { new_name } => {
            register(names, &f[1], new_name);
            None
        },
        LineOutcome::Packed { diff, new_name } => {
            register(names, &f[1], new_name);
            Some(diff)
        },
    }
}

/// Numbers `user` when `new_name` says it is not yet known.
fn register(names: &mut NameTable, user: &Vec<char>, new_name: bool)
    requires
        new_name == !old(names)@.contains_key(user@),
    ensures
        final(names)@ == with_name(old(names)@, user@),
{
    if new_name {
        let id = names.map.len() as u32;
        names.map.insert(string_from_chars(copy_chars(user)), id);
    }
}

/// Reads one CSV line unless reading it would abort: `None` then, with the
/// name table unchanged; otherwise `Some` of what `read` returns.
pub fn read_checked(line: &str, colors: &ColorTable, names: &mut NameTable) -> (r: Option<
    Option<u128>,
>)
    ensures
        ids_dense(old(names)@) && old(names)@.len() <= u32::MAX ==> ids_dense(final(names)@),
        r is None <==> read_aborts(line@, colors@, old(names)@),
        r is None ==> final(names)@ == old(names)@,
        r matches Some(inner) ==> {
            &&& final(names)@ == with_name(old(names)@, user_of(line@))
            &&& match read_outcome(line@, colors@, old(names)@) {
                LineOutcome::Packed { diff, .. } => inner == Some(diff),
                _ => inner is None,
            }
        },
{
    let (f, millis) = columns_and_time(line);
    let outcome = plan_line(&f, millis, colors, names);
    match outcome {
        LineOutcome::Aborts => None,
        _ => Some(read(line, colors, names)),
    }
}

/// The user column of a line.
pub open spec fn user_of(line: Seq<char>) -> Seq<char> {
    split_spec(line, ',')[1]
}

/// The name table after reading `lines` in order, starting from `m`.
pub open spec fn table_after(m: Map<Seq<char>, u32>, lines: Seq<Seq<char>>) -> Map<
    Seq<char>,
    u32,
>
    decreases lines.len(),
{
    if lines.len() == 0 {
        m
    } else {
        with_name(table_after(m, lines.drop_last()), user_of(lines.last()))
    }
}

/// The users of the first `k` lines.
pub open spec fn users_seen(lines: Seq<Seq<char>>, k: int) -> Set<Seq<char>> {
    Set::new(|u: Seq<char>| exists|j: int| 0 <= j < k && user_of(lines[j]) == u)
}

/// The number the user of line `k` gets when a file of `lines` is read
/// from an empty table.
pub open spec fn id_of(lines: Seq<Seq<char>>, k: int) -> u32 {
    table_after(Map::empty(), lines.take(k + 1))[user_of(lines[k])]
}

/// The users of the first `k + 1` lines are those of the first `k` and the
/// user of line `k`; there are finitely many, at most `k`.
proof fn lemma_users_seen_grow(lines: Seq<Seq<char>>, k: int)
    requires
        0 <= k <= lines.len(),
    ensures
        users_seen(lines, k).finite(),
        users_seen(lines, k).len() <= k,
        k < lines.len() ==> users_seen(lines, k + 1) == users_seen(lines, k).insert(
            user_of(lines[k]),
        ),
        forall|m: int| k <= m <= lines.len() ==> users_seen(lines, k).subset_of(
            #[trigger] users_seen(lines, m),
        ),
    decreases k,
{
    if k < lines.len() {
        assert(users_seen(lines, k + 1) =~= users_seen(lines, k).insert(user_of(lines[k])));
    }
    if k == 0 {
        assert(users_seen(lines, 0) =~= Set::<Seq<char>>::empty());
    } else {
        lemma_users_seen_grow(lines, k - 1);
    }
}

proof fn lemma_numbering_prefix(lines: Seq<Seq<char>>, k: int)
    requires
        0 <= k <= lines.len(),
        users_seen(lines, lines.len() as int).len() <= u32::MAX as int + 1,
    ensures
        ({
            let t = table_after(Map::empty(), lines.take(k));
            &&& t.dom() == users_seen(lines, k)
            &&& ids_dense(t)
            &&& forall|j: int| 0 <= j < k ==> #[trigger] t[user_of(lines[j])] == id_of(lines, j)
        }),
    decreases k,
{
    let t = table_after(Map::empty(), lines.take(k));
    lemma_users_seen_grow(lines, k);
    if k == 0 {
        assert(lines.take(0).len() == 0);
        assert(t.dom() =~= users_seen(lines, 0));
    } else {
        lemma_numbering_prefix(lines, k - 1);
        lemma_users_seen_grow(lines, k - 1);
        lemma_users_seen_grow(lines, lines.len() as int);
        let prev = table_after(Map::empty(), lines.take(k - 1));
        let u = user_of(lines[k - 1]);
        assert(lines.take(k).drop_last() == lines.take(k - 1));
        assert(lines.take(k).last() == lines[k - 1]);
        assert(t == with_name(prev, u));
        if prev.contains_key(u) {
            assert(t == prev);
            assert(t.dom() =~= users_seen(lines, k));
        } else {
            let all = users_seen(lines, lines.len() as int);
            assert(users_seen(lines, k).subset_of(all));
            vstd::set_lib::lemma_len_subset(users_seen(lines, k), all);
            assert(prev.len() <= u32::MAX);
            lemma_with_name_dense(prev, u);
            assert(t.dom() =~= users_seen(lines, k));
        }
        assert forall|j: int| 0 <= j < k implies #[trigger] t[user_of(lines[j])] == id_of(lines, j) by {
            if j < k - 1 {
                assert(users_seen(lines, k - 1).contains(user_of(lines[j])));
                assert(prev.contains_key(user_of(lines[j])));
            } else {
                assert(lines.take(j + 1) == lines.take(k));
            }
        }
    }
}

/// Reading a file numbers its users in order of first appearance: the
/// table holds exactly the users seen; a user met for the first time gets
/// the number of distinct users before it; and two lines get the same
/// number exactly when they have the same user.  This holds whenever the
/// file has at most 2^32 distinct users, however many lines it has.
pub proof fn lemma_file_numbering(lines: Seq<Seq<char>>)
    requires
        users_seen(lines, lines.len() as int).len() <= u32::MAX as int + 1,
    ensures
        table_after(Map::empty(), lines).dom() == users_seen(lines, lines.len() as int),
        ids_dense(table_after(Map::empty(), lines)),
        forall|k: int|
            0 <= k < lines.len() && !users_seen(lines, k).contains(user_of(lines[k]))
                ==> #[trigger] id_of(lines, k) as int == users_seen(lines, k).len(),
        forall|i: int, j: int|
            0 <= i < lines.len() && 0 <= j < lines.len() ==> (#[trigger] id_of(lines, i)
                == #[trigger] id_of(lines, j) <==> user_of(lines[i]) == user_of(lines[j])),
{
    let n = lines.len() as int;
    lemma_numbering_prefix(lines, n);
    assert(lines.take(n) == lines);
    let t = table_after(Map::empty(), lines);
    assert forall|k: int|
        0 <= k < lines.len() && !users_seen(lines, k).contains(user_of(lines[k])) implies #[trigger] id_of(
        lines,
        k,
    ) as int == users_seen(lines, k).len() by {
        lemma_numbering_prefix(lines, k);
        lemma_users_seen_grow(lines, k + 1);
        lemma_users_seen_grow(lines, k);
        lemma_users_seen_grow(lines, n);
        let prev = table_after(Map::empty(), lines.take(k));
        assert(lines.take(k + 1).drop_last() == lines.take(k));
        assert(lines.take(k + 1).last() == lines[k]);
        let all = users_seen(lines, n);
        assert(users_seen(lines, k + 1).subset_of(all));
        vstd::set_lib::lemma_len_subset(users_seen(lines, k + 1), all);
        lemma_with_name_dense(prev, user_of(lines[k]));
        assert(prev.dom() == users_seen(lines, k));
    }
    assert forall|i: int, j: int|
        0 <= i < lines.len() && 0 <= j < lines.len() implies (#[trigger] id_of(lines, i)
        == #[trigger] id_of(lines, j) <==> user_of(lines[i]) == user_of(lines[j])) by {
        assert(t[user_of(lines[i])] == id_of(lines, i));
        assert(t[user_of(lines[j])] == id_of(lines, j));
        assert(users_seen(lines, n).contains(user_of(lines[i])));
        assert(users_seen(lines, n).contains(user_of(lines[j])));
    }
}

/// The user number a packed line carries, read back from bits 4 to 35, is
/// the number the name table gives its user.
pub proof fn lemma_packed_user_number(
    line: Seq<char>,
    colors: Map<Seq<char>, u32>,
    names: Map<Seq<char>, u32>,
)
    requires
        read_outcome(line, colors, names) is Packed,
    ensures
        ((read_outcome(line, colors, names)->diff) >> 4u128) & 0xFFFF_FFFF == with_name(
            names,
            user_of(line),
        )[user_of(line)] as u128,
{
    let f = split_spec(line, ',');
    let name = with_name(names, f[1])[f[1]];
    if f.len() == 5 {
        lemma_name_field(
            parse_u16_spec(f[3].drop_first())->0,
            parse_u16_spec(f[4].drop_last())->0,
            0,
            0,
            colors[f[2]],
            time_delta(naive_timestamp_millis(f[0], TIME_FORMAT@)->0)->0,
            name,
        );
    } else {
        lemma_name_field(
            parse_u16_spec(f[3].drop_first())->0,
            parse_u16_spec(f[4])->0,
            parse_u16_spec(f[5])->0,
            parse_u16_spec(f[6].drop_last())->0,
            colors[f[2]],
            time_delta(naive_timestamp_millis(f[0], TIME_FORMAT@)->0)->0,
            name,
        );
    }
}

/// The texts of some lines.
pub open spec fn texts(lines: Seq<String>) -> Seq<Seq<char>> {
    lines.map_values(|l: String| l@)
}

/// The diff a packed line gives.
pub open spec fn packed_diff(line: Seq<char>, colors: Map<Seq<char>, u32>, m: Map<Seq<char>, u32>) -> u128 {
    read_outcome(line, colors, m)->diff
}

/// Whether every line packs, each read with the table its predecessors left.
pub open spec fn all_packed(lines: Seq<Seq<char>>, colors: Map<Seq<char>, u32>, m: Map<
    Seq<char>,
    u32,
>) -> bool {
    forall|k: int|
        0 <= k < lines.len() ==> #[trigger] read_outcome(
            lines[k],
            colors,
            table_after(m, lines.take(k)),
        ) is Packed
}

/// The bytes the encoder writes for `lines`: for each line in order, the
/// sixteen little-endian bytes of its diff, read with the table its
/// predecessors left.
pub open spec fn encoded_bytes(lines: Seq<Seq<char>>, colors: Map<Seq<char>, u32>, m: Map<
    Seq<char>,
    u32,
>) -> Seq<u8>
    decreases lines.len(),
{
    if lines.len() == 0 {
        Seq::empty()
    } else {
        encoded_bytes(lines.drop_last(), colors, m) + le_seq(
            packed_diff(lines.last(), colors, table_after(m, lines.drop_last())),
            16,
        )
    }
}

/// The encoder's output holds sixteen bytes per line, and bytes `16 k` to
/// `16 k + 16` read back as the diff of line `k`.
pub proof fn lemma_encoded_layout(lines: Seq<Seq<char>>, colors: Map<Seq<char>, u32>, m: Map<
    Seq<char>,
    u32,
>)
    ensures
        encoded_bytes(lines, colors, m).len() == 16 * lines.len(),
        forall|k: int|
            0 <= k < lines.len() ==> #[trigger] le_value(
                encoded_bytes(lines, colors, m).subrange(16 * k, 16 * k + 16),
            ) == packed_diff(lines[k], colors, table_after(m, lines.take(k))) as nat,
    decreases lines.len(),
{
    if lines.len() > 0 {
        let prefix = lines.drop_last();
        lemma_encoded_layout(prefix, colors, m);
        let n = prefix.len() as int;
        let last = packed_diff(lines.last(), colors, table_after(m, prefix));
        lemma_le_roundtrip(last);
        let all = encoded_bytes(lines, colors, m);
        let before = encoded_bytes(prefix, colors, m);
        assert forall|k: int|
            0 <= k < lines.len() implies #[trigger] le_value(all.subrange(16 * k, 16 * k + 16))
            == packed_diff(lines[k], colors, table_after(m, lines.take(k))) as nat by {
            if k < n {
                assert(all.subrange(16 * k, 16 * k + 16) == before.subrange(16 * k, 16 * k + 16));
                assert(prefix[k] == lines[k]);
                assert(prefix.take(k) == lines.take(k));
            } else {
                assert(all.subrange(16 * k, 16 * k + 16) == le_seq(last, 16));
                assert(lines.take(k) == prefix);
            }
        }
    }
}

/// Where a batch of lines stopped: at line `line`, which is rejected (an
/// unknown colour or a missing quote) or cannot be read at all.
pub struct BatchEnd {
    pub line: usize,
    pub rejected: bool,
}

/// Encodes lines in order, appending the sixteen bytes of each line's diff
/// to `out`, and stops at the first line that does not pack.  Lines before
/// it are written and their users numbered; a rejected line numbers its
/// user too, as `read` does; a line that cannot be read changes nothing.
pub fn encode_lines(
    lines: &Vec<String>,
    colors: &ColorTable,
    names: &mut NameTable,
    out: &mut Vec<u8>,
) -> (r: Option<BatchEnd>)
    ensures
        ({
            let ls = texts(lines@);
            let k: int = match r {
                None => lines.len() as int,
                Some(e) => e.line as int,
            };
            &&& 0 <= k <= lines.len()
            &&& all_packed(ls.take(k), colors@, old(names)@)
            &&& final(out)@ == old(out)@ + encoded_bytes(ls.take(k), colors@, old(names)@)
            &&& r is None ==> final(names)@ == table_after(old(names)@, ls)
            &&& r matches Some(e) ==> {
                let o = read_outcome(ls[k], colors@, table_after(old(names)@, ls.take(k)));
                &&& k < lines.len()
                &&& !(o is Packed)
                &&& e.rejected == (o is Rejected)
                &&& final(names)@ == (if e.rejected {
                    table_after(old(names)@, ls.take(k + 1))
                } else {
                    table_after(old(names)@, ls.take(k))
                })
            }
        }),
{
    let ghost ls = texts(lines@);
    let ghost m0 = names@;
    let ghost out0 = out@;
    let mut i: usize = 0;
    assert(ls.take(0) == Seq::<Seq<char>>::empty());
    while i < lines.len()
        invariant
            i <= lines.len(),
            ls == texts(lines@),
            ls.len() == lines.len(),
            m0 == old(names)@,
            out0 == old(out)@,
            names@ == table_after(m0, ls.take(i as int)),
            all_packed(ls.take(i as int), colors@, m0),
            out@ == out0 + encoded_bytes(ls.take(i as int), colors@, m0),
        decreases lines.len() - i,
    {
        let ghost before = names@;
        let ghost next = ls.take(i + 1);
        assert(next.drop_last() == ls.take(i as int));
        assert(next.last() == ls[i as int]);
        assert(lines[i as int]@ == ls[i as int]);
        match read_checked(lines[i].as_str(), colors, names) {
            None => {
                assert(read_aborts(ls[i as int], colors@, before));
                return Some(BatchEnd { line: i, rejected: false });
            },
            Some(None) => {
                assert(!read_aborts(ls[i as int], colors@, before));
                assert(names@ == table_after(m0, next));
                return Some(BatchEnd { line: i, rejected: true });
            },
            Some(Some(d)) => {
                let mut bytes = le_bytes(d);
                let ghost written = out@;
                out.append(&mut bytes);
                proof {
                    assert forall|k: int| 0 <= k < next.len() implies #[trigger] read_outcome(
                        next[k],
                        colors@,
                        table_after(m0, next.take(k)),
                    ) is Packed by {
                        if k < i {
                            assert(next[k] == ls.take(i as int)[k]);
                            assert(next.take(k) == ls.take(i as int).take(k));
                        } else {
                            assert(next.take(k) == ls.take(i as int));
                        }
                    }
                }
                i = i + 1;
            },
        }
    }
    assert(ls.take(lines.len() as int) == ls);
    None
}

/// The r/place palette in its published order: the colour with index k is
/// the k-th code of this list.
pub open spec fn palette_codes() -> Seq<Seq<char>> {
    seq![
        "#6D001A"@, "#BE0039"@, "#FF4500"@, "#FFA800"@,
        "#FFD635"@, "#FFF8B8"@, "#00A368"@, "#00CC78"@,
        "#7EED56"@, "#00756F"@, "#009EAA"@, "#00CCC0"@,
        "#2450A4"@, "#3690EA"@, "#51E9F4"@, "#493AC1"@,
        "#6A5CFF"@, "#94B3FF"@, "#811E9F"@, "#B44AC0"@,
        "#E4ABFF"@, "#DE107F"@, "#FF3881"@, "#FF99AA"@,
        "#6D482F"@, "#9C6926"@, "#FFB470"@, "#000000"@,
        "#515252"@, "#898D90"@, "#D4D7D9"@, "#FFFFFF"@,
    ]
}

/// The table gives each colour of the published palette its position in
/// the list, and knows no other colour.
pub proof fn lemma_palette_order()
    ensures
        palette_codes().len() == 32,
        forall|k: int|
            0 <= k < 32 ==> palette_map().contains_key(#[trigger] palette_codes()[k])
                && palette_map()[palette_codes()[k]] == k,
        forall|c: Seq<char>|
            #[trigger] palette_map().contains_key(c) ==> palette_codes().contains(c),
{
    reveal_strlit("#6D001A");
    reveal_strlit("#BE0039");
    reveal_strlit("#FF4500");
    reveal_strlit("#FFA800");
    reveal_strlit("#FFD635");
    reveal_strlit("#FFF8B8");
    reveal_strlit("#00A368");
    reveal_strlit("#00CC78");
    reveal_strlit("#7EED56");
    reveal_strlit("#00756F");
    reveal_strlit("#009EAA");
    reveal_strlit("#00CCC0");
    reveal_strlit("#2450A4");
    reveal_strlit("#3690EA");
    reveal_strlit("#51E9F4");
    reveal_strlit("#493AC1");
    reveal_strlit("#6A5CFF");
    reveal_strlit("#94B3FF");
    reveal_strlit("#811E9F");
    reveal_strlit("#B44AC0");
    reveal_strlit("#E4ABFF");
    reveal_strlit("#DE107F");
    reveal_strlit("#FF3881");
    reveal_strlit("#FF99AA");
    reveal_strlit("#6D482F");
    reveal_strlit("#9C6926");
    reveal_strlit("#FFB470");
    reveal_strlit("#000000");
    reveal_strlit("#515252");
    reveal_strlit("#898D90");
    reveal_strlit("#D4D7D9");
    reveal_strlit("#FFFFFF");
    // Naming the six hex digits of each code tells every two codes apart.
    assert("#6D001A"@[1] == '6' && "#6D001A"@[2] == 'D' && "#6D001A"@[3] == '0'
        && "#6D001A"@[4] == '0' && "#6D001A"@[5] == '1' && "#6D001A"@[6] == 'A');
    assert("#BE0039"@[1] == 'B' && "#BE0039"@[2] == 'E' && "#BE0039"@[3] == '0'
        && "#BE0039"@[4] == '0' && "#BE0039"@[5] == '3' && "#BE0039"@[6] == '9');
    assert("#FF4500"@[1] == 'F' && "#FF4500"@[2] == 'F' && "#FF4500"@[3] == '4'
        && "#FF4500"@[4] == '5' && "#FF4500"@[5] == '0' && "#FF4500"@[6] == '0');
    assert("#FFA800"@[1] == 'F' && "#FFA800"@[2] == 'F' && "#FFA800"@[3] == 'A'
        && "#FFA800"@[4] == '8' && "#FFA800"@[5] == '0' && "#FFA800"@[6] == '0');
    assert("#FFD635"@[1] == 'F' && "#FFD635"@[2] == 'F' && "#FFD635"@[3] == 'D'
        && "#FFD635"@[4] == '6' && "#FFD635"@[5] == '3' && "#FFD635"@[6] == '5');
    assert("#FFF8B8"@[1] == 'F' && "#FFF8B8"@[2] == 'F' && "#FFF8B8"@[3] == 'F'
        && "#FFF8B8"@[4] == '8' && "#FFF8B8"@[5] == 'B' && "#FFF8B8"@[6] == '8');
    assert("#00A368"@[1] == '0' && "#00A368"@[2] == '0' && "#00A368"@[3] == 'A'
        && "#00A368"@[4] == '3' && "#00A368"@[5] == '6' && "#00A368"@[6] == '8');
    assert("#00CC78"@[1] == '0' && "#00CC78"@[2] == '0' && "#00CC78"@[3] == 'C'
        && "#00CC78"@[4] == 'C' && "#00CC78"@[5] == '7' && "#00CC78"@[6] == '8');
    assert("#7EED56"@[1] == '7' && "#7EED56"@[2] == 'E' && "#7EED56"@[3] == 'E'
        && "#7EED56"@[4] == 'D' && "#7EED56"@[5] == '5' && "#7EED56"@[6] == '6');
    assert("#00756F"@[1] == '0' && "#00756F"@[2] == '0' && "#00756F"@[3] == '7'
        && "#00756F"@[4] == '5' && "#00756F"@[5] == '6' && "#00756F"@[6] == 'F');
    assert("#009EAA"@[1] == '0' && "#009EAA"@[2] == '0' && "#009EAA"@[3] == '9'
        && "#009EAA"@[4] == 'E' && "#009EAA"@[5] == 'A' && "#009EAA"@[6] == 'A');
    assert("#00CCC0"@[1] == '0' && "#00CCC0"@[2] == '0' && "#00CCC0"@[3] == 'C'
        && "#00CCC0"@[4] == 'C' && "#00CCC0"@[5] == 'C' && "#00CCC0"@[6] == '0');
    assert("#2450A4"@[1] == '2' && "#2450A4"@[2] == '4' && "#2450A4"@[3] == '5'
        && "#2450A4"@[4] == '0' && "#2450A4"@[5] == 'A' && "#2450A4"@[6] == '4');
    assert("#3690EA"@[1] == '3' && "#3690EA"@[2] == '6' && "#3690EA"@[3] == '9'
        && "#3690EA"@[4] == '0' && "#3690EA"@[5] == 'E' && "#3690EA"@[6] == 'A');
    assert("#51E9F4"@[1] == '5' && "#51E9F4"@[2] == '1' && "#51E9F4"@[3] == 'E'
        && "#51E9F4"@[4] == '9' && "#51E9F4"@[5] == 'F' && "#51E9F4"@[6] == '4');
    assert("#493AC1"@[1] == '4' && "#493AC1"@[2] == '9' && "#493AC1"@[3] == '3'
        && "#493AC1"@[4] == 'A' && "#493AC1"@[5] == 'C' && "#493AC1"@[6] == '1');
    assert("#6A5CFF"@[1] == '6' && "#6A5CFF"@[2] == 'A' && "#6A5CFF"@[3] == '5'
        && "#6A5CFF"@[4] == 'C' && "#6A5CFF"@[5] == 'F' && "#6A5CFF"@[6] == 'F');
    assert("#94B3FF"@[1] == '9' && "#94B3FF"@[2] == '4' && "#94B3FF"@[3] == 'B'
        && "#94B3FF"@[4] == '3' && "#94B3FF"@[5] == 'F' && "#94B3FF"@[6] == 'F');
    assert("#811E9F"@[1] == '8' && "#811E9F"@[2] == '1' && "#811E9F"@[3] == '1'
        && "#811E9F"@[4] == 'E' && "#811E9F"@[5] == '9' && "#811E9F"@[6] == 'F');
    assert("#B44AC0"@[1] == 'B' && "#B44AC0"@[2] == '4' && "#B44AC0"@[3] == '4'
        && "#B44AC0"@[4] == 'A' && "#B44AC0"@[5] == 'C' && "#B44AC0"@[6] == '0');
    assert("#E4ABFF"@[1] == 'E' && "#E4ABFF"@[2] == '4' && "#E4ABFF"@[3] == 'A'
        && "#E4ABFF"@[4] == 'B' && "#E4ABFF"@[5] == 'F' && "#E4ABFF"@[6] == 'F');
    assert("#DE107F"@[1] == 'D' && "#DE107F"@[2] == 'E' && "#DE107F"@[3] == '1'
        && "#DE107F"@[4] == '0' && "#DE107F"@[5] == '7' && "#DE107F"@[6] == 'F');
    assert("#FF3881"@[1] == 'F' && "#FF3881"@[2] == 'F' && "#FF3881"@[3] == '3'
        && "#FF3881"@[4] == '8' && "#FF3881"@[5] == '8' && "#FF3881"@[6] == '1');
    assert("#FF99AA"@[1] == 'F' && "#FF99AA"@[2] == 'F' && "#FF99AA"@[3] == '9'
        && "#FF99AA"@[4] == '9' && "#FF99AA"@[5] == 'A' && "#FF99AA"@[6] == 'A');
    assert("#6D482F"@[1] == '6' && "#6D482F"@[2] == 'D' && "#6D482F"@[3] == '4'
        && "#6D482F"@[4] == '8' && "#6D482F"@[5] == '2' && "#6D482F"@[6] == 'F');
    assert("#9C6926"@[1] == '9' && "#9C6926"@[2] == 'C' && "#9C6926"@[3] == '6'
        && "#9C6926"@[4] == '9' && "#9C6926"@[5] == '2' && "#9C6926"@[6] == '6');
    assert("#FFB470"@[1] == 'F' && "#FFB470"@[2] == 'F' && "#FFB470"@[3] == 'B'
        && "#FFB470"@[4] == '4' && "#FFB470"@[5] == '7' && "#FFB470"@[6] == '0');
    assert("#000000"@[1] == '0' && "#000000"@[2] == '0' && "#000000"@[3] == '0'
        && "#000000"@[4] == '0' && "#000000"@[5] == '0' && "#000000"@[6] == '0');
    assert("#515252"@[1] == '5' && "#515252"@[2] == '1' && "#515252"@[3] == '5'
        && "#515252"@[4] == '2' && "#515252"@[5] == '5' && "#515252"@[6] == '2');
    assert("#898D90"@[1] == '8' && "#898D90"@[2] == '9' && "#898D90"@[3] == '8'
        && "#898D90"@[4] == 'D' && "#898D90"@[5] == '9' && "#898D90"@[6] == '0');
    assert("#D4D7D9"@[1] == 'D' && "#D4D7D9"@[2] == '4' && "#D4D7D9"@[3] == 'D'
        && "#D4D7D9"@[4] == '7' && "#D4D7D9"@[5] == 'D' && "#D4D7D9"@[6] == '9');
    assert("#FFFFFF"@[1] == 'F' && "#FFFFFF"@[2] == 'F' && "#FFFFFF"@[3] == 'F'
        && "#FFFFFF"@[4] == 'F' && "#FFFFFF"@[5] == 'F' && "#FFFFFF"@[6] == 'F');
    let codes = palette_codes();
    let m = palette_map();
    assert(codes[0] == "#6D001A"@ && m.contains_key("#6D001A"@) && m["#6D001A"@] == 0);
    assert(codes[1] == "#BE0039"@ && m.contains_key("#BE0039"@) && m["#BE0039"@] == 1);
    assert(codes[2] == "#FF4500"@ && m.contains_key("#FF4500"@) && m["#FF4500"@] == 2);
    assert(codes[3] == "#FFA800"@ && m.contains_key("#FFA800"@) && m["#FFA800"@] == 3);
    assert(codes[4] == "#FFD635"@ && m.contains_key("#FFD635"@) && m["#FFD635"@] == 4);
    assert(codes[5] == "#FFF8B8"@ && m.contains_key("#FFF8B8"@) && m["#FFF8B8"@] == 5);
    assert(codes[6] == "#00A368"@ && m.contains_key("#00A368"@) && m["#00A368"@] == 6);
    assert(codes[7] == "#00CC78"@ && m.contains_key("#00CC78"@) && m["#00CC78"@] == 7);
    assert(codes[8] == "#7EED56"@ && m.contains_key("#7EED56"@) && m["#7EED56"@] == 8);
    assert(codes[9] == "#00756F"@ && m.contains_key("#00756F"@) && m["#00756F"@] == 9);
    assert(codes[10] == "#009EAA"@ && m.contains_key("#009EAA"@) && m["#009EAA"@] == 10);
    assert(codes[11] == "#00CCC0"@ && m.contains_key("#00CCC0"@) && m["#00CCC0"@] == 11);
    assert(codes[12] == "#2450A4"@ && m.contains_key("#2450A4"@) && m["#2450A4"@] == 12);
    assert(codes[13] == "#3690EA"@ && m.contains_key("#3690EA"@) && m["#3690EA"@] == 13);
    assert(codes[14] == "#51E9F4"@ && m.contains_key("#51E9F4"@) && m["#51E9F4"@] == 14);
    assert(codes[15] == "#493AC1"@ && m.contains_key("#493AC1"@) && m["#493AC1"@] == 15);
    assert(codes[16] == "#6A5CFF"@ && m.contains_key("#6A5CFF"@) && m["#6A5CFF"@] == 16);
    assert(codes[17] == "#94B3FF"@ && m.contains_key("#94B3FF"@) && m["#94B3FF"@] == 17);
    assert(codes[18] == "#811E9F"@ && m.contains_key("#811E9F"@) && m["#811E9F"@] == 18);
    assert(codes[19] == "#B44AC0"@ && m.contains_key("#B44AC0"@) && m["#B44AC0"@] == 19);
    assert(codes[20] == "#E4ABFF"@ && m.contains_key("#E4ABFF"@) && m["#E4ABFF"@] == 20);
    assert(codes[21] == "#DE107F"@ && m.contains_key("#DE107F"@) && m["#DE107F"@] == 21);
    assert(codes[22] == "#FF3881"@ && m.contains_key("#FF3881"@) && m["#FF3881"@] == 22);
    assert(codes[23] == "#FF99AA"@ && m.contains_key("#FF99AA"@) && m["#FF99AA"@] == 23);
    assert(codes[24] == "#6D482F"@ && m.contains_key("#6D482F"@) && m["#6D482F"@] == 24);
    assert(codes[25] == "#9C6926"@ && m.contains_key("#9C6926"@) && m["#9C6926"@] == 25);
    assert(codes[26] == "#FFB470"@ && m.contains_key("#FFB470"@) && m["#FFB470"@] == 26);
    assert(codes[27] == "#000000"@ && m.contains_key("#000000"@) && m["#000000"@] == 27);
    assert(codes[28] == "#515252"@ && m.contains_key("#515252"@) && m["#515252"@] == 28);
    assert(codes[29] == "#898D90"@ && m.contains_key("#898D90"@) && m["#898D90"@] == 29);
    assert(codes[30] == "#D4D7D9"@ && m.contains_key("#D4D7D9"@) && m["#D4D7D9"@] == 30);
    assert(codes[31] == "#FFFFFF"@ && m.contains_key("#FFFFFF"@) && m["#FFFFFF"@] == 31);
    assert forall|k: int| 0 <= k < 32 implies m.contains_key(#[trigger] codes[k]) && m[codes[k]]
        == k by {
        if k < 16 {
            if k < 8 {
                assert(k == 0 || k == 1 || k == 2 || k == 3 || k == 4 || k == 5 || k == 6 || k == 7);
            } else {
                assert(k == 8 || k == 9 || k == 10 || k == 11 || k == 12 || k == 13 || k == 14
                    || k == 15);
            }
        } else if k < 24 {
            assert(k == 16 || k == 17 || k == 18 || k == 19 || k == 20 || k == 21 || k == 22
                || k == 23);
        } else {
            assert(k == 24 || k == 25 || k == 26 || k == 27 || k == 28 || k == 29 || k == 30
                || k == 31);
        }
    }
}

/// Every palette index fits the five colour bits.
pub proof fn lemma_palette_fits()
    ensures
        forall|k: Seq<char>| #[trigger] palette_map().contains_key(k) ==> palette_map()[k] < 32,
{
}

/// A pixel line `time,user,colour,"x,y"` that packs carries, in the
/// windows the reader uses, x from its fourth column (after the opening
/// quote), y from its fifth (before the closing quote), the colour's index,
/// the milliseconds since the event start and its user's number.  This holds
/// while the coordinates fit eleven bits, the colour index five and the time
/// forty-two.
pub proof fn lemma_pixel_line_layout(
    line: Seq<char>,
    colors: Map<Seq<char>, u32>,
    names: Map<Seq<char>, u32>,
)
    requires
        read_outcome(line, colors, names) is Packed,
        split_spec(line, ',').len() == 5,
        forall|k: Seq<char>| #[trigger] colors.contains_key(k) ==> colors[k] < 32,
        parse_u16_spec(split_spec(line, ',')[3].drop_first())->0 < 2048,
        parse_u16_spec(split_spec(line, ',')[4].drop_last())->0 < 2048,
        time_delta(naive_timestamp_millis(split_spec(line, ',')[0], TIME_FORMAT@)->0)->0
            < 0x400_0000_0000,
    ensures
        ({
            let f = split_spec(line, ',');
            let d = read_outcome(line, colors, names)->diff;
            &&& d & RECT_FLAG == 0
            &&& (d >> 116u128) & 0x7FF == parse_u16_spec(f[3].drop_first())->0 as u128
            &&& (d >> 105u128) & 0x7FF == parse_u16_spec(f[4].drop_last())->0 as u128
            &&& (d >> 78u128) & 0x1F == colors[f[2]] as u128
            &&& (d >> 36u128) & 0xFFFF_FFFF == time_delta(
                naive_timestamp_millis(f[0], TIME_FORMAT@)->0,
            )->0 & 0xFFFF_FFFF
            &&& (d >> 4u128) & 0xFFFF_FFFF == with_name(names, f[1])[f[1]] as u128
        }),
{
    let f = split_spec(line, ',');
    lemma_pixel_layout(
        parse_u16_spec(f[3].drop_first())->0,
        parse_u16_spec(f[4].drop_last())->0,
        colors[f[2]],
        time_delta(naive_timestamp_millis(f[0], TIME_FORMAT@)->0)->0,
        with_name(names, f[1])[f[1]],
    );
}

/// A rectangle line `time,user,colour,"x,y,x2,y2"` that packs carries, in
/// the windows the reader uses, x from its fourth column (after the opening
/// quote), y from its fifth, the second x from its sixth, the second y from
/// its seventh (before the closing quote), with the rectangle flag set, and
/// the colour's index, the milliseconds since the event start and its
/// user's number; under the same bounds as a pixel line.
pub proof fn lemma_rect_line_layout(
    line: Seq<char>,
    colors: Map<Seq<char>, u32>,
    names: Map<Seq<char>, u32>,
)
    requires
        read_outcome(line, colors, names) is Packed,
        split_spec(line, ',').len() != 5,
        forall|k: Seq<char>| #[trigger] colors.contains_key(k) ==> colors[k] < 32,
        parse_u16_spec(split_spec(line, ',')[3].drop_first())->0 < 2048,
        parse_u16_spec(split_spec(line, ',')[4])->0 < 2048,
        parse_u16_spec(split_spec(line, ',')[5])->0 < 2048,
        parse_u16_spec(split_spec(line, ',')[6].drop_last())->0 < 2048,
        time_delta(naive_timestamp_millis(split_spec(line, ',')[0], TIME_FORMAT@)->0)->0
            < 0x400_0000_0000,
    ensures
        ({
            let f = split_spec(line, ',');
            let d = read_outcome(line, colors, names)->diff;
            &&& f.len() >= 7
            &&& d & RECT_FLAG != 0
            &&& (d >> 116u128) & 0x7FF == parse_u16_spec(f[3].drop_first())->0 as u128
            &&& (d >> 105u128) & 0x7FF == parse_u16_spec(f[4])->0 as u128
            &&& (d >> 94u128) & 0x7FF == parse_u16_spec(f[5])->0 as u128
            &&& (d >> 83u128) & 0x7FF == parse_u16_spec(f[6].drop_last())->0 as u128
            &&& (d >> 78u128) & 0x1F == colors[f[2]] as u128
            &&& (d >> 36u128) & 0xFFFF_FFFF == time_delta(
                naive_timestamp_millis(f[0], TIME_FORMAT@)->0,
            )->0 & 0xFFFF_FFFF
            &&& (d >> 4u128) & 0xFFFF_FFFF == with_name(names, f[1])[f[1]] as u128
        }),
{
    let f = split_spec(line, ',');
    lemma_rect_layout(
        parse_u16_spec(f[3].drop_first())->0,
        parse_u16_spec(f[4])->0,
        parse_u16_spec(f[5])->0,
        parse_u16_spec(f[6].drop_last())->0,
        colors[f[2]],
        time_delta(naive_timestamp_millis(f[0], TIME_FORMAT@)->0)->0,
        with_name(names, f[1])[f[1]],
    );
}

} // verus!
