//! Bulletin records: the typed event record, the line parser, and the
//! table processor that turns the raw bulletin text into an ordered
//! sequence of records.
//!
//! A line is a fixed positional list of whitespace-delimited tokens:
//! date, time, latitude, longitude, depth, duration magnitude, local
//! magnitude, moment magnitude, then location and free-form metadata.
//! Date and time are kept as opaque strings; every numeric field is a
//! fixed-point integer in micros (millionths of a unit).

use crate::numeric::micro_from_text;
use crate::numeric::parse_micro;
use crate::text::split_tokens;
use crate::text::lines_of;
use crate::text::trim;
use crate::text::tokens_of;
use crate::text::views;
use crate::text::split_lines;
use crate::text::trimmed;
use crate::util::UnitType;
use vstd::prelude::*;

verus! {

/// The three magnitude readings of a record.  The local-scale reading
/// `ml` is the mandatory one every decision uses; the duration-based
/// `md` and moment-scale `mw` readings may be absent.  All three are
/// in micro-magnitudes.
#[derive(Debug, Clone, Copy)]
pub struct QuakeMag {
    pub md: Option<i64>,
    pub ml: i64,
    pub mw: Option<i64>,
}

/// A coordinate in micro-degrees.  Equality is exact: the bulletin
/// prints fixed-precision coordinates, so identical events carry
/// identical numerals.
#[derive(Debug, Clone, Copy, PartialEq, Eq, Structural)]
pub struct Coord {
    pub latitude: i64,
    pub longitude: i64,
}

/// One parsed bulletin record.
#[derive(Debug)]
pub struct QuakeData {
    pub date: String,
    pub time: String,
    pub coord: Coord,
    pub depth: Option<i64>,
    pub magnitude: QuakeMag,
    pub location: String,
    pub metadata: String,
}

/// The mathematical shadow of a record: sequences for the strings,
/// unbounded integers for the micro values.
#[verifier::ext_equal]
pub ghost struct QuakeRec {
    pub date: Seq<char>,
    pub time: Seq<char>,
    pub lat: int,
    pub lon: int,
    pub depth: Option<int>,
    pub md: Option<int>,
    pub ml: int,
    pub mw: Option<int>,
    pub location: Seq<char>,
    pub metadata: Seq<char>,
}

impl View for QuakeData {
    type V = QuakeRec;

    open spec fn view(&self) -> QuakeRec {
        QuakeRec {
            date: self.date@,
            time: self.time@,
            lat: self.coord.latitude as int,
            lon: self.coord.longitude as int,
            depth: match self.depth {
                Some(v) => Some(v as int),
                None => None,
            },
            md: match self.magnitude.md {
                Some(v) => Some(v as int),
                None => None,
            },
            ml: self.magnitude.ml as int,
            mw: match self.magnitude.mw {
                Some(v) => Some(v as int),
                None => None,
            },
            location: self.location@,
            metadata: self.metadata@,
        }
    }
}

/// The views of a vector of records.
pub open spec fn recs(s: Seq<QuakeData>) -> Seq<QuakeRec> {
    s.map_values(|q: QuakeData| q@)
}

/// The placeholder a bulletin prints for an absent optional magnitude.
pub open spec fn is_sentinel(t: Seq<char>) -> bool {
    t.len() == 3 && t[0] == '_' && t[1] == '.' && t[2] == '_'
}

/// Value of an optional magnitude token: the sentinel is mapped to an
/// absent value before any numeric parse is attempted; a token that is
/// no numeral is also absent, never an error.
pub open spec fn mag_token(t: Seq<char>) -> Option<int> {
    if is_sentinel(t) {
        None
    } else {
        micro_from_text(t)
    }
}

/// The fallback location label.
pub open spec fn unknown_label() -> Seq<char> {
    seq!['U', 'n', 'k', 'n', 'o', 'w', 'n']
}

/// Trailing tokens folded into one metadata string: the first token
/// as it stands, every later token appended together with a trailing
/// space.
pub open spec fn meta_join(ts: Seq<Seq<char>>) -> Seq<char>
    decreases ts.len(),
{
    if ts.len() == 0 {
        Seq::<char>::empty()
    } else if ts.len() == 1 {
        ts[0]
    } else {
        meta_join(ts.drop_last()) + ts.last() + seq![' ']
    }
}

/// Location label and metadata from the tokens that follow the
/// magnitudes.  The rule is deterministic: no token leaves the label
/// `Unknown` and empty metadata; one token is the label; with exactly
/// two the second becomes metadata; with three or more the first two
/// form the label and the rest are joined into metadata.
pub open spec fn loc_meta(rest: Seq<Seq<char>>) -> (Seq<char>, Seq<char>) {
    if rest.len() == 0 {
        (unknown_label(), Seq::<char>::empty())
    } else if rest.len() == 1 {
        (rest[0], Seq::<char>::empty())
    } else if rest.len() == 2 {
        (rest[0], rest[1])
    } else {
        (rest[0] + seq![' '] + rest[1], meta_join(rest.skip(2)))
    }
}

/// The whole line grammar: `None` when a required field (date, time,
/// latitude, longitude, local magnitude) is missing or fails its
/// numeric parse, otherwise the parsed record.
pub open spec fn line_rec(line: Seq<char>) -> Option<QuakeRec> {
    let ts = tokens_of(line);
    if ts.len() >= 7 && micro_from_text(ts[2]) is Some && micro_from_text(ts[3]) is Some
        && micro_from_text(ts[6]) is Some {
        let rest = if ts.len() >= 8 {
            ts.skip(8)
        } else {
            Seq::<Seq<char>>::empty()
        };
        let lm = loc_meta(rest);
        Some(
            QuakeRec {
                date: ts[0],
                time: ts[1],
                lat: micro_from_text(ts[2])->Some_0,
                lon: micro_from_text(ts[3])->Some_0,
                depth: micro_from_text(ts[4]),
                md: mag_token(ts[5]),
                ml: micro_from_text(ts[6])->Some_0,
                mw: if ts.len() >= 8 {
                    mag_token(ts[7])
                } else {
                    None
                },
                location: lm.0,
                metadata: lm.1,
            },
        )
    } else {
        None
    }
}

/// Parse failure: a single opaque kind, whatever the cause.
#[derive(Debug)]
pub struct ParseError;

impl UnitType for ParseError {
    fn unit_create() -> Self {
        ParseError
    }
}

/// Two records name the same event exactly when date, time and
/// coordinate agree; magnitudes and labels play no part.
pub open spec fn same_event(a: QuakeRec, b: QuakeRec) -> bool {
    a.date == b.date && a.time == b.time && a.lat == b.lat && a.lon == b.lon
}

/// The identity relation holds of every record and itself.
pub proof fn lemma_same_event_reflexive(a: QuakeRec)
    ensures
        same_event(a, a),
{
}

/// The identity relation does not depend on the order of its sides.
pub proof fn lemma_same_event_symmetric(a: QuakeRec, b: QuakeRec)
    ensures
        same_event(a, b) == same_event(b, a),
{
}

/// A line whose required fields are all present and numeric parses,
/// and its numeric fields carry the tokens' exact values.
pub proof fn lemma_required_fields_parse(line: Seq<char>)
    requires
        tokens_of(line).len() >= 7,
        micro_from_text(tokens_of(line)[2]) is Some,
        micro_from_text(tokens_of(line)[3]) is Some,
        micro_from_text(tokens_of(line)[6]) is Some,
    ensures
        line_rec(line) is Some,
        line_rec(line)->Some_0.date == tokens_of(line)[0],
        line_rec(line)->Some_0.time == tokens_of(line)[1],
        line_rec(line)->Some_0.lat == micro_from_text(tokens_of(line)[2])->Some_0,
        line_rec(line)->Some_0.lon == micro_from_text(tokens_of(line)[3])->Some_0,
        line_rec(line)->Some_0.depth == micro_from_text(tokens_of(line)[4]),
        line_rec(line)->Some_0.md == mag_token(tokens_of(line)[5]),
        line_rec(line)->Some_0.ml == micro_from_text(tokens_of(line)[6])->Some_0,
{
}

/// A line missing the local-magnitude token, or carrying one that is
/// no numeral, fails the parse with the single uniform error, whatever
/// the other fields hold.
pub proof fn lemma_local_magnitude_required(line: Seq<char>)
    requires
        tokens_of(line).len() < 7 || micro_from_text(tokens_of(line)[6]) is None,
    ensures
        line_rec(line) is None,
{
}

impl QuakeMag {
    /// The reading all decisions use: the mandatory local-scale one.
    pub fn get_main(&self) -> (r: i64)
        ensures
            r == self.ml,
    {
        self.ml
    }

    /// Reads an optional magnitude token, mapping the sentinel to an
    /// absent value before the numeric parse.
    fn parse_mag(s: &str) -> (r: Option<i64>)
        ensures
            match r {
                Some(v) => mag_token(s@) == Some(v as int),
                None => mag_token(s@) is None,
            },
    {
        if s.unicode_len() == 3 && s.get_char(0) == '_' && s.get_char(1) == '.' && s.get_char(2)
            == '_' {
            return None;
        }
        parse_micro(s)
    }
}

impl Clone for QuakeData {
    fn clone(&self) -> (r: Self)
        ensures
            r@ == self@,
    {
        let r = QuakeData {
            date: self.date.clone(),
            time: self.time.clone(),
            coord: self.coord,
            depth: self.depth,
            magnitude: self.magnitude,
            location: self.location.clone(),
            metadata: self.metadata.clone(),
        };
        proof {
            assert(r@ =~= self@);
        }
        r
    }
}

impl QuakeData {
    /// Whether `self` and `other` report the same event.
    pub fn same_instance(&self, other: &Self) -> (r: bool)
        ensures
            r == same_event(self@, other@),
    {
        let date_eq = self.date == other.date;
        let time_eq = self.time == other.time;
        let coord_eq = self.coord == other.coord;

        date_eq && time_eq && coord_eq
    }

    /// Parses one bulletin line, exactly as `line_rec` reads it.
    pub fn from_str(line: &str) -> (r: Result<QuakeData, ParseError>)
        ensures
            match r {
                Ok(q) => line_rec(line@) == Some(q@),
                Err(_) => line_rec(line@) is None,
            },
    {
        let toks = split_tokens(line);
        let ghost ts = tokens_of(line@);

        if toks.len() < 7 {
            return Err(ParseError);
        }
        let lat = match parse_micro(toks[2].as_str()) {
            Some(v) => v,
            None => {
                return Err(ParseError);
            },
        };
        let lon = match parse_micro(toks[3].as_str()) {
            Some(v) => v,
            None => {
                return Err(ParseError);
            },
        };
        let ml = match parse_micro(toks[6].as_str()) {
            Some(v) => v,
            None => {
                return Err(ParseError);
            },
        };
        let depth = parse_micro(toks[4].as_str());
        let md = QuakeMag::parse_mag(toks[5].as_str());
        let mw = if toks.len() > 7 {
            QuakeMag::parse_mag(toks[7].as_str())
        } else {
            None
        };
        let date = toks[0].clone();
        let time = toks[1].clone();

        let ghost rest = if ts.len() >= 8 {
            ts.skip(8)
        } else {
            Seq::<Seq<char>>::empty()
        };
        let nrest = if toks.len() > 8 {
            toks.len() - 8
        } else {
            0
        };
        proof {
            if ts.len() >= 8 {
                assert(forall|j: int| 0 <= j < rest.len() ==> rest[j] == ts[8 + j]);
            }
        }
        let (location, metadata) = if nrest == 0 {
            let loc = "Unknown".to_owned();
            proof {
                reveal_strlit("Unknown");
                assert(loc@ =~= unknown_label());
            }
            (loc, String::new())
        } else if nrest == 1 {
            (toks[8].clone(), String::new())
        } else if nrest == 2 {
            (toks[8].clone(), toks[9].clone())
        } else {
            let mut loc = toks[8].clone();
            loc.append(" ");
            loc.append(toks[9].as_str());
            proof {
                reveal_strlit(" ");
                assert(" "@ =~= seq![' ']);
                assert(loc@ =~= rest[0] + seq![' '] + rest[1]);
            }
            let ghost meta_toks = rest.skip(2);
            proof {
                assert(forall|j: int| 0 <= j < meta_toks.len() ==> meta_toks[j] == ts[10 + j]);
            }
            let mut meta = toks[10].clone();
            proof {
                assert(meta_toks.take(1) =~= seq![meta_toks[0]]);
                assert(meta@ == meta_join(meta_toks.take(1)));
            }
            let mut i: usize = 11;
            while i < toks.len()
                invariant
                    11 <= i <= toks@.len(),
                    views(toks@) == ts,
                    ts.len() > 10,
                    meta_toks == ts.skip(10),
                    forall|j: int| 0 <= j < meta_toks.len() ==> meta_toks[j] == ts[10 + j],
                    meta@ == meta_join(meta_toks.take(i - 10)),
                decreases toks@.len() - i,
            {
                meta.append(toks[i].as_str());
                meta.append(" ");
                proof {
                    reveal_strlit(" ");
                    assert(" "@ =~= seq![' ']);
                    let pre = meta_toks.take(i - 10);
                    let cur = meta_toks.take(i - 10 + 1);
                    assert(cur.drop_last() =~= pre);
                    assert(cur.last() == meta_toks[i - 10]);
                    assert(meta_toks[i - 10] == ts[i as int]);
                }
                i += 1;
            }
            proof {
                assert(meta_toks.take(meta_toks.len() as int) =~= meta_toks);
                assert(meta_toks =~= rest.skip(2));
            }
            (loc, meta)
        };

        let q = QuakeData {
            date,
            time,
            coord: Coord { latitude: lat, longitude: lon },
            depth,
            magnitude: QuakeMag { md, ml, mw },
            location,
            metadata,
        };
        proof {
            assert(q@ =~= line_rec(line@)->Some_0);
        }
        Ok(q)
    }
}

/// Whether a line opens the bulletin's column-header row.
pub open spec fn starts_header(l: Seq<char>) -> bool {
    l.len() >= 5 && l[0] == 'T' && l[1] == 'a' && l[2] == 'r' && l[3] == 'i' && l[4] == 'h'
}

/// Whether a line opens the dash separator under the header.
pub open spec fn starts_dash(l: Seq<char>) -> bool {
    l.len() >= 1 && l[0] == '-'
}

fn is_header_line(l: &str) -> (r: bool)
    ensures
        r == starts_header(l@),
{
    l.unicode_len() >= 5 && l.get_char(0) == 'T' && l.get_char(1) == 'a' && l.get_char(2) == 'r'
        && l.get_char(3) == 'i' && l.get_char(4) == 'h'
}

fn is_dash_line(l: &str) -> (r: bool)
    ensures
        r == starts_dash(l@),
{
    l.unicode_len() >= 1 && l.get_char(0) == '-'
}

/// Index of the first header line at or after `i`, or `ls.len()`.
pub open spec fn header_pos(ls: Seq<Seq<char>>, i: int) -> int
    decreases ls.len() - i,
    when 0 <= i <= ls.len()
{
    if i >= ls.len() {
        ls.len() as int
    } else if starts_header(ls[i]) {
        i
    } else {
        header_pos(ls, i + 1)
    }
}

/// Index of the first dash line at or after `i`, or `ls.len()`.
pub open spec fn dash_pos(ls: Seq<Seq<char>>, i: int) -> int
    decreases ls.len() - i,
    when 0 <= i <= ls.len()
{
    if i >= ls.len() {
        ls.len() as int
    } else if starts_dash(ls[i]) {
        i
    } else {
        dash_pos(ls, i + 1)
    }
}

proof fn lemma_header_pos_at(ls: Seq<Seq<char>>, i: int, d: int)
    requires
        0 <= i <= d <= ls.len(),
        forall|j: int| i <= j < d ==> !starts_header(ls[j]),
        d == ls.len() || starts_header(ls[d]),
    ensures
        header_pos(ls, i) == d,
    decreases d - i,
{
    if i < d {
        lemma_header_pos_at(ls, i + 1, d);
    }
}

proof fn lemma_dash_pos_at(ls: Seq<Seq<char>>, i: int, d: int)
    requires
        0 <= i <= d <= ls.len(),
        forall|j: int| i <= j < d ==> !starts_dash(ls[j]),
        d == ls.len() || starts_dash(ls[d]),
    ensures
        dash_pos(ls, i) == d,
    decreases d - i,
{
    if i < d {
        lemma_dash_pos_at(ls, i + 1, d);
    }
}

/// The data lines of the bulletin: everything after the first dash
/// line that follows the first header line.  With no such pair, the
/// whole text is preamble and there are no data lines.
pub open spec fn data_lines(ls: Seq<Seq<char>>) -> Seq<Seq<char>> {
    let h = header_pos(ls, 0);
    if h >= ls.len() {
        Seq::<Seq<char>>::empty()
    } else {
        let d = dash_pos(ls, h + 1);
        if d >= ls.len() {
            Seq::<Seq<char>>::empty()
        } else {
            ls.skip(d + 1)
        }
    }
}

/// Records of the data lines from index `i` on, keeping bulletin
/// order and dropping lines that fail to parse.
pub open spec fn records_from(ls: Seq<Seq<char>>, i: int) -> Seq<QuakeRec>
    decreases ls.len() - i,
    when 0 <= i <= ls.len()
{
    if i >= ls.len() {
        Seq::<QuakeRec>::empty()
    } else {
        match line_rec(ls[i]) {
            Some(r) => seq![r] + records_from(ls, i + 1),
            None => records_from(ls, i + 1),
        }
    }
}

/// All records of a raw bulletin text: trim, split into lines, drop
/// the preamble through the header and dash lines, parse what remains.
pub open spec fn bulletin_records(text: Seq<char>) -> Seq<QuakeRec> {
    records_from(data_lines(split_lines(trimmed(text))), 0)
}

/// A bulletin with no header line (or no dash line after it) is all
/// preamble: the output is empty, not an error.
pub proof fn lemma_no_marker_no_records(text: Seq<char>)
    requires
        data_lines(split_lines(trimmed(text))).len() == 0,
    ensures
        bulletin_records(text).len() == 0,
{
}

/// Turns the raw bulletin text into the ordered record sequence that
/// `bulletin_records` describes; unparseable lines are dropped and the
/// feed's (reverse-chronological) order is kept.
pub fn process_quake_data(data: String) -> (r: Vec<QuakeData>)
    ensures
        recs(r@) == bulletin_records(data@),
{
    let t = trim(data.as_str());
    let lines = lines_of(t.as_str());
    let ghost ls = split_lines(trimmed(data@));
    let mut out: Vec<QuakeData> = Vec::new();
    proof {
        assert(recs(out@) =~= Seq::<QuakeRec>::empty());
    }

    let mut h: usize = 0;
    while h < lines.len() && !is_header_line(lines[h].as_str())
        invariant
            h <= lines@.len(),
            views(lines@) == ls,
            forall|j: int| 0 <= j < h ==> !starts_header(ls[j]),
        decreases lines@.len() - h,
    {
        h += 1;
    }
    proof {
        lemma_header_pos_at(ls, 0, h as int);
    }
    if h == lines.len() {
        return out;
    }

    let mut d0: usize = h + 1;
    while d0 < lines.len() && !is_dash_line(lines[d0].as_str())
        invariant
            h + 1 <= d0 <= lines@.len(),
            views(lines@) == ls,
            forall|j: int| h + 1 <= j < d0 ==> !starts_dash(ls[j]),
        decreases lines@.len() - d0,
    {
        d0 += 1;
    }
    proof {
        lemma_dash_pos_at(ls, h + 1, d0 as int);
    }
    if d0 == lines.len() {
        return out;
    }

    let ghost dl = ls.skip(d0 + 1);
    proof {
        assert(data_lines(ls) == dl);
        assert(forall|j: int| 0 <= j < dl.len() ==> dl[j] == ls[d0 + 1 + j]);
    }
    let mut i: usize = d0 + 1;
    while i < lines.len()
        invariant
            d0 + 1 <= i <= lines@.len(),
            views(lines@) == ls,
            dl == ls.skip(d0 + 1),
            d0 + 1 <= ls.len(),
            forall|j: int| 0 <= j < dl.len() ==> dl[j] == ls[d0 + 1 + j],
            records_from(dl, 0) == recs(out@) + records_from(dl, i - (d0 + 1)),
        decreases lines@.len() - i,
    {
        let ghost j = i - (d0 + 1);
        proof {
            assert(dl[j as int] == ls[i as int]);
        }
        match QuakeData::from_str(lines[i].as_str()) {
            Ok(q) => {
                proof {
                    assert(recs(out@.push(q)) =~= recs(out@) + seq![q@]);
                    assert((recs(out@) + seq![q@]) + records_from(dl, j + 1) =~= recs(out@) + (
                    seq![q@] + records_from(dl, j + 1)));
                }
                out.push(q);
            },
            Err(_) => {},
        }
        i += 1;
    }
    proof {
        assert(records_from(dl, i - (d0 + 1)) =~= Seq::<QuakeRec>::empty());
        assert(recs(out@) + Seq::<QuakeRec>::empty() =~= recs(out@));
    }
    out
}

} // verus!
