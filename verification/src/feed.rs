//! Records of the transit feed and the validator that screens them.
//!
//! One row of the feed's CSV dump describes one vehicle observation. The
//! validator accepts a record only if its route label carries information
//! (present, and not the feed's "None" placeholder) and, in the stricter
//! configuration, its coordinates lie within a loose tolerance of the
//! service area — a sanity bound against corrupt rows, not a geofence.

use vstd::prelude::*;

use crate::Config;
use crate::csvtext::{
    parse_fields, parse_fields_exec, parse_udeg, parse_udeg_exec, split_lines, split_lines_exec,
    views_of,
};
use crate::text::{chars_eq_str, chars_of, string_from_chars};

verus! {

/// Reference latitude of the service area, in microdegrees (about 52 N).
pub const REF_LAT_UDEG: i64 = 52_000_000;

/// Reference longitude of the service area, in microdegrees (about 16 E).
pub const REF_LON_UDEG: i64 = 16_000_000;

/// How far a coordinate may stray from the reference and still be plausible.
pub const COORD_TOL_UDEG: i64 = 10_000_000;

/// Why a tick produced no data: the transport failed outright, or the
/// response's structure was not a usable CSV table. Either aborts only the
/// current tick; single malformed rows are dropped without any error.
#[derive(Clone, Copy, PartialEq, Eq, Structural, Debug)]
pub enum FeedError {
    /// Connection failure, non-success status, or a body that could not be
    /// read.
    Network,
    /// Malformed CSV structure or a header missing a required column.
    Decode,
}

/// Mathematical content of one decoded feed row.
pub struct FeedRecordView {
    pub id: Seq<char>,
    pub fleet_number: Seq<char>,
    pub registration_number: Seq<char>,
    pub brigade: Seq<char>,
    pub line_name: Seq<char>,
    pub latitude_udeg: i64,
    pub longitude_udeg: i64,
    pub last_update: Seq<char>,
}

/// One decoded feed row: the fields as the feed provides them, with the
/// coordinates scaled to integer microdegrees. Only the id, route label and
/// coordinates take part in the core logic; the rest is passed through.
#[derive(Debug, Clone)]
pub struct MpkPosition {
    pub id: String,
    pub fleet_number: String,
    pub registration_number: String,
    pub brigade: String,
    pub line_name: String,
    pub latitude_udeg: i64,
    pub longitude_udeg: i64,
    pub last_update: String,
}

impl View for MpkPosition {
    type V = FeedRecordView;

    open spec fn view(&self) -> FeedRecordView {
        FeedRecordView {
            id: self.id@,
            fleet_number: self.fleet_number@,
            registration_number: self.registration_number@,
            brigade: self.brigade@,
            line_name: self.line_name@,
            latitude_udeg: self.latitude_udeg,
            longitude_udeg: self.longitude_udeg,
            last_update: self.last_update@,
        }
    }
}

/// The route label carries information: non-empty and not the feed's
/// placeholder for an unknown route.
pub open spec fn spec_label_ok(line_name: Seq<char>) -> bool {
    line_name != "None"@ && line_name.len() > 0
}

/// The coordinates lie strictly within the service-area tolerance.
pub open spec fn spec_coords_ok(lat_udeg: i64, lon_udeg: i64) -> bool {
    &&& REF_LAT_UDEG - COORD_TOL_UDEG < lat_udeg < REF_LAT_UDEG + COORD_TOL_UDEG
    &&& REF_LON_UDEG - COORD_TOL_UDEG < lon_udeg < REF_LON_UDEG + COORD_TOL_UDEG
}

/// What the validator accepts: a usable route label, and plausible
/// coordinates whenever the configuration asks for the coordinate check.
pub open spec fn spec_sane(r: FeedRecordView, config: Config) -> bool {
    &&& spec_label_ok(r.line_name)
    &&& config.check_coordinates ==> spec_coords_ok(r.latitude_udeg, r.longitude_udeg)
}

impl MpkPosition {
    /// Does this record even make sense: the validator's pure predicate.
    pub fn sane(&self, config: &Config) -> (r: bool)
        ensures
            r == spec_sane(self@, *config),
    {
        let label_ok = !crate::text::str_eq(self.line_name.as_str(), "None")
            && self.line_name.as_str().unicode_len() > 0;
        if !label_ok {
            return false;
        }
        if config.check_coordinates {
            let lat_ok = REF_LAT_UDEG - COORD_TOL_UDEG < self.latitude_udeg
                && self.latitude_udeg < REF_LAT_UDEG + COORD_TOL_UDEG;
            let lon_ok = REF_LON_UDEG - COORD_TOL_UDEG < self.longitude_udeg
                && self.longitude_udeg < REF_LON_UDEG + COORD_TOL_UDEG;
            lat_ok && lon_ok
        } else {
            true
        }
    }
}

/// The records of a batch that the validator accepts, in their feed order.
pub open spec fn spec_filter_sane(rs: Seq<FeedRecordView>, config: Config) -> Seq<FeedRecordView> {
    rs.filter(|r: FeedRecordView| spec_sane(r, config))
}

/// Keep exactly the records the validator accepts, preserving their order.
pub fn filter_sane(batch: &Vec<MpkPosition>, config: &Config) -> (r: Vec<MpkPosition>)
    ensures
        r@.map_values(|p: MpkPosition| p@)
            == spec_filter_sane(batch@.map_values(|p: MpkPosition| p@), *config),
{
    let ghost all: Seq<FeedRecordView> = batch@.map_values(|p: MpkPosition| p@);
    let mut out: Vec<MpkPosition> = Vec::new();
    let n = batch.len();
    for k in 0..n
        invariant
            n == batch.len(),
            all == batch@.map_values(|p: MpkPosition| p@),
            out@.map_values(|p: MpkPosition| p@)
                =~= all.subrange(0, k as int).filter(|r: FeedRecordView| spec_sane(r, *config)),
    {
        proof {
            reveal(Seq::filter);
            assert(all.subrange(0, k + 1).drop_last() =~= all.subrange(0, k as int));
            assert(all.subrange(0, k + 1).last() == all[k as int]);
        }
        if batch[k].sane(config) {
            out.push(clone_record(&batch[k]));
        }
        proof {
            assert(out@.map_values(|p: MpkPosition| p@)
                =~= all.subrange(0, k + 1).filter(|r: FeedRecordView| spec_sane(r, *config)));
        }
    }
    proof {
        assert(all.subrange(0, n as int) =~= all);
    }
    out
}

/// A copy of one record, field by field.
fn clone_record(p: &MpkPosition) -> (r: MpkPosition)
    ensures
        r@ == p@,
{
    MpkPosition {
        id: p.id.clone(),
        fleet_number: p.fleet_number.clone(),
        registration_number: p.registration_number.clone(),
        brigade: p.brigade.clone(),
        line_name: p.line_name.clone(),
        latitude_udeg: p.latitude_udeg,
        longitude_udeg: p.longitude_udeg,
        last_update: p.last_update.clone(),
    }
}

/// First position of a field named `name` in the header, if any.
pub open spec fn find_col(hdr: Seq<Seq<char>>, name: Seq<char>) -> Option<int>
    decreases hdr.len(),
{
    if hdr.len() == 0 {
        Option::None
    } else if hdr[0] == name {
        Option::Some(0)
    } else {
        match find_col(hdr.drop_first(), name) {
            Option::Some(j) => Option::Some(j + 1),
            Option::None => Option::None,
        }
    }
}

/// `find_col` finds exactly the first occurrence, or nothing when the name
/// does not occur.
pub proof fn lemma_find_col(hdr: Seq<Seq<char>>, name: Seq<char>)
    ensures
        match find_col(hdr, name) {
            Option::Some(j) => 0 <= j < hdr.len() && hdr[j] == name && (forall|t: int|
                0 <= t < j ==> (#[trigger] hdr[t]) != name),
            Option::None => forall|t: int| 0 <= t < hdr.len() ==> (#[trigger] hdr[t]) != name,
        },
    decreases hdr.len(),
{
    if hdr.len() > 0 && hdr[0] != name {
        let hd = hdr.drop_first();
        lemma_find_col(hd, name);
        match find_col(hd, name) {
            Option::Some(j) => {
                assert(hd[j] == hdr[j + 1]);
                assert forall|t: int| 0 <= t < j + 1 implies (#[trigger] hdr[t]) != name by {
                    if t > 0 {
                        assert(hd[t - 1] == hdr[t]);
                    }
                }
            },
            Option::None => {
                assert forall|t: int| 0 <= t < hdr.len() implies (#[trigger] hdr[t]) != name by {
                    if t > 0 {
                        assert(hd[t - 1] == hdr[t]);
                    }
                }
            },
        }
    }
}

/// The header names the feed publishes, one for each record field.
pub open spec fn spec_header_ok(hdr: Seq<Seq<char>>) -> bool {
    &&& find_col(hdr, "_id"@) is Some
    &&& find_col(hdr, "Nr_Boczny"@) is Some
    &&& find_col(hdr, "Nr_Rej"@) is Some
    &&& find_col(hdr, "Brygada"@) is Some
    &&& find_col(hdr, "Nazwa_Linii"@) is Some
    &&& find_col(hdr, "Ostatnia_Pozycja_Szerokosc"@) is Some
    &&& find_col(hdr, "Ostatnia_Pozycja_Dlugosc"@) is Some
    &&& find_col(hdr, "Data_Aktualizacji"@) is Some
}

/// What one row of the table decodes to, under a usable header: nothing if
/// the row is ragged (its width differs from the header's) or if either
/// coordinate is not a decimal number; otherwise the record, with each
/// field read from the column the header names.
pub open spec fn rec_of_row(hdr: Seq<Seq<char>>, row: Seq<Seq<char>>) -> Option<FeedRecordView> {
    if row.len() != hdr.len() {
        Option::None
    } else {
        let lat = parse_udeg(row[find_col(hdr, "Ostatnia_Pozycja_Szerokosc"@)->Some_0]);
        let lon = parse_udeg(row[find_col(hdr, "Ostatnia_Pozycja_Dlugosc"@)->Some_0]);
        match (lat, lon) {
            (Option::Some(la), Option::Some(lo)) => Option::Some(
                (FeedRecordView {
                    id: row[find_col(hdr, "_id"@)->Some_0],
                    fleet_number: row[find_col(hdr, "Nr_Boczny"@)->Some_0],
                    registration_number: row[find_col(hdr, "Nr_Rej"@)->Some_0],
                    brigade: row[find_col(hdr, "Brygada"@)->Some_0],
                    line_name: row[find_col(hdr, "Nazwa_Linii"@)->Some_0],
                    latitude_udeg: la as i64,
                    longitude_udeg: lo as i64,
                    last_update: row[find_col(hdr, "Data_Aktualizacji"@)->Some_0],
                }),
            ),
            _ => Option::None,
        }
    }
}

/// The records of the table's rows, in order; a row that does not parse
/// is skipped and decodes to nothing.
pub open spec fn decode_rows(hdr: Seq<Seq<char>>, rows: Seq<Seq<char>>) -> Seq<FeedRecordView>
    decreases rows.len(),
{
    if rows.len() == 0 {
        Seq::empty()
    } else {
        let rest = decode_rows(hdr, rows.drop_first());
        match parse_fields(rows[0]) {
            Option::None => rest,
            Option::Some(fs) => match rec_of_row(hdr, fs) {
                Option::None => rest,
                Option::Some(r) => seq![r] + rest,
            },
        }
    }
}

/// What a feed body decodes to: the records of all well-formed rows after
/// the header, in feed order; or a decode error when the body has no
/// lines, the header line itself does not parse, or the header lacks a
/// required column.
pub open spec fn spec_decode_feed(s: Seq<char>) -> Result<Seq<FeedRecordView>, FeedError> {
    let lines = split_lines(s);
    if lines.len() == 0 {
        Result::Err(FeedError::Decode)
    } else {
        match parse_fields(lines[0]) {
            Option::None => Result::Err(FeedError::Decode),
            Option::Some(hdr) => {
                if spec_header_ok(hdr) {
                    Result::Ok(decode_rows(hdr, lines.drop_first()))
                } else {
                    Result::Err(FeedError::Decode)
                }
            },
        }
    }
}

/// Positions of the record fields within a row, as the header places them.
pub struct Columns {
    pub id: usize,
    pub fleet_number: usize,
    pub registration_number: usize,
    pub brigade: usize,
    pub line_name: usize,
    pub latitude: usize,
    pub longitude: usize,
    pub last_update: usize,
    pub width: usize,
}

/// The columns agree with the header.
pub open spec fn cols_match(c: Columns, hdr: Seq<Seq<char>>) -> bool {
    &&& c.width == hdr.len()
    &&& find_col(hdr, "_id"@) == Option::Some(c.id as int)
    &&& find_col(hdr, "Nr_Boczny"@) == Option::Some(c.fleet_number as int)
    &&& find_col(hdr, "Nr_Rej"@) == Option::Some(c.registration_number as int)
    &&& find_col(hdr, "Brygada"@) == Option::Some(c.brigade as int)
    &&& find_col(hdr, "Nazwa_Linii"@) == Option::Some(c.line_name as int)
    &&& find_col(hdr, "Ostatnia_Pozycja_Szerokosc"@) == Option::Some(c.latitude as int)
    &&& find_col(hdr, "Ostatnia_Pozycja_Dlugosc"@) == Option::Some(c.longitude as int)
    &&& find_col(hdr, "Data_Aktualizacji"@) == Option::Some(c.last_update as int)
}

/// Position of the field named `name`, if the header has one.
fn find_col_exec(hdr: &Vec<Vec<char>>, name: &str) -> (r: Option<usize>)
    ensures
        match r {
            Option::Some(i) => find_col(views_of(hdr@), name@) == Option::Some(i as int),
            Option::None => find_col(views_of(hdr@), name@) == Option::<int>::None,
        },
{
    let n = hdr.len();
    for t in 0..n
        invariant
            n == hdr.len(),
            forall|u: int| 0 <= u < t ==> (#[trigger] views_of(hdr@)[u]) != name@,
    {
        if chars_eq_str(&hdr[t], name) {
            proof {
                assert(views_of(hdr@)[t as int] == name@);
                lemma_find_col(views_of(hdr@), name@);
            }
            return Option::Some(t);
        }
        proof {
            assert(views_of(hdr@)[t as int] == hdr@[t as int]@);
        }
    }
    proof {
        lemma_find_col(views_of(hdr@), name@);
    }
    Option::None
}

/// Locate every record field in the header, or report the header unusable.
fn find_columns(hdr: &Vec<Vec<char>>) -> (r: Option<Columns>)
    ensures
        match r {
            Option::Some(c) => spec_header_ok(views_of(hdr@)) && cols_match(c, views_of(hdr@)),
            Option::None => !spec_header_ok(views_of(hdr@)),
        },
{
    let id = match find_col_exec(hdr, "_id") {
        Option::Some(i) => i,
        Option::None => {
            return Option::None;
        },
    };
    let fleet_number = match find_col_exec(hdr, "Nr_Boczny") {
        Option::Some(i) => i,
        Option::None => {
            return Option::None;
        },
    };
    let registration_number = match find_col_exec(hdr, "Nr_Rej") {
        Option::Some(i) => i,
        Option::None => {
            return Option::None;
        },
    };
    let brigade = match find_col_exec(hdr, "Brygada") {
        Option::Some(i) => i,
        Option::None => {
            return Option::None;
        },
    };
    let line_name = match find_col_exec(hdr, "Nazwa_Linii") {
        Option::Some(i) => i,
        Option::None => {
            return Option::None;
        },
    };
    let latitude = match find_col_exec(hdr, "Ostatnia_Pozycja_Szerokosc") {
        Option::Some(i) => i,
        Option::None => {
            return Option::None;
        },
    };
    let longitude = match find_col_exec(hdr, "Ostatnia_Pozycja_Dlugosc") {
        Option::Some(i) => i,
        Option::None => {
            return Option::None;
        },
    };
    let last_update = match find_col_exec(hdr, "Data_Aktualizacji") {
        Option::Some(i) => i,
        Option::None => {
            return Option::None;
        },
    };
    Option::Some(
        Columns {
            id,
            fleet_number,
            registration_number,
            brigade,
            line_name,
            latitude,
            longitude,
            last_update,
            width: hdr.len(),
        },
    )
}

/// Assemble one record from a row, reading each field from its column.
fn build_record(cols: &Columns, fields: &Vec<Vec<char>>, Ghost(hdr): Ghost<Seq<Seq<char>>>) -> (r:
    Option<MpkPosition>)
    requires
        spec_header_ok(hdr),
        cols_match(*cols, hdr),
    ensures
        match r {
            Option::Some(p) => rec_of_row(hdr, views_of(fields@)) == Option::Some(p@),
            Option::None => rec_of_row(hdr, views_of(fields@)) == Option::<FeedRecordView>::None,
        },
{
    if fields.len() != cols.width {
        return Option::None;
    }
    proof {
        lemma_find_col(hdr, "_id"@);
        lemma_find_col(hdr, "Nr_Boczny"@);
        lemma_find_col(hdr, "Nr_Rej"@);
        lemma_find_col(hdr, "Brygada"@);
        lemma_find_col(hdr, "Nazwa_Linii"@);
        lemma_find_col(hdr, "Ostatnia_Pozycja_Szerokosc"@);
        lemma_find_col(hdr, "Ostatnia_Pozycja_Dlugosc"@);
        lemma_find_col(hdr, "Data_Aktualizacji"@);
    }
    let lat = match parse_udeg_exec(&fields[cols.latitude]) {
        Option::Some(v) => v,
        Option::None => {
            return Option::None;
        },
    };
    let lon = match parse_udeg_exec(&fields[cols.longitude]) {
        Option::Some(v) => v,
        Option::None => {
            return Option::None;
        },
    };
    Option::Some(
        MpkPosition {
            id: string_from_chars(&fields[cols.id]),
            fleet_number: string_from_chars(&fields[cols.fleet_number]),
            registration_number: string_from_chars(&fields[cols.registration_number]),
            brigade: string_from_chars(&fields[cols.brigade]),
            line_name: string_from_chars(&fields[cols.line_name]),
            latitude_udeg: lat,
            longitude_udeg: lon,
            last_update: string_from_chars(&fields[cols.last_update]),
        },
    )
}

/// Pushing onto a record vector pushes the view.
proof fn lemma_recs_push(vs: Seq<MpkPosition>, p: MpkPosition)
    ensures
        (vs.push(p)).map_values(|q: MpkPosition| q@) =~= vs.map_values(|q: MpkPosition| q@).push(
            p@,
        ),
{
    assert forall|i: int| #![trigger vs.push(p)[i]] 0 <= i < vs.len() + 1
        implies (vs.push(p)).map_values(|q: MpkPosition| q@)[i]
            == vs.map_values(|q: MpkPosition| q@).push(p@)[i] by {
        if i < vs.len() {
            assert(vs.push(p)[i] == vs[i]);
        } else {
            assert(vs.push(p)[i] == p);
        }
    }
}

/// Decode a feed body: split it into lines, read the header, and decode
/// every following row that parses, skipping the rows that do not.
pub fn decode_feed(body: &str) -> (r: Result<Vec<MpkPosition>, FeedError>)
    ensures
        match r {
            Result::Ok(v) => spec_decode_feed(body@) == Result::<
                Seq<FeedRecordView>,
                FeedError,
            >::Ok(v@.map_values(|p: MpkPosition| p@)),
            Result::Err(e) => spec_decode_feed(body@) == Result::<
                Seq<FeedRecordView>,
                FeedError,
            >::Err(e),
        },
{
    let chars = chars_of(body);
    let lines = split_lines_exec(&chars);
    let ghost lv: Seq<Seq<char>> = views_of(lines@);
    if lines.len() == 0 {
        return Result::Err(FeedError::Decode);
    }
    let hdr: Vec<Vec<char>> = match parse_fields_exec(&lines[0]) {
        Option::None => {
            proof {
                assert(lv[0] == lines@[0]@);
            }
            return Result::Err(FeedError::Decode);
        },
        Option::Some(h) => h,
    };
    let ghost hv: Seq<Seq<char>> = views_of(hdr@);
    proof {
        assert(lv[0] == lines@[0]@);
        assert(parse_fields(lv[0]) == Option::Some(hv));
    }
    let cols = match find_columns(&hdr) {
        Option::None => {
            return Result::Err(FeedError::Decode);
        },
        Option::Some(c) => c,
    };
    let mut out: Vec<MpkPosition> = Vec::new();
    let n = lines.len();
    proof {
        assert(out@.map_values(|p: MpkPosition| p@) =~= Seq::<FeedRecordView>::empty());
        assert(Seq::<FeedRecordView>::empty() + decode_rows(hv, lv.skip(1))
            =~= decode_rows(hv, lv.skip(1)));
    }
    for i in 1..n
        invariant
            n == lines.len(),
            1 <= i <= n,
            lv == views_of(lines@),
            spec_header_ok(hv),
            cols_match(cols, hv),
            decode_rows(hv, lv.skip(1)) == out@.map_values(|p: MpkPosition| p@) + decode_rows(
                hv,
                lv.skip(i as int),
            ),
    {
        proof {
            assert(lv.skip(i as int)[0] == lv[i as int]);
            assert(lv[i as int] == lines@[i as int]@);
            assert(lv.skip(i as int).drop_first() =~= lv.skip(i + 1));
        }
        let ghost before: Seq<FeedRecordView> = out@.map_values(|p: MpkPosition| p@);
        let ghost mut skipped: bool = true;
        match parse_fields_exec(&lines[i]) {
            Option::None => {},
            Option::Some(fs) => {
                match build_record(&cols, &fs, Ghost(hv)) {
                    Option::None => {},
                    Option::Some(p) => {
                        let ghost pv: FeedRecordView = p@;
                        let ghost o0: Seq<MpkPosition> = out@;
                        let ghost pg: MpkPosition = p;
                        out.push(p);
                        proof {
                            skipped = false;
                            lemma_recs_push(o0, pg);
                            assert(out@.map_values(|q: MpkPosition| q@) =~= before.push(pv));
                            assert(decode_rows(hv, lv.skip(i as int)) == seq![pv] + decode_rows(
                                hv,
                                lv.skip(i + 1),
                            ));
                            assert(before.push(pv) =~= before + seq![pv]);
                            assert((before + seq![pv]) + decode_rows(hv, lv.skip(i + 1)) =~= before
                                + (seq![pv] + decode_rows(hv, lv.skip(i + 1))));
                        }
                    },
                }
            },
        }
        proof {
            if skipped {
                assert(decode_rows(hv, lv.skip(i as int)) == decode_rows(hv, lv.skip(i + 1)));
            }
        }
    }
    proof {
        assert(lv.skip(n as int) =~= Seq::<Seq<char>>::empty());
        assert(decode_rows(hv, lv.skip(n as int)) =~= Seq::<FeedRecordView>::empty());
        assert(out@.map_values(|p: MpkPosition| p@) + Seq::<FeedRecordView>::empty()
            =~= out@.map_values(|p: MpkPosition| p@));
        assert(lv.drop_first() =~= lv.skip(1));
        assert(split_lines(body@) == lv);
    }
    Result::Ok(out)
}

/// A record whose route label is empty or the feed's "None" placeholder is
/// rejected, whatever its coordinates and whatever the configuration.
pub proof fn lemma_unknown_label_rejected(r: FeedRecordView, config: Config)
    requires
        r.line_name == "None"@ || r.line_name.len() == 0,
    ensures
        !spec_sane(r, config),
{
}

/// Under the coordinate-checking configuration, a record whose coordinates
/// fall outside the service-area tolerance is rejected even if its route
/// label is valid.
pub proof fn lemma_far_coordinates_rejected(r: FeedRecordView, config: Config)
    requires
        config.check_coordinates,
        !spec_coords_ok(r.latitude_udeg, r.longitude_udeg),
    ensures
        !spec_sane(r, config),
{
}

} // verus!
