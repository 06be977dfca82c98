//! Line-by-line ingestion of paired observations.
//!
//! A line is valid when it splits on the comma into exactly two fields and
//! both fields are accepted decimal fields; valid lines become observations
//! in file order. Invalid lines are skipped. A skipped line that did have
//! exactly two fields is reported with its 1-based line number, except on
//! the first line, which is tolerated silently as a possible header row.

use vstd::prelude::*;

use crate::num::{field_mant, field_scale, field_valid, scan_field, DecV, Decimal};

verus! {

/// One paired (x, y) data point.
#[derive(Clone, Copy)]
pub struct Observation {
    pub x: Decimal,
    pub y: Decimal,
}

/// Mathematical image of an `Observation`.
pub struct ObsV {
    pub x: DecV,
    pub y: DecV,
}

impl View for Observation {
    type V = ObsV;

    open spec fn view(&self) -> ObsV {
        ObsV { x: self.x@, y: self.y@ }
    }
}

/// The ordered collection of observations parsed from the input.
pub struct Sample {
    pub obs: Vec<Observation>,
}

impl View for Sample {
    type V = Seq<ObsV>;

    open spec fn view(&self) -> Seq<ObsV> {
        self.obs@.map(|i: int, o: Observation| o@)
    }
}

/// `k` is the position of the one and only comma of `s`.
pub open spec fn comma_at(s: Seq<char>, k: int) -> bool {
    &&& 0 <= k < s.len()
    &&& s[k] == ','
    &&& forall|j: int| 0 <= j < s.len() && j != k ==> s[j] != ','
}

/// Splitting `s` on the comma yields exactly two fields.
pub open spec fn two_fields(s: Seq<char>) -> bool {
    exists|k: int| comma_at(s, k)
}

pub open spec fn comma_idx(s: Seq<char>) -> int {
    choose|k: int| comma_at(s, k)
}

pub open spec fn first_field(s: Seq<char>) -> Seq<char> {
    s.subrange(0, comma_idx(s))
}

pub open spec fn second_field(s: Seq<char>) -> Seq<char> {
    s.subrange(comma_idx(s) + 1, s.len() as int)
}

/// The line yields an observation: exactly two fields, both decimal.
pub open spec fn valid_line(s: Seq<char>) -> bool {
    two_fields(s) && field_valid(first_field(s)) && field_valid(second_field(s))
}

/// The x value of a valid line.
pub open spec fn line_x(s: Seq<char>) -> DecV {
    DecV { mant: field_mant(first_field(s)), scale: field_scale(first_field(s)) }
}

/// The y value of a valid line.
pub open spec fn line_y(s: Seq<char>) -> DecV {
    DecV { mant: field_mant(second_field(s)), scale: field_scale(second_field(s)) }
}

/// How one line was read.
pub enum Parsed {
    /// Exactly two fields, both decimal: the observation they carry.
    Valid(Decimal, Decimal),
    /// Exactly two fields, but not both decimal.
    Malformed,
    /// Not exactly two fields.
    Ignored,
}

/// The characters of `s`, one by one.
fn chars_of(s: &str) -> (r: Vec<char>)
    ensures
        r@ == s@,
{
    let n = s.unicode_len();
    let mut v: Vec<char> = Vec::new();
    let mut i: usize = 0;
    while i < n
        invariant
            i <= n == s@.len(),
            v@ == s@.subrange(0, i as int),
        decreases n - i,
    {
        let c = s.get_char(i);
        v.push(c);
        proof {
            assert(s@.subrange(0, i as int).push(s@[i as int]) =~= s@.subrange(0, i + 1));
        }
        i = i + 1;
    }
    proof {
        assert(s@.subrange(0, s@.len() as int) =~= s@);
    }
    v
}

/// Position of the one and only comma of `v`, if there is exactly one.
fn find_comma(v: &Vec<char>) -> (r: Option<usize>)
    ensures
        r matches Some(k) ==> comma_at(v@, k as int),
        r is None ==> !two_fields(v@),
{
    let n = v.len();
    let mut i: usize = 0;
    let mut first: usize = 0;
    let mut found: bool = false;
    while i < n
        invariant
            i <= n == v@.len(),
            !found ==> forall|j: int| 0 <= j < i ==> v@[j] != ',',
            found ==> first < i && v@[first as int] == ','
                && forall|j: int| 0 <= j < i && j != first ==> v@[j] != ',',
        decreases n - i,
    {
        if v[i] == ',' {
            if !found {
                first = i;
                found = true;
            } else {
                proof {
                    assert forall|k: int| !comma_at(v@, k) by {
                        if comma_at(v@, k) {
                            if k == first {
                                assert(v@[i as int] != ',');
                            } else {
                                assert(v@[first as int] != ',');
                            }
                        }
                    }
                }
                return None;
            }
        }
        i = i + 1;
    }
    if found {
        Some(first)
    } else {
        None
    }
}

/// Reads one line, telling a valid observation line from a malformed
/// two-field line and from a line without exactly two fields.
pub fn parse_line(line: &str) -> (r: Parsed)
    ensures
        r is Valid <==> valid_line(line@),
        r matches Parsed::Valid(x, y) ==> x@ == line_x(line@) && y@ == line_y(line@),
        r is Malformed <==> !valid_line(line@) && two_fields(line@),
        r is Ignored <==> !two_fields(line@),
{
    let v = chars_of(line);
    match find_comma(&v) {
        None => Parsed::Ignored,
        Some(k) => {
            proof {
                let k2 = comma_idx(v@);
                assert(comma_at(v@, k as int));
                assert(k < v@.len());
                assert(two_fields(v@));
                assert(comma_at(v@, k2));
                if k2 != k as int {
                    assert(v@[k2] != ',');
                }
                assert(comma_idx(v@) == k as int);
                assert(k + 1 <= v@.len());
            }
            let vlen = v.len();
            let a = scan_field(&v, 0, k);
            let b = scan_field(&v, k + 1, vlen);
            match (a, b) {
                (Some(x), Some(y)) => Parsed::Valid(x, y),
                _ => Parsed::Malformed,
            }
        },
    }
}

/// The line contains valid data: exactly two comma-separated fields that
/// both read as decimal numbers.
pub fn has_valid_data(line: &str) -> (r: bool)
    ensures
        r == valid_line(line@),
{
    let p = parse_line(line);
    match p {
        Parsed::Valid(_, _) => true,
        _ => false,
    }
}

/// The views of a sequence of lines.
pub open spec fn line_views(ls: Seq<String>) -> Seq<Seq<char>> {
    ls.map(|i: int, l: String| l@)
}

/// The observations of the valid lines, in file order.
pub open spec fn spec_sample(ls: Seq<Seq<char>>) -> Seq<ObsV>
    decreases ls.len(),
{
    if ls.len() == 0 {
        Seq::empty()
    } else {
        let front = spec_sample(ls.drop_last());
        if valid_line(ls.last()) {
            front.push(ObsV { x: line_x(ls.last()), y: line_y(ls.last()) })
        } else {
            front
        }
    }
}

/// The 1-based line number `lineno` is reported: the line is skipped, has
/// exactly two fields, and is not the tolerated first line.
pub open spec fn diag_line(l: Seq<char>, lineno: int) -> bool {
    !valid_line(l) && two_fields(l) && lineno != 1
}

/// The reported line numbers, in file order.
pub open spec fn spec_diags(ls: Seq<Seq<char>>) -> Seq<int>
    decreases ls.len(),
{
    if ls.len() == 0 {
        Seq::empty()
    } else {
        let front = spec_diags(ls.drop_last());
        if diag_line(ls.last(), ls.len() as int) {
            front.push(ls.len() as int)
        } else {
            front
        }
    }
}

/// Reads every line: the sample of the valid lines, and the 1-based
/// numbers of the malformed lines that are reported.
pub fn ingest(lines: &Vec<String>) -> (r: (Sample, Vec<usize>))
    ensures
        r.0@ == spec_sample(line_views(lines@)),
        r.1@.map_values(|x: usize| x as int) == spec_diags(line_views(lines@)),
{
    let ghost lv = line_views(lines@);
    let mut obs: Vec<Observation> = Vec::new();
    let mut diags: Vec<usize> = Vec::new();
    let mut i: usize = 0;
    while i < lines.len()
        invariant
            i <= lines.len(),
            lv == line_views(lines@),
            obs@.map(|j: int, o: Observation| o@) == spec_sample(lv.subrange(0, i as int)),
            diags@.map_values(|x: usize| x as int) == spec_diags(lv.subrange(0, i as int)),
        decreases lines.len() - i,
    {
        let line: &String = &lines[i];
        proof {
            assert(lv.subrange(0, i + 1).drop_last() =~= lv.subrange(0, i as int));
            assert(lv.subrange(0, i + 1).last() == line@);
        }
        let ghost old_obs = obs@;
        let ghost old_diags = diags@;
        match parse_line(line.as_str()) {
            Parsed::Valid(x, y) => {
                obs.push(Observation { x, y });
                proof {
                    assert(obs@.map(|j: int, o: Observation| o@) =~= old_obs.map(
                        |j: int, o: Observation| o@,
                    ).push(ObsV { x: line_x(line@), y: line_y(line@) }));
                }
            },
            Parsed::Malformed => {
                if i > 0 {
                    diags.push(i + 1);
                    proof {
                        assert(diags@.map_values(|x: usize| x as int) =~= old_diags.map_values(
                            |x: usize| x as int,
                        ).push(i + 1));
                    }
                }
            },
            Parsed::Ignored => {},
        }
        i = i + 1;
    }
    proof {
        assert(lv.subrange(0, lines@.len() as int) =~= lv);
    }
    (Sample { obs }, diags)
}

} // verus!
