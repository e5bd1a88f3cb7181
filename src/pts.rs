//! Lines of the plain-text point list: `x y z intensity r g b`, separated by
//! spaces or commas.
use vstd::prelude::*;

use crate::bytes::{is_space, to_vec};
use crate::number::{parse_unsigned, unsigned_named};

verus! {

pub open spec fn is_separator(b: u8) -> bool {
    b == 32 || b == 44
}

/// The line without leading and trailing white space: `line[a..b]`.
pub open spec fn trimmed_start(s: Seq<u8>, a: int) -> int
    decreases s.len() - a,
{
    if a < s.len() && is_space(s[a]) {
        trimmed_start(s, a + 1)
    } else {
        a
    }
}

pub open spec fn trimmed_end(s: Seq<u8>, a: int, b: int) -> int
    decreases b - a,
{
    if b > a && is_space(s[b - 1]) {
        trimmed_end(s, a, b - 1)
    } else {
        b
    }
}

pub open spec fn trim(s: Seq<u8>) -> Seq<u8> {
    let a = trimmed_start(s, 0);
    s.subrange(a, trimmed_end(s, a, s.len() as int))
}

/// Splits at every separator: `done` holds the finished fields and `cur`
/// the one being read at position `i`.
pub open spec fn fields_from(s: Seq<u8>, i: int, done: Seq<Seq<u8>>, cur: Seq<u8>) -> Seq<Seq<u8>>
    decreases s.len() - i,
{
    if i >= s.len() {
        done.push(cur)
    } else if is_separator(s[i]) {
        fields_from(s, i + 1, done.push(cur), seq![])
    } else {
        fields_from(s, i + 1, done, cur.push(s[i]))
    }
}

/// The fields of a trimmed line; two separators in a row leave an empty field.
pub open spec fn fields(s: Seq<u8>) -> Seq<Seq<u8>> {
    fields_from(trim(s), 0, seq![], seq![])
}

/// A color channel: digits with an optional `+`, at most 255.
pub open spec fn channel_named(t: Seq<u8>) -> Option<nat> {
    let digits = if t.len() > 0 && t[0] == 43 { t.drop_first() } else { t };
    match unsigned_named(digits) {
        Some(v) => if v <= 255 { Some(v) } else { None },
        None => None,
    }
}

fn trim_bounds(s: &[u8]) -> (r: (usize, usize))
    ensures
        r.0 == trimmed_start(s@, 0),
        r.1 == trimmed_end(s@, r.0 as int, s@.len() as int),
        r.0 <= r.1 <= s@.len(),
{
    let mut a: usize = 0;
    while a < s.len() && crate::bytes::is_space_byte(s[a])
        invariant
            0 <= a <= s@.len(),
            trimmed_start(s@, 0) == trimmed_start(s@, a as int),
        decreases s@.len() - a,
    {
        a = a + 1;
    }
    let mut b: usize = s.len();
    while b > a && crate::bytes::is_space_byte(s[b - 1])
        invariant
            a <= b <= s@.len(),
            trimmed_end(s@, a as int, s@.len() as int) == trimmed_end(s@, a as int, b as int),
        decreases b - a,
    {
        b = b - 1;
    }
    (a, b)
}

pub open spec fn fields_view(v: Seq<Vec<u8>>) -> Seq<Seq<u8>> {
    v.map_values(|t: Vec<u8>| t@)
}

/// Splits a trimmed line on spaces and commas.
pub fn split_fields(line: &[u8]) -> (r: Vec<Vec<u8>>)
    ensures
        fields_view(r@) == fields(line@),
{
    let (a, b) = trim_bounds(line);
    let ghost s = trim(line@);
    let mut done: Vec<Vec<u8>> = Vec::new();
    let mut cur: Vec<u8> = Vec::new();
    let mut i: usize = a;
    assert(fields_view(done@) =~= seq![]);
    while i < b
        invariant
            a <= i <= b <= line@.len(),
            s == line@.subrange(a as int, b as int),
            fields(line@) == fields_from(s, i - a, fields_view(done@), cur@),
        decreases b - i,
    {
        let c = line[i];
        assert(s[i - a] == c);
        if c == 32 || c == 44 {
            let ghost before = done@;
            done.push(cur);
            assert(fields_view(done@) =~= fields_view(before).push(cur@));
            cur = Vec::new();
            assert(cur@ =~= seq![]);
        } else {
            cur.push(c);
        }
        i = i + 1;
    }
    let ghost before = done@;
    done.push(cur);
    assert(fields_view(done@) =~= fields_view(before).push(cur@));
    done
}

/// Reads a color channel.
pub fn parse_channel(t: &[u8]) -> (r: Option<u8>)
    ensures
        match channel_named(t@) {
            Some(v) => r == Some(v as u8),
            None => r is None,
        },
{
    let from: usize = if t.len() > 0 && t[0] == 43 { 1 } else { 0 };
    assert(t@.drop_first() =~= t@.subrange(1, t@.len() as int));
    assert(t@ =~= t@.subrange(0, t@.len() as int));
    match parse_unsigned(t, from, 255) {
        Some(v) => Some(v as u8),
        None => None,
    }
}

/// One line of a point list.
#[derive(Debug)]
pub enum PtsLine {
    /// Not seven fields: the line is skipped.
    Skip,
    /// A point: its coordinate fields as written, and its color.
    Point { x: Vec<u8>, y: Vec<u8>, z: Vec<u8>, color: [u8; 3] },
    /// Seven fields, but a color field is not a channel value.
    BadColor,
}

/// Reads one line of a point list.
pub fn parse_pts_line(line: &[u8]) -> (r: PtsLine)
    ensures
        ({
            let f = fields(line@);
            if f.len() != 7 {
                r is Skip
            } else if channel_named(f[4]) is None || channel_named(f[5]) is None
                || channel_named(f[6]) is None {
                r is BadColor
            } else {
                match r {
                    PtsLine::Point { x, y, z, color } => x@ == f[0] && y@ == f[1] && z@ == f[2]
                        && color@[0] == channel_named(f[4])->Some_0 && color@[1] == channel_named(
                        f[5],
                    )->Some_0 && color@[2] == channel_named(f[6])->Some_0,
                    _ => false,
                }
            }
        }),
{
    let f = split_fields(line);
    let ghost fv = fields_view(f@);
    if f.len() != 7 {
        return PtsLine::Skip;
    }
    assert(fv[4] == f@[4]@ && fv[5] == f@[5]@ && fv[6] == f@[6]@);
    assert(fv[0] == f@[0]@ && fv[1] == f@[1]@ && fv[2] == f@[2]@);
    let r = parse_channel(f[4].as_slice());
    let g = parse_channel(f[5].as_slice());
    let b = parse_channel(f[6].as_slice());
    match (r, g, b) {
        (Some(r), Some(g), Some(b)) => PtsLine::Point {
            x: to_vec(f[0].as_slice()),
            y: to_vec(f[1].as_slice()),
            z: to_vec(f[2].as_slice()),
            color: [r, g, b],
        },
        _ => PtsLine::BadColor,
    }
}

} // verus!
