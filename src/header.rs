//! The textual header: `ply`, a format line, element and property
//! declarations, an optional `comment offset:` line and `end_header`.
use vstd::prelude::*;

use crate::bytes::{is_space, is_space_byte, spells, to_vec, token_is};
use crate::number::{float_text, integer_named, is_float_text, parse_i64};
use crate::scalar::{type_named, DataType};

verus! {

/// How the records after the header are encoded.
#[derive(Debug, Clone, Copy, PartialEq, Eq, Structural)]
pub enum Format {
    BinaryLittleEndianV1,
    BinaryBigEndianV1,
    AsciiV1,
}

/// One scalar property of an element.
#[derive(Debug)]
pub struct ScalarProperty {
    pub name: Vec<u8>,
    pub data_type: DataType,
}

/// A declared element: its name, its record count and its scalar properties.
#[derive(Debug)]
pub struct Element {
    pub name: Vec<u8>,
    pub count: i64,
    pub properties: Vec<ScalarProperty>,
}

/// The three numbers of a `comment offset:` line, as written: each is
/// text that reads as a floating-point number.
#[derive(Debug)]
pub struct OffsetText {
    pub x: Vec<u8>,
    pub y: Vec<u8>,
    pub z: Vec<u8>,
}

#[derive(Debug)]
pub struct Header {
    pub format: Format,
    pub elements: Vec<Element>,
    pub offset: Option<OffsetText>,
}

/// Why a header was refused.
#[derive(Debug, Clone, Copy, PartialEq, Eq, Structural)]
pub enum HeaderError {
    /// The first line is not `ply`.
    NotPly,
    /// A format line names a version other than `1.0`.
    InvalidVersion,
    /// A format line names an unknown format.
    InvalidFormat,
    /// An element count is not a 64-bit signed integer.
    InvalidCount,
    /// A property line stands before any element line.
    PropertyOutsideElement,
    /// A property names an unknown scalar type.
    InvalidDataType,
    /// A `comment offset:` value is not a number.
    InvalidOffset,
    /// A line that the grammar does not know.
    InvalidLine,
    /// No format line before `end_header`.
    NoFormat,
    /// The data ends before `end_header`.
    UnexpectedEnd,
}

pub struct PropertyModel {
    pub name: Seq<u8>,
    pub data_type: DataType,
}

pub struct ElementModel {
    pub name: Seq<u8>,
    pub count: int,
    pub properties: Seq<PropertyModel>,
}

pub struct OffsetModel {
    pub x: Seq<u8>,
    pub y: Seq<u8>,
    pub z: Seq<u8>,
}

pub struct HeaderModel {
    pub format: Format,
    pub elements: Seq<ElementModel>,
    pub offset: Option<OffsetModel>,
}

impl View for ScalarProperty {
    type V = PropertyModel;

    open spec fn view(&self) -> PropertyModel {
        PropertyModel { name: self.name@, data_type: self.data_type }
    }
}

impl View for Element {
    type V = ElementModel;

    open spec fn view(&self) -> ElementModel {
        ElementModel {
            name: self.name@,
            count: self.count as int,
            properties: props_view(self.properties@),
        }
    }
}

impl View for OffsetText {
    type V = OffsetModel;

    open spec fn view(&self) -> OffsetModel {
        OffsetModel { x: self.x@, y: self.y@, z: self.z@ }
    }
}

pub open spec fn props_view(p: Seq<ScalarProperty>) -> Seq<PropertyModel> {
    p.map_values(|x: ScalarProperty| x@)
}

pub open spec fn offset_view(o: Option<OffsetText>) -> Option<OffsetModel> {
    match o {
        Some(t) => Some(t@),
        None => None,
    }
}

pub open spec fn elements_view(e: Seq<Element>) -> Seq<ElementModel> {
    e.map_values(|x: Element| x@)
}

impl View for Header {
    type V = HeaderModel;

    open spec fn view(&self) -> HeaderModel {
        HeaderModel {
            format: self.format,
            elements: elements_view(self.elements@),
            offset: offset_view(self.offset),
        }
    }
}

// ---------------------------------------------------------------------
// Lines and tokens

/// End (exclusive) of the line that starts at `i`: just past its `\n`, or
/// the end of the data.
pub open spec fn line_end(d: Seq<u8>, i: int) -> int
    decreases d.len() - i,
{
    if i >= d.len() {
        d.len() as int
    } else if d[i] == 10 {
        i + 1
    } else {
        line_end(d, i + 1)
    }
}

pub proof fn lemma_line_end(d: Seq<u8>, i: int)
    requires
        0 <= i,
    ensures
        i < d.len() ==> i < line_end(d, i),
        line_end(d, i) <= d.len(),
        i <= d.len() ==> i <= line_end(d, i),
    decreases d.len() - i,
{
    if i < d.len() && d[i] != 10 {
        lemma_line_end(d, i + 1);
    }
}

/// Splits on white space: `done` holds the finished words, `cur` the word
/// being read when position `i` is reached.
pub open spec fn words_from(s: Seq<u8>, i: int, done: Seq<Seq<u8>>, cur: Seq<u8>) -> Seq<Seq<u8>>
    decreases s.len() - i,
{
    if i >= s.len() {
        if cur.len() > 0 {
            done.push(cur)
        } else {
            done
        }
    } else if is_space(s[i]) {
        words_from(s, i + 1, if cur.len() > 0 { done.push(cur) } else { done }, seq![])
    } else {
        words_from(s, i + 1, done, cur.push(s[i]))
    }
}

/// The white-space separated words of a line.
pub open spec fn words(s: Seq<u8>) -> Seq<Seq<u8>> {
    words_from(s, 0, seq![], seq![])
}

pub open spec fn words_view(v: Seq<Vec<u8>>) -> Seq<Seq<u8>> {
    v.map_values(|t: Vec<u8>| t@)
}

/// Splits `d[start..end]` into its white-space separated words.
pub fn split_words(d: &[u8], start: usize, end: usize) -> (r: Vec<Vec<u8>>)
    requires
        start <= end <= d@.len(),
    ensures
        words_view(r@) == words(d@.subrange(start as int, end as int)),
{
    let ghost s = d@.subrange(start as int, end as int);
    let mut done: Vec<Vec<u8>> = Vec::new();
    let mut cur: Vec<u8> = Vec::new();
    let mut i: usize = start;
    assert(words_view(done@) =~= seq![]);
    while i < end
        invariant
            start <= i <= end <= d@.len(),
            s == d@.subrange(start as int, end as int),
            words(s) == words_from(s, i - start, words_view(done@), cur@),
        decreases end - i,
    {
        let b = d[i];
        assert(s[i - start] == b);
        if is_space_byte(b) {
            if cur.len() > 0 {
                let ghost before = done@;
                done.push(cur);
                assert(words_view(done@) =~= words_view(before).push(cur@));
            }
            cur = Vec::new();
            assert(cur@ =~= seq![]);
        } else {
            cur.push(b);
        }
        i = i + 1;
    }
    if cur.len() > 0 {
        let ghost before = done@;
        done.push(cur);
        assert(words_view(done@) =~= words_view(before).push(cur@));
    }
    done
}

/// Finds the end of the line that starts at `start`.
pub fn find_line_end(d: &[u8], start: usize) -> (r: usize)
    requires
        start <= d@.len(),
    ensures
        r == line_end(d@, start as int),
{
    let mut j: usize = start;
    while j < d.len()
        invariant
            start <= j <= d@.len(),
            line_end(d@, start as int) == line_end(d@, j as int),
        decreases d@.len() - j,
    {
        if d[j] == 10 {
            return j + 1;
        }
        j = j + 1;
    }
    j
}

// ---------------------------------------------------------------------
// The line grammar

/// What has been read of a header so far.
pub struct ParseState {
    pub format: Option<Format>,
    pub current: Option<ElementModel>,
    pub elements: Seq<ElementModel>,
    pub offset: Option<OffsetModel>,
}

/// What one line does to the state.
pub enum LineOutcome {
    Continue(ParseState),
    Stop(ParseState),
    Fail(HeaderError),
}

pub open spec fn format_named(t: Seq<u8>) -> Option<Format> {
    if spells(t, "ascii"@) {
        Some(Format::AsciiV1)
    } else if spells(t, "binary_little_endian"@) {
        Some(Format::BinaryLittleEndianV1)
    } else if spells(t, "binary_big_endian"@) {
        Some(Format::BinaryBigEndianV1)
    } else {
        None
    }
}

/// The finished elements, with the open one closed.
pub open spec fn flushed(st: ParseState) -> Seq<ElementModel> {
    match st.current {
        Some(e) => st.elements.push(e),
        None => st.elements,
    }
}

pub open spec fn fits_i64(v: int) -> bool {
    i64::MIN <= v <= i64::MAX
}

/// The effect of one header line, given as its words.
pub open spec fn read_line(st: ParseState, w: Seq<Seq<u8>>) -> LineOutcome {
    if w.len() == 0 {
        LineOutcome::Fail(HeaderError::InvalidLine)
    } else if spells(w[0], "format"@) && w.len() == 3 {
        if !spells(w[2], "1.0"@) {
            LineOutcome::Fail(HeaderError::InvalidVersion)
        } else {
            match format_named(w[1]) {
                Some(f) => LineOutcome::Continue(ParseState { format: Some(f), ..st }),
                None => LineOutcome::Fail(HeaderError::InvalidFormat),
            }
        }
    } else if spells(w[0], "element"@) && w.len() == 3 {
        match integer_named(w[2]) {
            Some(c) => if fits_i64(c) {
                LineOutcome::Continue(
                    ParseState {
                        current: Some(ElementModel { name: w[1], count: c, properties: seq![] }),
                        elements: flushed(st),
                        ..st
                    },
                )
            } else {
                LineOutcome::Fail(HeaderError::InvalidCount)
            },
            None => LineOutcome::Fail(HeaderError::InvalidCount),
        }
    } else if spells(w[0], "property"@) {
        match st.current {
            None => LineOutcome::Fail(HeaderError::PropertyOutsideElement),
            Some(e) => if w.len() == 5 && spells(w[1], "list"@) {
                LineOutcome::Continue(st)
            } else if w.len() == 3 {
                match type_named(w[1]) {
                    Some(t) => LineOutcome::Continue(
                        ParseState {
                            current: Some(
                                ElementModel {
                                    properties: e.properties.push(
                                        PropertyModel { name: w[2], data_type: t },
                                    ),
                                    ..e
                                },
                            ),
                            ..st
                        },
                    ),
                    None => LineOutcome::Fail(HeaderError::InvalidDataType),
                }
            } else {
                LineOutcome::Fail(HeaderError::InvalidLine)
            },
        }
    } else if spells(w[0], "end_header"@) {
        LineOutcome::Stop(st)
    } else if spells(w[0], "comment"@) {
        if w.len() == 5 && spells(w[1], "offset:"@) {
            if is_float_text(w[2]) && is_float_text(w[3]) && is_float_text(w[4]) {
                LineOutcome::Continue(
                    ParseState { offset: Some(OffsetModel { x: w[2], y: w[3], z: w[4] }), ..st },
                )
            } else {
                LineOutcome::Fail(HeaderError::InvalidOffset)
            }
        } else {
            LineOutcome::Continue(st)
        }
    } else {
        LineOutcome::Fail(HeaderError::InvalidLine)
    }
}

/// The header once `end_header` has been read; `end` is its byte length.
pub open spec fn finish(st: ParseState, end: int) -> Result<(HeaderModel, int), HeaderError> {
    match st.format {
        None => Err(HeaderError::NoFormat),
        Some(f) => Ok((HeaderModel { format: f, elements: flushed(st), offset: st.offset }, end)),
    }
}

/// Reads the lines from byte `pos` on.
pub open spec fn parse_lines(d: Seq<u8>, pos: int, st: ParseState) -> Result<
    (HeaderModel, int),
    HeaderError,
>
    decreases d.len() - pos,
    when 0 <= pos
    via parse_lines_decreases
{
    if pos >= d.len() {
        Err(HeaderError::UnexpectedEnd)
    } else {
        let e = line_end(d, pos);
        match read_line(st, words(d.subrange(pos, e))) {
            LineOutcome::Fail(err) => Err(err),
            LineOutcome::Stop(s) => finish(s, e),
            LineOutcome::Continue(s) => parse_lines(d, e, s),
        }
    }
}

#[via_fn]
proof fn parse_lines_decreases(d: Seq<u8>, pos: int, st: ParseState) {
    lemma_line_end(d, pos);
}

pub open spec fn initial_state() -> ParseState {
    ParseState { format: None, current: None, elements: seq![], offset: None }
}

/// What a header text means: the header and the number of bytes it takes,
/// through the `end_header` line; or why it is refused.
pub open spec fn parsed(d: Seq<u8>) -> Result<(HeaderModel, int), HeaderError> {
    let e = line_end(d, 0);
    let w = words(d.subrange(0, e));
    if !(w.len() == 1 && spells(w[0], "ply"@)) {
        Err(HeaderError::NotPly)
    } else {
        parse_lines(d, e, initial_state())
    }
}

struct LineState {
    format: Option<Format>,
    current: Option<Element>,
    elements: Vec<Element>,
    offset: Option<OffsetText>,
}

impl View for LineState {
    type V = ParseState;

    closed spec fn view(&self) -> ParseState {
        ParseState {
            format: self.format,
            current: match self.current {
                Some(e) => Some(e@),
                None => None,
            },
            elements: elements_view(self.elements@),
            offset: offset_view(self.offset),
        }
    }
}

fn format_from(t: &[u8]) -> (r: Option<Format>)
    ensures
        r == format_named(t@),
{
    if token_is(t, "ascii") {
        Some(Format::AsciiV1)
    } else if token_is(t, "binary_little_endian") {
        Some(Format::BinaryLittleEndianV1)
    } else if token_is(t, "binary_big_endian") {
        Some(Format::BinaryBigEndianV1)
    } else {
        None
    }
}

/// Closes the open element, if any.
fn flush(st: &mut LineState)
    ensures
        final(st)@ == (ParseState { current: None, elements: flushed(old(st)@), ..old(st)@ }),
{
    match st.current.take() {
        Some(e) => {
            let ghost before = st.elements@;
            st.elements.push(e);
            assert(elements_view(st.elements@) =~= elements_view(before).push(e@));
        },
        None => {},
    }
}

/// Applies one header line; `Ok(true)` once `end_header` is read.
fn apply_line(st: &mut LineState, w: &Vec<Vec<u8>>) -> (r: Result<bool, HeaderError>)
    ensures
        match read_line(old(st)@, words_view(w@)) {
            LineOutcome::Continue(s) => r == Ok::<bool, HeaderError>(false) && final(st)@ == s,
            LineOutcome::Stop(s) => r == Ok::<bool, HeaderError>(true) && final(st)@ == s,
            LineOutcome::Fail(e) => r == Err::<bool, HeaderError>(e),
        },
{
    let ghost wv = words_view(w@);
    let n = w.len();
    if n == 0 {
        return Err(HeaderError::InvalidLine);
    }
    assert(wv[0] == w@[0]@);
    let first = w[0].as_slice();
    if token_is(first, "format") && n == 3 {
        assert(wv[1] == w@[1]@ && wv[2] == w@[2]@);
        if !token_is(w[2].as_slice(), "1.0") {
            return Err(HeaderError::InvalidVersion);
        }
        match format_from(w[1].as_slice()) {
            Some(f) => {
                st.format = Some(f);
                Ok(false)
            },
            None => Err(HeaderError::InvalidFormat),
        }
    } else if token_is(first, "element") && n == 3 {
        assert(wv[1] == w@[1]@ && wv[2] == w@[2]@);
        match parse_i64(w[2].as_slice()) {
            Some(c) => {
                flush(st);
                let name = to_vec(w[1].as_slice());
                let e = Element { name, count: c, properties: Vec::new() };
                assert(e@.properties =~= seq![]);
                st.current = Some(e);
                Ok(false)
            },
            None => Err(HeaderError::InvalidCount),
        }
    } else if token_is(first, "property") {
        if st.current.is_none() {
            return Err(HeaderError::PropertyOutsideElement);
        }
        if n == 5 && token_is(w[1].as_slice(), "list") {
            assert(wv[1] == w@[1]@);
            return Ok(false);
        }
        if n != 3 {
            return Err(HeaderError::InvalidLine);
        }
        assert(wv[1] == w@[1]@ && wv[2] == w@[2]@);
        match DataType::from_str(w[1].as_slice()) {
            Some(t) => {
                let p = ScalarProperty { name: to_vec(w[2].as_slice()), data_type: t };
                let mut e = st.current.take().unwrap();
                let ghost before = e.properties@;
                e.properties.push(p);
                assert(props_view(e.properties@) =~= props_view(before).push(p@));
                st.current = Some(e);
                Ok(false)
            },
            None => Err(HeaderError::InvalidDataType),
        }
    } else if token_is(first, "end_header") {
        Ok(true)
    } else if token_is(first, "comment") {
        if n == 5 && token_is(w[1].as_slice(), "offset:") {
            assert(wv[1] == w@[1]@ && wv[2] == w@[2]@ && wv[3] == w@[3]@ && wv[4] == w@[4]@);
            if !(float_text(w[2].as_slice()) && float_text(w[3].as_slice()) && float_text(
                w[4].as_slice(),
            )) {
                return Err(HeaderError::InvalidOffset);
            }
            st.offset = Some(
                OffsetText {
                    x: to_vec(w[2].as_slice()),
                    y: to_vec(w[3].as_slice()),
                    z: to_vec(w[4].as_slice()),
                },
            );
        }
        Ok(false)
    } else {
        Err(HeaderError::InvalidLine)
    }
}

/// Parses the header at the start of `data`. On success also returns the
/// byte length of the header, through the `end_header` line, where the
/// records begin.
pub fn parse_header(data: &[u8]) -> (r: Result<(Header, usize), HeaderError>)
    ensures
        r is Ok <==> parsed(data@) is Ok,
        r is Ok ==> r->Ok_0.0@ == parsed(data@)->Ok_0.0 && r->Ok_0.1 == parsed(data@)->Ok_0.1,
        r is Err ==> r->Err_0 == parsed(data@)->Err_0,
{
    let e0 = find_line_end(data, 0);
    proof {
        lemma_line_end(data@, 0);
    }
    let w0 = split_words(data, 0, e0);
    assert(words_view(w0@).len() == w0@.len());
    if !(w0.len() == 1 && token_is(w0[0].as_slice(), "ply")) {
        return Err(HeaderError::NotPly);
    }
    let mut st = LineState { format: None, current: None, elements: Vec::new(), offset: None };
    assert(elements_view(st.elements@) =~= seq![]);
    assert(st@ == initial_state());
    let mut pos = e0;
    loop
        invariant
            pos <= data@.len(),
            parsed(data@) == parse_lines(data@, pos as int, st@),
        decreases data@.len() - pos,
    {
        if pos >= data.len() {
            return Err(HeaderError::UnexpectedEnd);
        }
        let e = find_line_end(data, pos);
        proof {
            lemma_line_end(data@, pos as int);
        }
        let w = split_words(data, pos, e);
        let done = apply_line(&mut st, &w);
        match done {
            Err(err) => {
                return Err(err);
            },
            Ok(true) => {
                flush(&mut st);
                return match st.format {
                    None => Err(HeaderError::NoFormat),
                    Some(f) => {
                        let h = Header { format: f, elements: st.elements, offset: st.offset };
                        Ok((h, e))
                    },
                };
            },
            Ok(false) => {
                pos = e;
            },
        }
    }
}

/// A list property line inside an element is read past: the state is
/// unchanged, so the properties around it are read as if it were absent.
pub proof fn lemma_list_property_skipped(st: ParseState, w: Seq<Seq<u8>>)
    requires
        st.current is Some,
        w.len() == 5,
        spells(w[0], "property"@),
        spells(w[1], "list"@),
    ensures
        read_line(st, w) == LineOutcome::Continue(st),
{
    reveal_strlit("property");
    reveal_strlit("format");
    reveal_strlit("element");
    assert(!spells(w[0], "format"@));
    assert(!spells(w[0], "element"@));
}

} // verus!
