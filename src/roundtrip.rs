//! What the writer emits reads back: its header through the header parser,
//! its records through the record decoder.
use vstd::prelude::*;

use crate::batch::{kind_dim, PointsBatch};
use crate::bytes::{is_space, spells};
use crate::encode::{lemma_padded_decimal, lemma_scalar_round_trip, padded_decimal, scalar_bytes};
use crate::header::{
    finish, flushed, format_named, initial_state, line_end, parse_lines, parsed, read_line, words,
    words_from, ElementModel, Format, HeaderModel, LineOutcome, ParseState, PropertyModel,
};
use crate::layout::{
    last_with, lemma_offset_grows, offset_of, role_named, ColumnKind, RecordLayout, Role,
};
use crate::number::integer_named;
use crate::reader::{position_of, record_scalars, records};
use crate::scalar::{lemma_scalar_of, scalar_of, type_named, DataType, Scalar};
use crate::writer::{
    ascii, attribute_lines, batch_attrs, channel_name, columns_bytes, component_lines,
    component_name, decimal, entry_bytes, header_start, header_text, is_color_column, kind_type,
    line_count, position_type, positions_typed, property_line, record_bytes, records_bytes,
    type_token, Encoding, HeaderAttributeModel, COUNT_FIELD_WIDTH,
};

verus! {

/// A word: non-empty, without white space.
pub open spec fn is_word(w: Seq<u8>) -> bool {
    w.len() > 0 && forall|i: int| 0 <= i < w.len() ==> !is_space(#[trigger] w[i])
}

/// Words joined by single spaces and ended by a newline.
pub open spec fn sentence(ws: Seq<Seq<u8>>) -> Seq<u8>
    decreases ws.len(),
{
    if ws.len() == 0 {
        seq![10u8]
    } else if ws.len() == 1 {
        ws[0] + seq![10u8]
    } else {
        ws[0] + seq![32u8] + sentence(ws.drop_first())
    }
}

proof fn lemma_run(s: Seq<u8>, i: int, j: int, done: Seq<Seq<u8>>, cur: Seq<u8>)
    requires
        0 <= i <= j <= s.len(),
        forall|k: int| i <= k < j ==> !is_space(#[trigger] s[k]),
    ensures
        words_from(s, i, done, cur) == words_from(s, j, done, cur + s.subrange(i, j)),
    decreases j - i,
{
    if i < j {
        lemma_run(s, i + 1, j, done, cur.push(s[i]));
        assert(cur.push(s[i]) + s.subrange(i + 1, j) =~= cur + s.subrange(i, j));
    } else {
        assert(cur + s.subrange(i, j) =~= cur);
    }
}

/// Reading the words of a sentence that starts at `i` in `s`.
proof fn lemma_sentence_words(s: Seq<u8>, i: int, ws: Seq<Seq<u8>>, done: Seq<Seq<u8>>)
    requires
        ws.len() > 0,
        forall|k: int| 0 <= k < ws.len() ==> is_word(#[trigger] ws[k]),
        0 <= i,
        i + sentence(ws).len() == s.len(),
        s.subrange(i, s.len() as int) == sentence(ws),
    ensures
        words_from(s, i, done, seq![]) == done + ws,
    decreases ws.len(),
{
    let w = ws[0];
    let j = i + w.len();
    assert(is_word(w));
    assert(sentence(ws).subrange(0, w.len() as int) =~= w);
    assert forall|k: int| i <= k < j implies !is_space(#[trigger] s[k]) by {
        assert(s[k] == sentence(ws)[k - i]);
        assert(sentence(ws)[k - i] == w[k - i]);
    }
    lemma_run(s, i, j, done, seq![]);
    assert(seq![] + s.subrange(i, j) =~= w) by {
        assert(s.subrange(i, j) =~= sentence(ws).subrange(0, w.len() as int));
    }
    if ws.len() == 1 {
        assert(s[j] == 10u8) by {
            assert(s[j] == sentence(ws)[w.len() as int]);
        }
        assert(j + 1 == s.len());
        assert(words_from(s, j + 1, done.push(w), seq![]) == done.push(w));
        assert(done.push(w) =~= done + ws);
    } else {
        let rest = ws.drop_first();
        assert(s[j] == 32u8) by {
            assert(s[j] == sentence(ws)[w.len() as int]);
        }
        assert(s.subrange(j + 1, s.len() as int) =~= sentence(rest)) by {
            let t = sentence(ws);
            assert(t == w + seq![32u8] + sentence(rest));
            assert(t.subrange(w.len() as int + 1, t.len() as int) =~= sentence(rest));
            assert(s.subrange(j + 1, s.len() as int) =~= s.subrange(i, s.len() as int).subrange(
                w.len() as int + 1,
                t.len() as int,
            ));
        }
        assert forall|k: int| 0 <= k < rest.len() implies is_word(#[trigger] rest[k]) by {
            assert(rest[k] == ws[k + 1]);
        }
        lemma_sentence_words(s, j + 1, rest, done.push(w));
        assert(done.push(w) + rest =~= done + ws);
    }
}

/// The words of a sentence are the words it was made of.
pub proof fn lemma_words_of_sentence(ws: Seq<Seq<u8>>)
    requires
        ws.len() > 0,
        forall|k: int| 0 <= k < ws.len() ==> is_word(#[trigger] ws[k]),
    ensures
        words(sentence(ws)) == ws,
{
    let s = sentence(ws);
    assert(s.subrange(0, s.len() as int) =~= s);
    lemma_sentence_words(s, 0, ws, seq![]);
    assert(seq![] + ws =~= ws);
}

/// A sentence has one newline, at its end.
pub proof fn lemma_sentence_newline(ws: Seq<Seq<u8>>)
    requires
        forall|k: int| 0 <= k < ws.len() ==> is_word(#[trigger] ws[k]),
    ensures
        sentence(ws).len() > 0,
        sentence(ws).last() == 10u8,
        forall|k: int| 0 <= k < sentence(ws).len() - 1 ==> #[trigger] sentence(ws)[k] != 10u8,
    decreases ws.len(),
{
    if ws.len() > 1 {
        let rest = ws.drop_first();
        assert forall|k: int| 0 <= k < rest.len() implies is_word(#[trigger] rest[k]) by {
            assert(rest[k] == ws[k + 1]);
        }
        lemma_sentence_newline(rest);
        let w = ws[0];
        assert(is_word(w));
        let s = sentence(ws);
        assert forall|k: int| 0 <= k < s.len() - 1 implies #[trigger] s[k] != 10u8 by {
            if k < w.len() {
                assert(s[k] == w[k]);
                assert(!is_space(w[k]));
            } else if k > w.len() {
                assert(s[k] == sentence(rest)[k - w.len() - 1]);
            }
        }
    } else if ws.len() == 1 {
        let w = ws[0];
        assert(is_word(w));
        let s = sentence(ws);
        assert forall|k: int| 0 <= k < s.len() - 1 implies #[trigger] s[k] != 10u8 by {
            assert(s[k] == w[k]);
            assert(!is_space(w[k]));
        }
    }
}

/// A line that ends in its only newline ends where that newline is.
pub proof fn lemma_line_at(d: Seq<u8>, pos: int, line: Seq<u8>)
    requires
        0 <= pos,
        pos + line.len() <= d.len(),
        d.subrange(pos, pos + line.len()) == line,
        line.len() > 0,
        line.last() == 10u8,
        forall|k: int| 0 <= k < line.len() - 1 ==> #[trigger] line[k] != 10u8,
    ensures
        line_end(d, pos) == pos + line.len(),
    decreases line.len(),
{
    assert(d[pos] == line[0]);
    if line.len() > 1 {
        let rest = line.drop_first();
        assert(d.subrange(pos + 1, pos + 1 + rest.len()) =~= rest);
        assert forall|k: int| 0 <= k < rest.len() - 1 implies #[trigger] rest[k] != 10u8 by {
            assert(rest[k] == line[k + 1]);
        }
        lemma_line_at(d, pos + 1, rest);
    }
}

/// Printable ASCII without spaces.
pub open spec fn is_ascii_word(w: Seq<char>) -> bool
    decreases w.len(),
{
    if w.len() == 0 {
        true
    } else {
        32 < (w[0] as u32) < 127 && is_ascii_word(w.drop_first())
    }
}

proof fn lemma_ascii_word(w: Seq<char>)
    requires
        is_ascii_word(w),
    ensures
        forall|i: int| 0 <= i < w.len() ==> 32 < (#[trigger] w[i] as u32) < 127,
        forall|i: int| 0 <= i < w.len() ==> !is_space(#[trigger] ascii(w)[i]),
        spells(ascii(w), w),
        ascii(w).len() == w.len(),
    decreases w.len(),
{
    if w.len() > 0 {
        let r = w.drop_first();
        lemma_ascii_word(r);
        assert forall|i: int| 0 <= i < w.len() implies 32 < (#[trigger] w[i] as u32) < 127 by {
            if i > 0 {
                assert(w[i] == r[i - 1]);
            }
        }
    }
}

/// The bytes of a literal word are a word, and spell it.
pub proof fn lemma_word_literal(w: Seq<char>)
    requires
        w.len() > 0,
        is_ascii_word(w),
    ensures
        is_word(ascii(w)),
        spells(ascii(w), w),
{
    lemma_ascii_word(w);
}

proof fn lemma_first_differs(t: Seq<u8>, w: Seq<char>)
    requires
        t.len() > 0,
        t[0] as u32 != w[0] as u32,
    ensures
        !spells(t, w),
{
}

/// The name the writer emits for a type reads back as that type.
pub proof fn lemma_token_named(t: DataType)
    ensures
        type_named(ascii(type_token(t))) == Some(t),
        is_word(ascii(type_token(t))),
{
    reveal_strlit("float");
    reveal_strlit("float32");
    reveal_strlit("double");
    reveal_strlit("float64");
    reveal_strlit("char");
    reveal_strlit("int8");
    reveal_strlit("uchar");
    reveal_strlit("uint8");
    reveal_strlit("short");
    reveal_strlit("int16");
    reveal_strlit("ushort");
    reveal_strlit("uint16");
    reveal_strlit("int");
    reveal_strlit("int32");
    reveal_strlit("uint");
    reveal_strlit("uint32");
    reveal_strlit("longlong");
    reveal_strlit("int64");
    reveal_strlit("ulonglong");
    reveal_strlit("uint64");
    reveal_with_fuel(is_ascii_word, 10);
    let w = type_token(t);
    lemma_word_literal(w);
    let a = ascii(w);
    match t {
        DataType::Uint8 => {
            lemma_first_differs(a, "float"@);
        },
        DataType::Int16 => {
            lemma_first_differs(a, "float"@);
            lemma_first_differs(a, "uchar"@);
            lemma_first_differs(a, "uint8"@);
        },
        DataType::Uint16 => {
            lemma_first_differs(a, "double"@);
        },
        DataType::Uint32 => {
            lemma_first_differs(a, "char"@);
            lemma_first_differs(a, "int8"@);
        },
        _ => {},
    }
}

/// The property lines of a list of properties, in order.
pub open spec fn props_text(ps: Seq<PropertyModel>) -> Seq<u8>
    decreases ps.len(),
{
    if ps.len() == 0 {
        seq![]
    } else {
        property_line(ps[0].data_type, ps[0].name) + props_text(ps.drop_first())
    }
}

proof fn lemma_props_text_concat(a: Seq<PropertyModel>, b: Seq<PropertyModel>)
    ensures
        props_text(a + b) == props_text(a) + props_text(b),
    decreases a.len(),
{
    if a.len() == 0 {
        assert(a + b =~= b);
        assert(props_text(a) + props_text(b) =~= props_text(b));
    } else {
        lemma_props_text_concat(a.drop_first(), b);
        assert((a + b).drop_first() =~= a.drop_first() + b);
        assert(props_text(a + b) =~= props_text(a) + props_text(b));
    }
}

proof fn lemma_props_text_one(p: PropertyModel)
    ensures
        props_text(seq![p]) == property_line(p.data_type, p.name),
{
    assert(seq![p].drop_first() =~= Seq::<PropertyModel>::empty());
    assert(props_text(Seq::<PropertyModel>::empty()) =~= Seq::<u8>::empty());
    assert(props_text(seq![p]) =~= property_line(p.data_type, p.name));
}

/// The properties that the first `k` component lines of a column declare.
pub open spec fn component_props(a: HeaderAttributeModel, k: nat) -> Seq<PropertyModel>
    decreases k,
{
    if k == 0 {
        seq![]
    } else {
        component_props(a, (k - 1) as nat).push(
            PropertyModel { name: component_name(a, (k - 1) as nat), data_type: a.data_type },
        )
    }
}

/// The properties that the first `k` columns declare.
pub open spec fn declared_props(attrs: Seq<HeaderAttributeModel>, k: int) -> Seq<PropertyModel>
    decreases k,
{
    if k <= 0 {
        seq![]
    } else {
        declared_props(attrs, k - 1) + component_props(attrs[k - 1], line_count(attrs[k - 1]))
    }
}

proof fn lemma_component_text(a: HeaderAttributeModel, k: nat)
    ensures
        component_lines(a, k) == props_text(component_props(a, k)),
    decreases k,
{
    if k > 0 {
        let k1 = (k - 1) as nat;
        lemma_component_text(a, k1);
        let p = PropertyModel { name: component_name(a, k1), data_type: a.data_type };
        lemma_props_text_concat(component_props(a, k1), seq![p]);
        lemma_props_text_one(p);
        assert(component_props(a, k1).push(p) =~= component_props(a, k1) + seq![p]);
    }
}

proof fn lemma_attribute_text(attrs: Seq<HeaderAttributeModel>, k: int)
    requires
        0 <= k <= attrs.len(),
    ensures
        attribute_lines(attrs, k) == props_text(declared_props(attrs, k)),
    decreases k,
{
    if k > 0 {
        lemma_attribute_text(attrs, k - 1);
        let a = attrs[k - 1];
        lemma_component_text(a, line_count(a));
        lemma_props_text_concat(declared_props(attrs, k - 1), component_props(a, line_count(a)));
    }
}

proof fn lemma_decimal_digits(n: nat)
    ensures
        decimal(n).len() > 0,
        forall|i: int| 0 <= i < decimal(n).len() ==> 48 <= #[trigger] decimal(n)[i] <= 57,
    decreases n,
{
    if n >= 10 {
        lemma_decimal_digits(n / 10);
    }
}

proof fn lemma_component_word(a: HeaderAttributeModel, i: nat)
    requires
        is_word(a.name),
    ensures
        is_word(component_name(a, i)),
{
    if is_color_column(a.name) {
        reveal_strlit("red");
        reveal_strlit("green");
        reveal_strlit("blue");
        reveal_strlit("alpha");
        reveal_with_fuel(is_ascii_word, 6);
        lemma_word_literal(channel_name(i));
    } else if a.dim > 1 {
        lemma_decimal_digits(i);
        let n = a.name + decimal(i);
        assert forall|k: int| 0 <= k < n.len() implies !is_space(#[trigger] n[k]) by {
            if k >= a.name.len() {
                assert(n[k] == decimal(i)[k - a.name.len()]);
            }
        }
    }
}

proof fn lemma_declared_words(attrs: Seq<HeaderAttributeModel>, k: int)
    requires
        0 <= k <= attrs.len(),
        forall|j: int| 0 <= j < attrs.len() ==> is_word(#[trigger] attrs[j].name),
    ensures
        forall|j: int| 0 <= j < declared_props(attrs, k).len() ==> is_word(#[trigger] declared_props(attrs, k)[j].name),
    decreases k,
{
    if k > 0 {
        lemma_declared_words(attrs, k - 1);
        let a = attrs[k - 1];
        assert(is_word(a.name));
        let before = declared_props(attrs, k - 1);
        let c = component_props(a, line_count(a));
        lemma_component_props_words(a, line_count(a));
        assert forall|j: int| 0 <= j < declared_props(attrs, k).len() implies is_word(#[trigger] declared_props(attrs, k)[j].name) by {
            if j >= before.len() {
                assert(declared_props(attrs, k)[j] == c[j - before.len()]);
            }
        }
    }
}

proof fn lemma_component_props_words(a: HeaderAttributeModel, k: nat)
    requires
        is_word(a.name),
    ensures
        forall|j: int| 0 <= j < component_props(a, k).len() ==> is_word(#[trigger] component_props(a, k)[j].name),
        component_props(a, k).len() == k,
    decreases k,
{
    if k > 0 {
        lemma_component_props_words(a, (k - 1) as nat);
        lemma_component_word(a, (k - 1) as nat);
    }
}

/// A property line is the sentence `property <type> <name>`.
proof fn lemma_property_sentence(t: DataType, name: Seq<u8>)
    ensures
        property_line(t, name) == sentence(seq![ascii("property"@), ascii(type_token(t)), name]),
{
    reveal_strlit(" ");
    reveal_strlit("\n");
    reveal_with_fuel(sentence, 4);
    let ws = seq![ascii("property"@), ascii(type_token(t)), name];
    assert(ws.drop_first().drop_first() =~= seq![name]);
    assert(ascii(" "@) =~= seq![32u8]);
    assert(ascii("\n"@) =~= seq![10u8]);
    assert(property_line(t, name) =~= sentence(ws));
}

/// Reading one line of a file whose line at `pos` is the sentence `ws`.
proof fn lemma_parse_step(d: Seq<u8>, pos: int, ws: Seq<Seq<u8>>, st: ParseState)
    requires
        0 <= pos,
        ws.len() > 0,
        forall|k: int| 0 <= k < ws.len() ==> is_word(#[trigger] ws[k]),
        pos + sentence(ws).len() <= d.len(),
        d.subrange(pos, pos + sentence(ws).len()) == sentence(ws),
    ensures
        parse_lines(d, pos, st) == match read_line(st, ws) {
            LineOutcome::Fail(err) => Err(err),
            LineOutcome::Stop(s) => finish(s, pos + sentence(ws).len()),
            LineOutcome::Continue(s) => parse_lines(d, pos + sentence(ws).len(), s),
        },
{
    lemma_sentence_newline(ws);
    lemma_line_at(d, pos, sentence(ws));
    lemma_words_of_sentence(ws);
}

pub open spec fn with_props(st: ParseState, ps: Seq<PropertyModel>) -> ParseState {
    let cur = st.current->Some_0;
    ParseState {
        current: Some(ElementModel { properties: cur.properties + ps, ..cur }),
        ..st
    }
}

proof fn lemma_read_property(st: ParseState, p: PropertyModel)
    requires
        st.current is Some,
        is_word(p.name),
    ensures
        read_line(st, seq![ascii("property"@), ascii(type_token(p.data_type)), p.name])
            == LineOutcome::Continue(with_props(st, seq![p])),
{
    reveal_strlit("property");
    reveal_strlit("format");
    reveal_strlit("element");
    reveal_with_fuel(is_ascii_word, 9);
    lemma_word_literal("property"@);
    lemma_token_named(p.data_type);
    let cur = st.current->Some_0;
    assert(cur.properties.push(p) =~= cur.properties + seq![p]);
}

proof fn lemma_parse_props(d: Seq<u8>, pos: int, st: ParseState, ps: Seq<PropertyModel>)
    requires
        0 <= pos,
        st.current is Some,
        forall|j: int| 0 <= j < ps.len() ==> is_word(#[trigger] ps[j].name),
        pos + props_text(ps).len() <= d.len(),
        d.subrange(pos, pos + props_text(ps).len()) == props_text(ps),
    ensures
        parse_lines(d, pos, st) == parse_lines(d, pos + props_text(ps).len(), with_props(st, ps)),
    decreases ps.len(),
{
    let cur = st.current->Some_0;
    if ps.len() == 0 {
        assert(cur.properties + ps =~= cur.properties);
        assert(with_props(st, ps) == st);
    } else {
        let p = ps[0];
        let rest = ps.drop_first();
        assert(is_word(p.name));
        let ws = seq![ascii("property"@), ascii(type_token(p.data_type)), p.name];
        lemma_property_sentence(p.data_type, p.name);
        lemma_token_named(p.data_type);
        reveal_strlit("property");
        reveal_with_fuel(is_ascii_word, 9);
        lemma_word_literal("property"@);
        let line = sentence(ws);
        let t = props_text(ps);
        assert(t == line + props_text(rest));
        assert(d.subrange(pos, pos + line.len()) =~= t.subrange(0, line.len() as int));
        assert(t.subrange(0, line.len() as int) =~= line);
        lemma_parse_step(d, pos, ws, st);
        lemma_read_property(st, p);
        let st1 = with_props(st, seq![p]);
        assert forall|j: int| 0 <= j < rest.len() implies is_word(#[trigger] rest[j].name) by {
            assert(rest[j] == ps[j + 1]);
        }
        assert(d.subrange(pos + line.len(), pos + line.len() + props_text(rest).len()) =~= props_text(rest)) by {
            assert(t.subrange(line.len() as int, t.len() as int) =~= props_text(rest));
        }
        lemma_parse_props(d, pos + line.len(), st1, rest);
        assert(cur.properties + seq![p] + rest =~= cur.properties + ps);
    }
}

/// The coordinate properties the writer declares, of type `t`.
pub open spec fn xyz_props(t: DataType) -> Seq<PropertyModel> {
    seq![
        PropertyModel { name: ascii("x"@), data_type: t },
        PropertyModel { name: ascii("y"@), data_type: t },
        PropertyModel { name: ascii("z"@), data_type: t },
    ]
}

pub open spec fn ply_words() -> Seq<Seq<u8>> {
    seq![ascii("ply"@)]
}

pub open spec fn format_words() -> Seq<Seq<u8>> {
    seq![ascii("format"@), ascii("binary_little_endian"@), ascii("1.0"@)]
}

pub open spec fn element_words() -> Seq<Seq<u8>> {
    seq![ascii("element"@), ascii("vertex"@), padded_decimal(0, COUNT_FIELD_WIDTH as nat)]
}

pub open spec fn end_words() -> Seq<Seq<u8>> {
    seq![ascii("end_header"@)]
}

proof fn lemma_zeros_word()
    ensures
        is_word(padded_decimal(0, COUNT_FIELD_WIDTH as nat)),
        integer_named(padded_decimal(0, COUNT_FIELD_WIDTH as nat)) == Some(0int),
{
    let zeros = padded_decimal(0, COUNT_FIELD_WIDTH as nat);
    lemma_padded_decimal(0, COUNT_FIELD_WIDTH as nat);
    assert forall|i: int| 0 <= i < zeros.len() implies !is_space(#[trigger] zeros[i]) by {
        assert(crate::number::is_digit(zeros[i]));
    }
    assert(crate::number::is_digit(zeros[0]));
    crate::encode::lemma_pow10_positive(COUNT_FIELD_WIDTH as nat);
    assert(crate::number::digits_value(zeros) == 0);
}

proof fn lemma_line_words()
    ensures
        forall|k: int| 0 <= k < ply_words().len() ==> is_word(#[trigger] ply_words()[k]),
        forall|k: int| 0 <= k < format_words().len() ==> is_word(#[trigger] format_words()[k]),
        forall|k: int| 0 <= k < element_words().len() ==> is_word(#[trigger] element_words()[k]),
        forall|k: int| 0 <= k < end_words().len() ==> is_word(#[trigger] end_words()[k]),
        spells(ascii("ply"@), "ply"@),
{
    reveal_strlit("ply");
    reveal_strlit("format");
    reveal_strlit("binary_little_endian");
    reveal_strlit("1.0");
    reveal_strlit("element");
    reveal_strlit("vertex");
    reveal_strlit("end_header");
    reveal_with_fuel(is_ascii_word, 21);
    lemma_word_literal("ply"@);
    lemma_word_literal("format"@);
    lemma_word_literal("binary_little_endian"@);
    lemma_word_literal("1.0"@);
    lemma_word_literal("element"@);
    lemma_word_literal("vertex"@);
    lemma_word_literal("end_header"@);
    lemma_zeros_word();
}

proof fn lemma_start_text()
    ensures
        ascii(header_start()) + padded_decimal(0, COUNT_FIELD_WIDTH as nat) + ascii("\n"@)
            == sentence(ply_words()) + sentence(format_words()) + sentence(element_words()),
        ascii("end_header\n"@) == sentence(end_words()),
{
    reveal_strlit("ply");
    reveal_strlit("format");
    reveal_strlit("binary_little_endian");
    reveal_strlit("1.0");
    reveal_strlit("element");
    reveal_strlit("vertex");
    reveal_strlit("end_header");
    reveal_strlit("\n");
    reveal_strlit("end_header\n");
    reveal_strlit("ply\nformat binary_little_endian 1.0\nelement vertex ");
    reveal_with_fuel(sentence, 4);
    let zeros = padded_decimal(0, COUNT_FIELD_WIDTH as nat);
    assert(format_words().drop_first().drop_first() =~= seq![ascii("1.0"@)]);
    assert(element_words().drop_first().drop_first() =~= seq![zeros]);
    assert(ascii(header_start()) + zeros + ascii("\n"@) =~= sentence(ply_words()) + sentence(
        format_words(),
    ) + sentence(element_words()));
    assert(ascii("end_header\n"@) =~= sentence(end_words()));
}

proof fn lemma_format_line(st: ParseState)
    ensures
        read_line(st, format_words()) == LineOutcome::Continue(
            ParseState { format: Some(Format::BinaryLittleEndianV1), ..st },
        ),
{
    reveal_strlit("format");
    reveal_strlit("binary_little_endian");
    reveal_strlit("1.0");
    reveal_strlit("ascii");
    reveal_with_fuel(is_ascii_word, 21);
    lemma_word_literal("format"@);
    lemma_word_literal("binary_little_endian"@);
    lemma_word_literal("1.0"@);
    assert(format_named(ascii("binary_little_endian"@)) == Some(Format::BinaryLittleEndianV1));
}

proof fn lemma_element_line(st: ParseState)
    ensures
        read_line(st, element_words()) == LineOutcome::Continue(
            ParseState {
                current: Some(ElementModel { name: ascii("vertex"@), count: 0, properties: seq![] }),
                elements: flushed(st),
                ..st
            },
        ),
{
    reveal_strlit("format");
    reveal_strlit("element");
    reveal_with_fuel(is_ascii_word, 8);
    lemma_word_literal("element"@);
    lemma_zeros_word();
}

proof fn lemma_end_line(st: ParseState)
    ensures
        read_line(st, end_words()) == LineOutcome::Stop(st),
{
    reveal_strlit("format");
    reveal_strlit("element");
    reveal_strlit("property");
    reveal_strlit("end_header");
    reveal_with_fuel(is_ascii_word, 11);
    lemma_word_literal("end_header"@);
}

proof fn lemma_xyz_text(t: DataType)
    ensures
        props_text(xyz_props(t)) == property_line(t, ascii("x"@)) + property_line(t, ascii("y"@))
            + property_line(t, ascii("z"@)),
        forall|j: int| 0 <= j < 3 ==> is_word(#[trigger] xyz_props(t)[j].name),
{
    reveal_strlit("x");
    reveal_strlit("y");
    reveal_strlit("z");
    reveal_with_fuel(is_ascii_word, 2);
    lemma_word_literal("x"@);
    lemma_word_literal("y"@);
    lemma_word_literal("z"@);
    reveal_with_fuel(props_text, 4);
    let xyz = xyz_props(t);
    assert(xyz.drop_first().drop_first().drop_first() =~= Seq::<PropertyModel>::empty());
    assert(xyz.drop_first().drop_first() =~= seq![xyz[2]]);
    assert(xyz.drop_first() =~= seq![xyz[1], xyz[2]]);
    assert(props_text(xyz) =~= property_line(t, ascii("x"@)) + property_line(t, ascii("y"@))
        + property_line(t, ascii("z"@)));
}

/// The header the writer emits parses back: a binary little-endian header
/// with one element, `vertex`, of count 0, whose properties are `x`, `y`,
/// `z` of the position type followed by the properties each column
/// declares; it has no offset, and it spans the whole text.
#[verifier::rlimit(100)]
pub proof fn lemma_header_round_trip(e: Encoding, attrs: Seq<HeaderAttributeModel>)
    requires
        forall|j: int| 0 <= j < attrs.len() ==> is_word(#[trigger] attrs[j].name),
    ensures
        parsed(header_text(e, attrs)) == Ok::<(HeaderModel, int), crate::header::HeaderError>(
            (
                HeaderModel {
                    format: Format::BinaryLittleEndianV1,
                    elements: seq![
                        ElementModel {
                            name: ascii("vertex"@),
                            count: 0,
                            properties: xyz_props(position_type(e)) + declared_props(
                                attrs,
                                attrs.len() as int,
                            ),
                        },
                    ],
                    offset: None,
                },
                header_text(e, attrs).len() as int,
            ),
        ),
{
    let t = position_type(e);
    let n = attrs.len() as int;
    lemma_line_words();
    lemma_start_text();
    let l1 = sentence(ply_words());
    let l2 = sentence(format_words());
    let l3 = sentence(element_words());
    let l4 = sentence(end_words());
    let ps = xyz_props(t) + declared_props(attrs, n);
    lemma_attribute_text(attrs, n);
    lemma_props_text_concat(xyz_props(t), declared_props(attrs, n));
    lemma_xyz_text(t);
    let pt = props_text(ps);
    let d = header_text(e, attrs);
    assert(d =~= l1 + l2 + l3 + pt + l4);
    // `ply`
    lemma_sentence_newline(ply_words());
    assert(d.subrange(0, l1.len() as int) =~= l1);
    lemma_line_at(d, 0, l1);
    lemma_words_of_sentence(ply_words());
    assert(parsed(d) == parse_lines(d, l1.len() as int, initial_state()));
    // the format
    let at_format = l1.len() as int;
    assert(d.subrange(at_format, at_format + l2.len()) =~= l2);
    lemma_parse_step(d, at_format, format_words(), initial_state());
    lemma_format_line(initial_state());
    let st2 = ParseState { format: Some(Format::BinaryLittleEndianV1), ..initial_state() };
    // the vertex element
    let at_element = at_format + l2.len();
    assert(d.subrange(at_element, at_element + l3.len()) =~= l3);
    lemma_parse_step(d, at_element, element_words(), st2);
    lemma_element_line(st2);
    let st3 = ParseState {
        current: Some(ElementModel { name: ascii("vertex"@), count: 0, properties: seq![] }),
        elements: flushed(st2),
        ..st2
    };
    // the property lines
    let at_props = at_element + l3.len();
    assert(d.subrange(at_props, at_props + pt.len()) =~= pt);
    lemma_declared_words(attrs, n);
    assert forall|j: int| 0 <= j < ps.len() implies is_word(#[trigger] ps[j].name) by {
        if j >= 3 {
            assert(ps[j] == declared_props(attrs, n)[j - 3]);
        } else {
            assert(ps[j] == xyz_props(t)[j]);
        }
    }
    lemma_parse_props(d, at_props, st3, ps);
    let st4 = with_props(st3, ps);
    // `end_header`
    let at_end = at_props + pt.len();
    assert(d.subrange(at_end, at_end + l4.len()) =~= l4);
    lemma_parse_step(d, at_end, end_words(), st4);
    lemma_end_line(st4);
    assert(Seq::<PropertyModel>::empty() + ps =~= ps);
    assert(flushed(st4) =~= seq![ElementModel { name: ascii("vertex"@), count: 0, properties: ps }]);
}

// ---------------------------------------------------------------------
// Records

/// Scalars written one after another.
pub open spec fn row_bytes(sc: Seq<Scalar>) -> Seq<u8>
    decreases sc.len(),
{
    if sc.len() == 0 {
        seq![]
    } else {
        row_bytes(sc.drop_last()) + scalar_bytes(sc.last())
    }
}

/// Rows written one after another.
pub open spec fn rows_bytes(rows: Seq<Seq<Scalar>>) -> Seq<u8>
    decreases rows.len(),
{
    if rows.len() == 0 {
        seq![]
    } else {
        rows_bytes(rows.drop_last()) + row_bytes(rows.last())
    }
}

/// A row of scalars fits the layout: one per property, of its type.
pub open spec fn fits(l: RecordLayout, sc: Seq<Scalar>) -> bool {
    sc.len() == l.readers@.len() && forall|i: int|
        0 <= i < sc.len() ==> (#[trigger] sc[i]).data_type() == l.readers@[i].data_type
}

proof fn lemma_row_prefix(l: RecordLayout, sc: Seq<Scalar>, i: int)
    requires
        l.wf(),
        fits(l, sc),
        0 <= i <= sc.len(),
    ensures
        row_bytes(sc.subrange(0, i)).len() == offset_of(l.properties(), i),
    decreases i,
{
    if i > 0 {
        lemma_row_prefix(l, sc, i - 1);
        let p = sc.subrange(0, i);
        assert(p.drop_last() =~= sc.subrange(0, i - 1));
        lemma_scalar_round_trip(sc[i - 1]);
    }
}

proof fn lemma_row_at(l: RecordLayout, sc: Seq<Scalar>, i: int, j: int)
    requires
        l.wf(),
        fits(l, sc),
        0 <= i < j <= sc.len(),
    ensures
        row_bytes(sc.subrange(0, j)).subrange(
            offset_of(l.properties(), i) as int,
            (offset_of(l.properties(), i) + sc[i].data_type().width()) as int,
        ) == scalar_bytes(sc[i]),
    decreases j - i,
{
    let p = sc.subrange(0, j);
    assert(p.drop_last() =~= sc.subrange(0, j - 1));
    lemma_row_prefix(l, sc, j - 1);
    lemma_scalar_round_trip(sc[j - 1]);
    lemma_scalar_round_trip(sc[i]);
    let a = row_bytes(sc.subrange(0, j - 1));
    let o = offset_of(l.properties(), i) as int;
    let w = sc[i].data_type().width() as int;
    if i == j - 1 {
        assert(row_bytes(p).subrange(o, o + w) =~= scalar_bytes(sc[i]));
    } else {
        lemma_row_at(l, sc, i, j - 1);
        lemma_offset_grows(l.properties(), i + 1, j - 1);
        lemma_row_prefix(l, sc, j - 1);
        assert(row_bytes(p).subrange(o, o + w) =~= a.subrange(o, o + w));
    }
}

/// A row of scalars written in declared order decodes back to itself.
pub proof fn lemma_row_round_trip(l: RecordLayout, sc: Seq<Scalar>)
    requires
        l.wf(),
        fits(l, sc),
    ensures
        row_bytes(sc).len() == l.record_size,
        record_scalars(l, row_bytes(sc), 0) == sc,
{
    let n = sc.len() as int;
    assert(sc.subrange(0, n) =~= sc);
    lemma_row_prefix(l, sc, n);
    let d = row_bytes(sc);
    assert forall|i: int| 0 <= i < n implies #[trigger] record_scalars(l, d, 0)[i] == sc[i] by {
        lemma_row_at(l, sc, i, n);
        lemma_scalar_round_trip(sc[i]);
        lemma_scalar_of(sc[i]);
        let r = l.readers@[i];
        assert(l.properties()[i].data_type == r.data_type);
    }
    assert(record_scalars(l, d, 0) =~= sc);
}

/// A record reads the same inside a larger buffer.
proof fn lemma_record_shift(l: RecordLayout, d: Seq<u8>, a: Seq<u8>, base: int, off: int)
    requires
        l.wf(),
        0 <= base,
        0 <= off,
        off + l.record_size <= a.len(),
        base + a.len() <= d.len(),
        d.subrange(base, base + a.len()) == a,
    ensures
        record_scalars(l, d, base + off) == record_scalars(l, a, off),
{
    assert forall|i: int| 0 <= i < l.readers@.len() implies #[trigger] record_scalars(l, d, base + off)[i]
        == record_scalars(l, a, off)[i] by {
        let r = l.readers@[i];
        lemma_reader_within(l, i);
        let lo = off + r.at;
        let hi = off + r.at + r.data_type.width();
        assert(d.subrange(base + lo, base + hi) =~= a.subrange(lo, hi));
    }
    assert(record_scalars(l, d, base + off) =~= record_scalars(l, a, off));
}

/// Rows that fit a layout, written one after another, decode back to
/// themselves.
#[verifier::rlimit(50)]
pub proof fn lemma_rows_round_trip(l: RecordLayout, rows: Seq<Seq<Scalar>>)
    requires
        l.wf(),
        forall|j: int| 0 <= j < rows.len() ==> fits(l, #[trigger] rows[j]),
    ensures
        rows_bytes(rows).len() == rows.len() * l.record_size,
        records(l, rows_bytes(rows), rows.len() as int) == rows,
    decreases rows.len(),
{
    let n = rows.len() as int;
    if n > 0 {
        let before = rows.drop_last();
        assert forall|j: int| 0 <= j < before.len() implies fits(l, #[trigger] before[j]) by {
            assert(before[j] == rows[j]);
        }
        lemma_rows_round_trip(l, before);
        lemma_row_round_trip(l, rows.last());
        let a = rows_bytes(before);
        let last = row_bytes(rows.last());
        let d = rows_bytes(rows);
        let size = l.record_size as int;
        assert(d == a + last);
        assert(d.len() == n * size) by (nonlinear_arith)
            requires
                d.len() == a.len() + size,
                a.len() == (n - 1) * size,
        ;
        assert(d.subrange(0, a.len() as int) =~= a);
        assert(d.subrange(a.len() as int, d.len() as int) =~= last);
        assert forall|j: int| 0 <= j < n implies #[trigger] records(l, d, n)[j] == rows[j] by {
            if j < n - 1 {
                assert(records(l, a, n - 1)[j] == rows[j]);
                assert(j * size + size <= (n - 1) * size) by (nonlinear_arith)
                    requires
                        j < n - 1,
                        size > 0,
                ;
                assert(j * size >= 0) by (nonlinear_arith)
                    requires
                        j >= 0,
                        size > 0,
                ;
                lemma_record_shift(l, d, a, 0, j * size);
            } else {
                assert(j * size == a.len()) by (nonlinear_arith)
                    requires
                        j == n - 1,
                        a.len() == (n - 1) * size,
                ;
                lemma_record_shift(l, d, last, a.len() as int, 0);
            }
        }
        assert(records(l, d, n) =~= rows);
    } else {
        assert(records(l, rows_bytes(rows), 0) =~= rows);
    }
}

/// Each property lies within the record.
proof fn lemma_reader_within(l: RecordLayout, i: int)
    requires
        l.wf(),
        0 <= i < l.readers@.len(),
    ensures
        l.readers@[i].at + l.readers@[i].data_type.width() <= l.record_size,
{
    let p = l.properties();
    assert(p[i].data_type == l.readers@[i].data_type);
    assert(l.readers@[i].at == offset_of(p, i));
    lemma_offset_grows(p, i + 1, p.len() as int);
}

// ---------------------------------------------------------------------
// What the writer's records hold

/// The scalars of one column entry, as the writer stores them.
pub open spec fn entry_scalars(k: ColumnKind, e: Seq<int>) -> Seq<Scalar> {
    let t = kind_type(k);
    if kind_dim(k) == 1 {
        seq![scalar_of(t, e[0])]
    } else {
        seq![scalar_of(t, e[0]), scalar_of(t, e[1]), scalar_of(t, e[2])]
    }
}

/// Point `i`'s scalars in the first `k` columns.
pub open spec fn columns_row(b: PointsBatch, i: int, k: int) -> Seq<Scalar>
    decreases k,
{
    if k <= 0 {
        seq![]
    } else {
        let a = b.attributes@[k - 1].data;
        columns_row(b, i, k - 1) + entry_scalars(a.kind(), a.entries()[i])
    }
}

/// The scalars the writer stores for point `i`, in the order the header
/// declares them: the position, then each column's components.
pub open spec fn written_row(b: PointsBatch, i: int) -> Seq<Scalar> {
    b.positions()[i] + columns_row(b, i, b.attributes@.len() as int)
}

proof fn lemma_row_bytes_concat(a: Seq<Scalar>, c: Seq<Scalar>)
    ensures
        row_bytes(a + c) == row_bytes(a) + row_bytes(c),
    decreases c.len(),
{
    if c.len() == 0 {
        assert(a + c =~= a);
        assert(row_bytes(a) + row_bytes(c) =~= row_bytes(a));
    } else {
        lemma_row_bytes_concat(a, c.drop_last());
        assert((a + c).drop_last() =~= a + c.drop_last());
        assert(row_bytes(a + c) =~= row_bytes(a) + row_bytes(c));
    }
}

proof fn lemma_row_bytes_small(x: Scalar, y: Scalar, z: Scalar)
    ensures
        row_bytes(seq![x]) == scalar_bytes(x),
        row_bytes(seq![x, y, z]) == scalar_bytes(x) + scalar_bytes(y) + scalar_bytes(z),
{
    reveal_with_fuel(row_bytes, 4);
    assert(seq![x].drop_last() =~= Seq::<Scalar>::empty());
    assert(seq![x, y, z].drop_last() =~= seq![x, y]);
    assert(seq![x, y].drop_last() =~= seq![x]);
    assert(row_bytes(seq![x]) =~= scalar_bytes(x));
    assert(row_bytes(seq![x, y, z]) =~= scalar_bytes(x) + scalar_bytes(y) + scalar_bytes(z));
}

proof fn lemma_entry_bytes(k: ColumnKind, e: Seq<int>)
    ensures
        entry_bytes(k, e) == row_bytes(entry_scalars(k, e)),
{
    let t = kind_type(k);
    lemma_row_bytes_small(scalar_of(t, e[0]), scalar_of(t, e[1]), scalar_of(t, e[2]));
}

proof fn lemma_columns_bytes(b: PointsBatch, i: int, k: int)
    ensures
        columns_bytes(b, i, k) == row_bytes(columns_row(b, i, k)),
    decreases k,
{
    if k > 0 {
        lemma_columns_bytes(b, i, k - 1);
        let a = b.attributes@[k - 1].data;
        lemma_entry_bytes(a.kind(), a.entries()[i]);
        lemma_row_bytes_concat(columns_row(b, i, k - 1), entry_scalars(a.kind(), a.entries()[i]));
    } else {
        reveal_with_fuel(row_bytes, 1);
    }
}

proof fn lemma_record_bytes(b: PointsBatch, i: int)
    requires
        0 <= i < b.position@.len(),
    ensures
        record_bytes(b, i) == row_bytes(written_row(b, i)),
{
    let p = b.positions()[i];
    assert(p =~= seq![p[0], p[1], p[2]]);
    lemma_row_bytes_small(p[0], p[1], p[2]);
    lemma_columns_bytes(b, i, b.attributes@.len() as int);
    lemma_row_bytes_concat(p, columns_row(b, i, b.attributes@.len() as int));
}

/// The rows of the first `n` points.
pub open spec fn written_rows(b: PointsBatch, n: int) -> Seq<Seq<Scalar>> {
    Seq::new(n as nat, |i: int| written_row(b, i))
}

proof fn lemma_records_bytes(b: PointsBatch, n: int)
    requires
        0 <= n <= b.position@.len(),
    ensures
        records_bytes(b, n) == rows_bytes(written_rows(b, n)),
    decreases n,
{
    if n > 0 {
        lemma_records_bytes(b, n - 1);
        lemma_record_bytes(b, n - 1);
        assert(written_rows(b, n).drop_last() =~= written_rows(b, n - 1));
    } else {
        assert(written_rows(b, n) =~= Seq::<Seq<Scalar>>::empty());
    }
}

pub open spec fn types_of(ps: Seq<PropertyModel>) -> Seq<DataType> {
    ps.map_values(|p: PropertyModel| p.data_type)
}

pub open spec fn scalar_types(sc: Seq<Scalar>) -> Seq<DataType> {
    sc.map_values(|s: Scalar| s.data_type())
}

proof fn lemma_column_types(b: PointsBatch, i: int, k: int)
    requires
        0 <= k <= b.attributes@.len(),
    ensures
        scalar_types(columns_row(b, i, k)) == types_of(declared_props(batch_attrs(b), k)),
    decreases k,
{
    if k > 0 {
        lemma_column_types(b, i, k - 1);
        let a = b.attributes@[k - 1].data;
        let h = batch_attrs(b)[k - 1];
        let c = component_props(h, line_count(h));
        let t = kind_type(a.kind());
        reveal_with_fuel(component_props, 4);
        let es = entry_scalars(a.kind(), a.entries()[i]);
        assert(scalar_types(es) =~= types_of(c));
        let before = columns_row(b, i, k - 1);
        assert(scalar_types(before + es) =~= scalar_types(before) + scalar_types(es));
        assert(types_of(declared_props(batch_attrs(b), k - 1) + c) =~= types_of(
            declared_props(batch_attrs(b), k - 1),
        ) + types_of(c));
    } else {
        assert(scalar_types(columns_row(b, i, k)) =~= types_of(declared_props(batch_attrs(b), k)));
    }
}

/// Points that a writer stored, read with a layout whose properties have
/// the types its header declares, decode to exactly the scalars it wrote for
/// each point, in declared order: coordinates bit for bit, and each column's
/// values.
pub proof fn lemma_written_records_round_trip(e: Encoding, b: PointsBatch, l: RecordLayout)
    requires
        b.wf(),
        positions_typed(b, position_type(e)),
        l.wf(),
        types_of(l.properties()) == types_of(
            xyz_props(position_type(e)) + declared_props(batch_attrs(b), b.attributes@.len() as int),
        ),
    ensures
        records(l, records_bytes(b, b.position@.len() as int), b.position@.len() as int)
            == written_rows(b, b.position@.len() as int),
{
    let n = b.position@.len() as int;
    let t = position_type(e);
    let k = b.attributes@.len() as int;
    let want = types_of(xyz_props(t) + declared_props(batch_attrs(b), k));
    lemma_records_bytes(b, n);
    assert forall|j: int| 0 <= j < n implies fits(l, #[trigger] written_rows(b, n)[j]) by {
        let row = written_row(b, j);
        lemma_column_types(b, j, k);
        let p = b.positions()[j];
        assert(scalar_types(row) =~= scalar_types(p) + scalar_types(columns_row(b, j, k)));
        assert(types_of(xyz_props(t) + declared_props(batch_attrs(b), k)) =~= types_of(xyz_props(t))
            + types_of(declared_props(batch_attrs(b), k)));
        assert forall|c: int| 0 <= c < 3 implies #[trigger] p[c].data_type() == t by {
            assert(p[c] == b.positions()[j][c]);
        }
        assert(scalar_types(p) =~= types_of(xyz_props(t)));
        assert(scalar_types(row) == types_of(l.properties()));
        assert forall|i: int| 0 <= i < row.len() implies (#[trigger] row[i]).data_type() == l.readers@[i].data_type by {
            assert(scalar_types(row)[i] == types_of(l.properties())[i]);
        }
    }
    lemma_rows_round_trip(l, written_rows(b, n));
}


/// A property whose role is `r` only at index `at` is the last with it.
proof fn lemma_last_with_only(ps: Seq<PropertyModel>, m: int, r: Role, at: int)
    requires
        0 <= at < m <= ps.len(),
        role_named(ps[at].name) == r,
        forall|j: int| at < j < m ==> role_named(#[trigger] ps[j].name) != r,
    ensures
        last_with(ps, m, r) == Some(at),
    decreases m,
{
    if m - 1 > at {
        lemma_last_with_only(ps, m - 1, r, at);
    }
}

proof fn lemma_xyz_roles(t: DataType)
    ensures
        role_named(xyz_props(t)[0].name) == Role::X,
        role_named(xyz_props(t)[1].name) == Role::Y,
        role_named(xyz_props(t)[2].name) == Role::Z,
        role_named(xyz_props(t)[1].name) != Role::X,
        role_named(xyz_props(t)[2].name) != Role::X,
        role_named(xyz_props(t)[2].name) != Role::Y,
{
    reveal_strlit("x");
    reveal_strlit("y");
    reveal_strlit("z");
    reveal_with_fuel(is_ascii_word, 2);
    lemma_word_literal("x"@);
    lemma_word_literal("y"@);
    lemma_word_literal("z"@);
    let ax = ascii("x"@);
    let ay = ascii("y"@);
    let az = ascii("z"@);
    lemma_first_differs(ay, "x"@);
    lemma_first_differs(az, "x"@);
    lemma_first_differs(az, "y"@);
}

proof fn lemma_layout_coordinates(l: RecordLayout, t: DataType, dp: Seq<PropertyModel>)
    requires
        l.compiled_from(xyz_props(t) + dp),
        forall|j: int|
            0 <= j < dp.len() ==> {
                let r = role_named((#[trigger] dp[j]).name);
                r != Role::X && r != Role::Y && r != Role::Z
            },
    ensures
        l.x == 0 && l.y == 1 && l.z == 2,
        l.properties() == xyz_props(t) + dp,
{
    let ps = xyz_props(t) + dp;
    let m = ps.len() as int;
    assert(l.properties() =~= ps) by {
        assert forall|i: int| 0 <= i < m implies #[trigger] l.properties()[i] == ps[i] by {
            assert(l.readers@[i].name@ == ps[i].name);
        }
    }
    lemma_xyz_roles(t);
    assert forall|j: int| 3 <= j < m implies {
        let r = role_named(#[trigger] ps[j].name);
        r != Role::X && r != Role::Y && r != Role::Z
    } by {
        assert(ps[j] == dp[j - 3]);
    }
    lemma_last_with_only(ps, m, Role::X, 0);
    lemma_last_with_only(ps, m, Role::Y, 1);
    lemma_last_with_only(ps, m, Role::Z, 2);
}

/// Decoding what the writer stored, with the layout compiled from the
/// properties its header declares, gives back every position bit for bit,
/// as long as no column declares a property named `x`, `y` or `z`.
pub proof fn lemma_written_positions_round_trip(e: Encoding, b: PointsBatch, l: RecordLayout)
    requires
        b.wf(),
        positions_typed(b, position_type(e)),
        l.wf(),
        l.compiled_from(
            xyz_props(position_type(e)) + declared_props(batch_attrs(b), b.attributes@.len() as int),
        ),
        forall|j: int|
            0 <= j < declared_props(batch_attrs(b), b.attributes@.len() as int).len() ==> {
                let r = role_named(
                    (#[trigger] declared_props(batch_attrs(b), b.attributes@.len() as int)[j]).name,
                );
                r != Role::X && r != Role::Y && r != Role::Z
            },
    ensures
        forall|i: int|
            0 <= i < b.position@.len() ==> position_of(
                l,
                #[trigger] records(l, records_bytes(b, b.position@.len() as int), b.position@.len() as int)[i],
            ) == b.positions()[i],
{
    let t = position_type(e);
    let k = b.attributes@.len() as int;
    let n = b.position@.len() as int;
    let dp = declared_props(batch_attrs(b), k);
    lemma_layout_coordinates(l, t, dp);
    lemma_written_records_round_trip(e, b, l);
    assert forall|i: int| 0 <= i < n implies position_of(
        l,
        #[trigger] records(l, records_bytes(b, n), n)[i],
    ) == b.positions()[i] by {
        let row = written_row(b, i);
        assert(records(l, records_bytes(b, n), n)[i] == written_rows(b, n)[i]);
        let p = b.positions()[i];
        assert(row[0] == p[0] && row[1] == p[1] && row[2] == p[2]);
        assert(position_of(l, row) =~= p);
    }
}

} // verus!
