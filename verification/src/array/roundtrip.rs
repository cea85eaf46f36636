//! Reading back what was written: the header that `write_header` spells
//! is the header that `read_header` understands, and the array that
//! `read_array` gives is the array that `write_data` was given.

use vstd::prelude::*;
use vstd::utf8::valid_utf8;
use crate::array::numpy::{
    code_type, coerced, comma, descr_end, descr_key, dict_close, dict_open, dict_text,
    endianess_char, endianess_of, header_of, header_text, is_preamble, item_end, order_intro,
    order_key, order_of, order_text, padding, parse_header, parse_item, parse_shape, parse_text,
    read_outcome, shape_end, shape_intro, shape_key, shape_text, text_bounds, text_false,
    text_true, type_code, write_outcome, Endianess, Header, NumpyError, Order,
};
use crate::array::text::{
    all_digits, between, decimal_text, digits_value, find_from, is_space, matches_at, parse_number,
    trimmed,
};
use crate::array::{lemma_same_array, ArrayModel, NDArray, NDData};
use crate::types::{RDSType, Scalar};

verus! {

/// A text is found at a position where it stands if, at every position
/// before, the first byte or the second byte is not its own.
pub proof fn lemma_find_first(hay: Seq<u8>, needle: Seq<u8>, from: int, at: int)
    requires
        0 <= from <= at,
        needle.len() >= 1,
        matches_at(hay, needle, at),
        forall|q: int|
            from <= q < at ==> #[trigger] hay[q] != needle[0] || (needle.len() >= 2 && hay[q + 1]
                != needle[1]),
    ensures
        find_from(hay, needle, from) == Some(at),
    decreases at - from,
{
    if from < at {
        assert(hay[from] != needle[0] || (needle.len() >= 2 && hay[from + 1] != needle[1]));
        if matches_at(hay, needle, from) {
            assert(hay.subrange(from, from + needle.len())[0] == needle[0]);
            if needle.len() >= 2 {
                assert(hay.subrange(from, from + needle.len())[1] == needle[1]);
            }
        }
        lemma_find_first(hay, needle, from + 1, at);
    }
}

/// A text is not found where its first byte does not occur.
pub proof fn lemma_find_none(hay: Seq<u8>, needle: Seq<u8>, from: int)
    requires
        0 <= from,
        needle.len() >= 1,
        forall|q: int| from <= q < hay.len() ==> #[trigger] hay[q] != needle[0],
    ensures
        find_from(hay, needle, from) is None,
    decreases hay.len() - from + 1,
{
    if from + needle.len() <= hay.len() {
        if matches_at(hay, needle, from) {
            assert(hay.subrange(from, from + needle.len())[0] == needle[0]);
        }
        lemma_find_none(hay, needle, from + 1);
    }
}

/// The decimal digits of a number are digits, at least one, and spell the
/// number.
pub proof fn lemma_decimal_text(n: nat)
    ensures
        decimal_text(n).len() >= 1,
        all_digits(decimal_text(n)),
        digits_value(decimal_text(n)) == n,
    decreases n,
{
    if n < 10 {
        let s = decimal_text(n);
        assert(s.drop_last() =~= Seq::<u8>::empty());
        assert(digits_value(s.drop_last()) == 0);
    } else {
        lemma_decimal_text(n / 10);
        let s = decimal_text(n);
        assert(s.drop_last() =~= decimal_text(n / 10));
        assert(s.last() == (48 + n % 10) as u8);
    }
}

/// Reading the decimal digits of a number gives the number.
pub proof fn lemma_parse_decimal(n: usize)
    ensures
        parse_number(decimal_text(n as nat)) == Some(n),
{
    lemma_decimal_text(n as nat);
    assert(decimal_text(n as nat)[0] >= 48);
}

/// Digits, with or without a space before them, are what is left of them
/// without white space at the ends.
pub proof fn lemma_trim_digits(digits: Seq<u8>)
    requires
        digits.len() >= 1,
        all_digits(digits),
    ensures
        trimmed(digits) == digits,
        trimmed(seq![32u8] + digits) == digits,
{
    assert(!is_space(digits[0]));
    assert(!is_space(digits.last()));
    assert((seq![32u8] + digits).skip(1) =~= digits);
    assert((seq![32u8] + digits)[0] == 32);
}

/// The text of a shape begins with its first dimension length.
pub proof fn lemma_shape_text_unfold(shape: Seq<usize>)
    requires
        shape.len() > 0,
    ensures
        shape_text(shape) == decimal_text(shape[0] as nat) + item_end() + shape_text(shape.skip(1)),
    decreases shape.len(),
{
    let front = shape.drop_last();
    if shape.len() == 1 {
        assert(front =~= Seq::<usize>::empty());
        assert(shape.skip(1) =~= Seq::<usize>::empty());
        assert(shape_text(shape) =~= decimal_text(shape[0] as nat) + item_end() + shape_text(
            shape.skip(1),
        ));
    } else {
        lemma_shape_text_unfold(front);
        assert(front.skip(1) =~= shape.skip(1).drop_last());
        assert(shape.skip(1).last() == shape.last());
        assert(front[0] == shape[0]);
        assert(shape_text(shape) =~= decimal_text(shape[0] as nat) + item_end() + shape_text(
            shape.skip(1),
        ));
    }
}

/// The text of a shape is made of digits, commas and spaces.
pub proof fn lemma_shape_text_bytes(shape: Seq<usize>)
    ensures
        forall|i: int|
            0 <= i < shape_text(shape).len() ==> {
                let b = #[trigger] shape_text(shape)[i];
                (48 <= b <= 57) || b == 44 || b == 32
            },
    decreases shape.len(),
{
    if shape.len() > 0 {
        lemma_shape_text_bytes(shape.drop_last());
        lemma_decimal_text(shape.last() as nat);
        let a = shape_text(shape.drop_last());
        let d = decimal_text(shape.last() as nat);
        assert forall|i: int| 0 <= i < shape_text(shape).len() implies {
            let b = #[trigger] shape_text(shape)[i];
            (48 <= b <= 57) || b == 44 || b == 32
        } by {
            if i < a.len() {
                assert(shape_text(shape)[i] == a[i]);
            } else if i < a.len() + d.len() {
                assert(shape_text(shape)[i] == d[i - a.len()]);
            } else {
                assert(shape_text(shape)[i] == item_end()[i - a.len() - d.len()]);
            }
        }
    }
}

/// Reading the text of a shape, with or without a space before it, gives
/// the shape.
pub proof fn lemma_parse_shape_text(space: bool, shape: Seq<usize>)
    ensures
        parse_shape(
            (if space {
                seq![32u8]
            } else {
                Seq::<u8>::empty()
            }) + shape_text(shape),
        ) == Some(shape),
    decreases shape.len(),
{
    let lead = if space {
        seq![32u8]
    } else {
        Seq::<u8>::empty()
    };
    let text = lead + shape_text(shape);
    if shape.len() == 0 {
        assert(text =~= lead);
        lemma_find_none(text, comma(), 0);
        assert(trimmed(Seq::<u8>::empty()) =~= Seq::<u8>::empty());
        if space {
            assert(text.skip(1) =~= Seq::<u8>::empty());
        }
        assert(trimmed(text).len() == 0);
        assert(parse_item(text) == Some(Seq::<usize>::empty()));
        assert(shape =~= Seq::<usize>::empty());
    } else {
        let digits = decimal_text(shape[0] as nat);
        let rest = shape.skip(1);
        lemma_shape_text_unfold(shape);
        lemma_decimal_text(shape[0] as nat);
        lemma_parse_decimal(shape[0]);
        lemma_trim_digits(digits);
        let c = (lead.len() + digits.len()) as int;
        assert(text =~= lead + digits + item_end() + shape_text(rest));
        assert(text.subrange(c, c + 1) =~= comma());
        assert forall|q: int| 0 <= q < c implies #[trigger] text[q] != comma()[0] by {
            if q >= lead.len() {
                assert(text[q] == digits[q - lead.len()]);
            }
        }
        lemma_find_first(text, comma(), 0, c);
        assert(text.subrange(0, c) =~= lead + digits);
        assert(Seq::<u8>::empty() + digits =~= digits);
        assert(trimmed(text.subrange(0, c)) == digits);
        assert(parse_item(text.subrange(0, c)) == Some(seq![shape[0]]));
        assert(text.skip(c + 1) =~= seq![32u8] + shape_text(rest));
        lemma_parse_shape_text(true, rest);
        assert(seq![shape[0]] + rest =~= shape);
    }
}

/// A text of bytes below 128 is well-formed UTF-8.
pub proof fn lemma_ascii_is_utf8(text: Seq<u8>)
    requires
        forall|i: int| 0 <= i < text.len() ==> #[trigger] text[i] < 128,
    ensures
        valid_utf8(text),
    decreases text.len(),
{
    if text.len() > 0 {
        assert(text[0] < 128);
        let rest = text.subrange(1, text.len() as int);
        assert forall|i: int| 0 <= i < rest.len() implies #[trigger] rest[i] < 128 by {
            assert(rest[i] == text[i + 1]);
        }
        lemma_ascii_is_utf8(rest);
    }
}

/// The code of each element type stands for that type.
pub proof fn lemma_code_type(dtype: RDSType)
    ensures
        code_type(type_code(dtype)) == Some(dtype),
        2 <= type_code(dtype).len() <= 3,
        forall|i: int|
            0 <= i < type_code(dtype).len() ==> 48 <= #[trigger] type_code(dtype)[i] < 128
                && type_code(dtype)[i] != 39,
{
    let c = type_code(dtype);
    assert(type_code(RDSType::U8)[1] == 49);
    assert(type_code(RDSType::U16)[1] == 50);
    assert(type_code(RDSType::U32)[1] == 52);
    assert(type_code(RDSType::U64)[1] == 56);
    assert(type_code(RDSType::I8)[1] == 49);
    assert(type_code(RDSType::I16)[1] == 50);
    assert(type_code(RDSType::I32)[1] == 52);
    assert(type_code(RDSType::I64)[1] == 56);
    assert(type_code(RDSType::F32)[1] == 52);
    assert(type_code(RDSType::F64)[1] == 56);
    assert(type_code(RDSType::C32)[1] == 56);
    assert(type_code(RDSType::C64)[1] == 49);
    assert(type_code(RDSType::U8)[0] == 117);
    assert(type_code(RDSType::I8)[0] == 105);
    assert(type_code(RDSType::F32)[0] == 102);
    assert(type_code(RDSType::C32)[0] == 99);
    assert(type_code(RDSType::C64).len() == 3);
    assert(type_code(RDSType::C32).len() == 2);
}

/// In a text that begins as a written header does, the `descr` field is
/// the character of the byte order followed by the type code.
#[verifier::rlimit(40)]
pub proof fn lemma_descr_field(ec: u8, code: Seq<u8>, tail: Seq<u8>)
    requires
        ec == 60 || ec == 62,
        forall|i: int| 0 <= i < code.len() ==> #[trigger] code[i] != 39,
    ensures
        between(dict_open() + seq![ec] + code + order_intro() + tail, descr_key(), descr_end())
            == Some(seq![ec] + code),
{
    let text = dict_open() + seq![ec] + code + order_intro() + tail;
    let p_quote = 12 + code.len() as int;
    assert(text.subrange(1, 11) =~= descr_key());
    lemma_find_first(text, descr_key(), 0, 1);
    assert(text.subrange(p_quote, p_quote + 2) =~= descr_end());
    assert forall|q: int| 11 <= q < p_quote implies #[trigger] text[q] != descr_end()[0] by {
        if q >= 12 {
            assert(text[q] == code[q - 12]);
        }
    }
    lemma_find_first(text, descr_end(), 11, p_quote);
    assert(text.subrange(11, p_quote) =~= seq![ec] + code);
}

/// In a text that begins as a written header does, the `fortran_order`
/// field is the text of the storage order.
#[verifier::rlimit(40)]
pub proof fn lemma_order_field(ec: u8, code: Seq<u8>, ot: Seq<u8>, tail: Seq<u8>)
    requires
        ec == 60 || ec == 62,
        forall|i: int| 0 <= i < code.len() ==> #[trigger] code[i] != 39,
        forall|i: int| 0 <= i < ot.len() ==> #[trigger] ot[i] != 44,
    ensures
        between(
            dict_open() + seq![ec] + code + order_intro() + ot + shape_intro() + tail,
            order_key(),
            comma(),
        ) == Some(ot),
{
    let text = dict_open() + seq![ec] + code + order_intro() + ot + shape_intro() + tail;
    let cl = code.len() as int;
    let p_key = 15 + cl;
    let p_order = 32 + cl;
    let p_comma = p_order + ot.len();
    assert(text.subrange(p_key, p_key + 17) =~= order_key());
    assert forall|q: int| 0 <= q < p_key implies #[trigger] text[q] != order_key()[0] || text[q
        + 1] != order_key()[1] by {
        if 12 <= q < 12 + cl {
            assert(text[q] == code[q - 12]);
        }
    }
    lemma_find_first(text, order_key(), 0, p_key);
    assert(text.subrange(p_comma, p_comma + 1) =~= comma());
    assert forall|q: int| p_order <= q < p_comma implies #[trigger] text[q] != comma()[0] by {
        assert(text[q] == ot[q - p_order]);
    }
    lemma_find_first(text, comma(), p_order, p_comma);
    assert(text.subrange(p_order, p_comma) =~= ot);
}

/// In a text that begins as a written header does, the `shape` field is
/// the text of the shape.
#[verifier::rlimit(60)]
pub proof fn lemma_shape_field(ec: u8, code: Seq<u8>, ot: Seq<u8>, st: Seq<u8>, tail: Seq<u8>)
    requires
        ec == 60 || ec == 62,
        forall|i: int| 0 <= i < code.len() ==> #[trigger] code[i] != 39,
        forall|i: int| 0 <= i < ot.len() ==> #[trigger] ot[i] != 39,
        forall|i: int| 0 <= i < st.len() ==> #[trigger] st[i] != 41,
    ensures
        between(
            dict_open() + seq![ec] + code + order_intro() + ot + shape_intro() + st + dict_close()
                + tail,
            shape_key(),
            shape_end(),
        ) == Some(st),
{
    let text = dict_open() + seq![ec] + code + order_intro() + ot + shape_intro() + st
        + dict_close() + tail;
    let cl = code.len() as int;
    let p_order = 32 + cl;
    let p_comma = p_order + ot.len();
    let p_key = p_comma + 2;
    let p_shape = p_key + 10;
    let p_close = p_shape + st.len();
    assert(text.subrange(p_key, p_key + 10) =~= shape_key());
    assert forall|q: int| 0 <= q < p_key implies #[trigger] text[q] != shape_key()[0] || text[q
        + 1] != shape_key()[1] by {
        if 12 <= q < 12 + cl {
            assert(text[q] == code[q - 12]);
        }
        if p_order <= q < p_comma {
            assert(text[q] == ot[q - p_order]);
        }
    }
    lemma_find_first(text, shape_key(), 0, p_key);
    assert(text.subrange(p_close, p_close + 1) =~= shape_end());
    assert forall|q: int| p_shape <= q < p_close implies #[trigger] text[q] != shape_end()[0] by {
        assert(text[q] == st[q - p_shape]);
    }
    lemma_find_first(text, shape_end(), p_shape, p_close);
    assert(text.subrange(p_shape, p_close) =~= st);
}

/// The text of a written header is made of bytes below 128.
#[verifier::rlimit(40)]
pub proof fn lemma_header_is_ascii(
    dtype: RDSType,
    order: Order,
    endianess: Endianess,
    shape: Seq<usize>,
)
    ensures
        valid_utf8(header_text(dict_text(dtype, order, endianess, shape))),
{
    let code = type_code(dtype);
    let ot = order_text(order);
    let st = shape_text(shape);
    let dict = dict_text(dtype, order, endianess, shape);
    let text = header_text(dict);
    lemma_code_type(dtype);
    lemma_shape_text_bytes(shape);
    let p_shape = 32 + code.len() + ot.len() + 12;
    assert forall|i: int| 0 <= i < text.len() implies #[trigger] text[i] < 128 by {
        if 12 <= i < 12 + code.len() {
            assert(text[i] == code[i - 12]);
        }
        if p_shape <= i < p_shape + st.len() {
            assert(text[i] == st[i - p_shape]);
        }
    }
    lemma_ascii_is_utf8(text);
}

/// The header that is written for an element type, a storage order, a byte
/// order and a shape is read as that type, those orders and that shape.
#[verifier::rlimit(60)]
pub proof fn lemma_parse_written_text(
    dtype: RDSType,
    order: Order,
    endianess: Endianess,
    shape: Seq<usize>,
)
    ensures
        parse_text(header_text(dict_text(dtype, order, endianess, shape))) == Ok::<
            Header,
            NumpyError,
        >(Header { dtype, order, endianess, shape, data_start: 0 }),
{
    let ec = endianess_char(endianess);
    let code = type_code(dtype);
    let ot = order_text(order);
    let st = shape_text(shape);
    let dict = dict_text(dtype, order, endianess, shape);
    let pad = Seq::new(padding(dict.len() as int) as nat, |i: int| 32u8);
    let text = header_text(dict);
    let end = pad + seq![10u8];
    lemma_code_type(dtype);
    lemma_shape_text_bytes(shape);
    lemma_header_is_ascii(dtype, order, endianess, shape);
    assert(ot == text_false() || ot == text_true());
    assert forall|i: int| 0 <= i < ot.len() implies #[trigger] ot[i] != 44 && ot[i] != 39 by {}
    assert forall|i: int| 0 <= i < st.len() implies #[trigger] st[i] != 41 by {}

    let tail1 = ot + shape_intro() + st + dict_close() + end;
    assert(text =~= dict_open() + seq![ec] + code + order_intro() + tail1);
    lemma_descr_field(ec, code, tail1);
    let tail2 = st + dict_close() + end;
    assert(text =~= dict_open() + seq![ec] + code + order_intro() + ot + shape_intro() + tail2);
    lemma_order_field(ec, code, ot, tail2);
    assert(text =~= dict_open() + seq![ec] + code + order_intro() + ot + shape_intro() + st
        + dict_close() + end);
    lemma_shape_field(ec, code, ot, st, end);

    let descr = seq![ec] + code;
    assert(descr[0] == ec);
    assert(descr.skip(1) =~= code);
    assert(endianess_of(ec) == Some(endianess));
    assert(text_false().len() != text_true().len());
    assert(order_of(ot) == Some(order));
    lemma_parse_shape_text(false, shape);
    assert(Seq::<u8>::empty() + st =~= st);
}

/// A file that begins with the preamble of a header has that header, and
/// its elements begin after the preamble.
pub proof fn lemma_parse_written_header(bytes: Seq<u8>, h: Header)
    requires
        h.data_start == 0,
        header_of(h).len() <= 65535,
        bytes.len() >= 10 + header_of(h).len(),
        is_preamble(bytes.subrange(0, 10 + header_of(h).len() as int), header_of(h)),
    ensures
        parse_header(bytes) == Ok::<Header, NumpyError>(
            Header {
                dtype: h.dtype,
                order: h.order,
                endianess: h.endianess,
                shape: h.shape,
                data_start: 10 + header_of(h).len() as int,
            },
        ),
{
    let text = header_of(h);
    let p = 10 + text.len() as int;
    let pre = bytes.subrange(0, p);
    lemma_parse_written_text(h.dtype, h.order, h.endianess, h.shape);
    assert(pre.subrange(0, 6) =~= bytes.subrange(0, 6));
    assert(pre.subrange(8, 10) =~= bytes.subrange(8, 10));
    assert(pre[6] == bytes[6]);
    assert(pre.skip(10) =~= bytes.subrange(10, p));
    assert(text_bounds(bytes) == Ok::<(int, int), NumpyError>((10, text.len() as int)));
}

/// Round trip: what `write_data` gives for an array, `read_array` reads as
/// an array of the same shape with, at every index, the element of the
/// array coerced to the element type of the file.
pub proof fn lemma_write_then_read(
    h: Header,
    array: ArrayModel<Scalar>,
    written: Result<Vec<u8>, NumpyError>,
    read: Result<NDArray<Scalar>, NumpyError>,
)
    requires
        array.wf(),
        h.shape == array.shape,
        h.data_start == 0,
        write_outcome(h, array, written),
        written is Ok,
        match parse_header(written.unwrap()@) {
            Ok(found) => read_outcome(written.unwrap()@, found, read),
            Err(e) => read matches Err(x) && x == e,
        },
    ensures
        parse_header(written.unwrap()@) is Ok,
        parse_header(written.unwrap()@).unwrap().dtype == h.dtype,
        parse_header(written.unwrap()@).unwrap().order == h.order,
        parse_header(written.unwrap()@).unwrap().endianess == h.endianess,
        parse_header(written.unwrap()@).unwrap().shape == h.shape,
        read matches Ok(back) && back.model() == coerced(array, h.dtype),
{
    let bytes = written.unwrap()@;
    lemma_parse_written_header(bytes, h);
    lemma_same_array(read.unwrap().model(), coerced(array, h.dtype));
}

} // verus!
