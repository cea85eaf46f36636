//! The `.npy` array file format: a preamble with a short text header, then
//! the elements one after the other.

use vstd::prelude::*;
use vstd::slice::{slice_subrange, slice_to_vec};
use vstd::utf8::valid_utf8;
use crate::array::endian::{
    be_read_u16, be_read_u32, be_read_u64, be_value, be_write_u16, be_write_u32, be_write_u64,
    le_read_u16, le_read_u32, le_read_u64, le_value, le_write_u16, le_write_u32, le_write_u64,
};
use crate::array::ndindex::{lemma_next_co, lemma_next_ro, next_co, next_ro, NDIndex};
use crate::array::shape::{
    all_zero, col_rank, in_bounds, index_at, lemma_col_rank_bound, lemma_col_rank_injective,
    lemma_row_rank_bound, lemma_row_rank_injective, lemma_row_rank_surjective,
    lemma_zero_in_bounds, row_rank, shape_fits, shape_size,
};
use crate::array::text::{
    between, decimal_text, extract_in_between, find, find_from, format_usize, is_utf8,
    parse_number, parse_usize, trim, trimmed,
};
use crate::array::{
    shape_is_addressable, shape_product, zero_vec, ArrayModel, NDArray, NDData, NDDataMut,
};
use crate::types::{RDSType, RDSTyped, Scalar};

verus! {

/// The order in which a file holds the elements of an array.
#[derive(Clone, Copy, Debug, PartialEq, Eq, Structural)]
pub enum Order {
    /// The last coordinate varies fastest.
    RowMajor,
    /// The first coordinate varies fastest.
    ColumnMajor,
}

/// The order of the bytes of one element.
#[derive(Clone, Copy, Debug, PartialEq, Eq, Structural)]
pub enum Endianess {
    LittleEndian,
    BigEndian,
}

/// Why an array file could not be read or written.
#[derive(Clone, Copy, Debug, PartialEq, Eq, Structural)]
pub enum NumpyError {
    /// The file ends before its preamble or its elements do.
    Truncated,
    /// The file does not begin with the magic bytes.
    BadMagic,
    /// The major version is neither 1 nor 2.
    UnsupportedVersion(u8),
    /// The header is not UTF-8 text.
    InvalidUtf8,
    /// The header has no `descr` field.
    MissingDescr,
    /// The header has no `fortran_order` field.
    MissingFortranOrder,
    /// The header has no `shape` field.
    MissingShape,
    /// The `descr` field is empty.
    EmptyDescr,
    /// The `descr` field does not begin with `<`, `>` or `|`.
    BadEndianess,
    /// The type code of the `descr` field is not a supported one.
    UnsupportedType,
    /// The `fortran_order` field is neither `True` nor `False`.
    InvalidFortranOrder,
    /// A dimension length of the `shape` field is not a number.
    BadShape,
    /// An array of the shape cannot be addressed on this machine.
    ShapeTooLarge,
    /// The header is too long for the length field of a version 1 file.
    HeaderTooLong,
    /// An element of the array cannot be coerced to the type that the file
    /// is to hold: one of the two is a floating-point type and they differ.
    TypeMismatch,
}

/// What the header of an array file says, and where its elements begin.
pub ghost struct Header {
    pub dtype: RDSType,
    pub order: Order,
    pub endianess: Endianess,
    pub shape: Seq<usize>,
    pub data_start: int,
}

/// An array file, as its path and what its header says.
pub struct NumpyFile {
    path: String,
    shape: Vec<usize>,
    /// The type of the elements in the file.
    pub dtype: RDSType,
    /// The order of the elements in the file.
    pub order: Order,
    /// The byte order of each element in the file.
    pub endianess: Endianess,
}

/// Tells whether two texts are the same.
pub fn bytes_equal(a: &[u8], b: &[u8]) -> (r: bool)
    ensures
        r == (a@ == b@),
{
    if a.len() != b.len() {
        return false;
    }
    let mut i: usize = 0;
    while i < a.len()
        invariant
            i <= a@.len(),
            a@.len() == b@.len(),
            forall|k: int| 0 <= k < i ==> a@[k] == b@[k],
        decreases a@.len() - i,
    {
        if a[i] != b[i] {
            return false;
        }
        i += 1;
    }
    assert(a@ =~= b@);
    true
}

/// The six bytes that every array file begins with: the byte 0x93, then
/// the letters `NUMPY`.
pub open spec fn magic() -> Seq<u8> {
    seq![147u8, 78, 85, 77, 80, 89]
}

/// The six bytes that every array file begins with: the byte 0x93, then
/// the letters `NUMPY`.
pub fn magic_bytes() -> (r: Vec<u8>)
    ensures
        r@ == magic(),
{
    let a: [u8; 6] = [147, 78, 85, 77, 80, 89];
    let r = slice_to_vec(a.as_slice());
    assert(r@ =~= magic());
    r
}

/// The text `'descr': '`, after which the element type stands.
pub open spec fn descr_key() -> Seq<u8> {
    seq![39u8, 100, 101, 115, 99, 114, 39, 58, 32, 39]
}

/// The text `'descr': '`, after which the element type stands.
pub fn descr_key_bytes() -> (r: Vec<u8>)
    ensures
        r@ == descr_key(),
{
    let a: [u8; 10] = [39, 100, 101, 115, 99, 114, 39, 58, 32, 39];
    let r = slice_to_vec(a.as_slice());
    assert(r@ =~= descr_key());
    r
}

/// The text `',`, which ends the element type.
pub open spec fn descr_end() -> Seq<u8> {
    seq![39u8, 44]
}

/// The text `',`, which ends the element type.
pub fn descr_end_bytes() -> (r: Vec<u8>)
    ensures
        r@ == descr_end(),
{
    let a: [u8; 2] = [39, 44];
    let r = slice_to_vec(a.as_slice());
    assert(r@ =~= descr_end());
    r
}

/// The text `'fortran_order': `, after which the storage order stands.
pub open spec fn order_key() -> Seq<u8> {
    seq![39u8, 102, 111, 114, 116, 114, 97, 110, 95, 111, 114, 100, 101, 114, 39, 58, 32]
}

/// The text `'fortran_order': `, after which the storage order stands.
pub fn order_key_bytes() -> (r: Vec<u8>)
    ensures
        r@ == order_key(),
{
    let a: [u8; 17] = [39, 102, 111, 114, 116, 114, 97, 110, 95, 111, 114, 100, 101, 114, 39, 58, 32];
    let r = slice_to_vec(a.as_slice());
    assert(r@ =~= order_key());
    r
}

/// A comma.
pub open spec fn comma() -> Seq<u8> {
    seq![44u8]
}

/// A comma.
pub fn comma_bytes() -> (r: Vec<u8>)
    ensures
        r@ == comma(),
{
    let a: [u8; 1] = [44];
    let r = slice_to_vec(a.as_slice());
    assert(r@ =~= comma());
    r
}

/// The text `'shape': (`, after which the dimension lengths stand.
pub open spec fn shape_key() -> Seq<u8> {
    seq![39u8, 115, 104, 97, 112, 101, 39, 58, 32, 40]
}

/// The text `'shape': (`, after which the dimension lengths stand.
pub fn shape_key_bytes() -> (r: Vec<u8>)
    ensures
        r@ == shape_key(),
{
    let a: [u8; 10] = [39, 115, 104, 97, 112, 101, 39, 58, 32, 40];
    let r = slice_to_vec(a.as_slice());
    assert(r@ =~= shape_key());
    r
}

/// A closing parenthesis.
pub open spec fn shape_end() -> Seq<u8> {
    seq![41u8]
}

/// A closing parenthesis.
pub fn shape_end_bytes() -> (r: Vec<u8>)
    ensures
        r@ == shape_end(),
{
    let a: [u8; 1] = [41];
    let r = slice_to_vec(a.as_slice());
    assert(r@ =~= shape_end());
    r
}

/// The text `{'descr': '`, with which the header begins.
pub open spec fn dict_open() -> Seq<u8> {
    seq![123u8, 39, 100, 101, 115, 99, 114, 39, 58, 32, 39]
}

/// The text `{'descr': '`, with which the header begins.
pub fn dict_open_bytes() -> (r: Vec<u8>)
    ensures
        r@ == dict_open(),
{
    let a: [u8; 11] = [123, 39, 100, 101, 115, 99, 114, 39, 58, 32, 39];
    let r = slice_to_vec(a.as_slice());
    assert(r@ =~= dict_open());
    r
}

/// The text `', 'fortran_order': `.
pub open spec fn order_intro() -> Seq<u8> {
    seq![39u8, 44, 32, 39, 102, 111, 114, 116, 114, 97, 110, 95, 111, 114, 100, 101, 114, 39, 58, 32]
}

/// The text `', 'fortran_order': `.
pub fn order_intro_bytes() -> (r: Vec<u8>)
    ensures
        r@ == order_intro(),
{
    let a: [u8; 20] = [39, 44, 32, 39, 102, 111, 114, 116, 114, 97, 110, 95, 111, 114, 100, 101, 114, 39, 58, 32];
    let r = slice_to_vec(a.as_slice());
    assert(r@ =~= order_intro());
    r
}

/// The text `, 'shape': (`.
pub open spec fn shape_intro() -> Seq<u8> {
    seq![44u8, 32, 39, 115, 104, 97, 112, 101, 39, 58, 32, 40]
}

/// The text `, 'shape': (`.
pub fn shape_intro_bytes() -> (r: Vec<u8>)
    ensures
        r@ == shape_intro(),
{
    let a: [u8; 12] = [44, 32, 39, 115, 104, 97, 112, 101, 39, 58, 32, 40];
    let r = slice_to_vec(a.as_slice());
    assert(r@ =~= shape_intro());
    r
}

/// The text `), }`, with which the header ends.
pub open spec fn dict_close() -> Seq<u8> {
    seq![41u8, 44, 32, 125]
}

/// The text `), }`, with which the header ends.
pub fn dict_close_bytes() -> (r: Vec<u8>)
    ensures
        r@ == dict_close(),
{
    let a: [u8; 4] = [41, 44, 32, 125];
    let r = slice_to_vec(a.as_slice());
    assert(r@ =~= dict_close());
    r
}

/// The text `False`.
pub open spec fn text_false() -> Seq<u8> {
    seq![70u8, 97, 108, 115, 101]
}

/// The text `False`.
pub fn text_false_bytes() -> (r: Vec<u8>)
    ensures
        r@ == text_false(),
{
    let a: [u8; 5] = [70, 97, 108, 115, 101];
    let r = slice_to_vec(a.as_slice());
    assert(r@ =~= text_false());
    r
}

/// The text `True`.
pub open spec fn text_true() -> Seq<u8> {
    seq![84u8, 114, 117, 101]
}

/// The text `True`.
pub fn text_true_bytes() -> (r: Vec<u8>)
    ensures
        r@ == text_true(),
{
    let a: [u8; 4] = [84, 114, 117, 101];
    let r = slice_to_vec(a.as_slice());
    assert(r@ =~= text_true());
    r
}

/// A comma and a space, which follow each dimension length.
pub open spec fn item_end() -> Seq<u8> {
    seq![44u8, 32]
}

/// A comma and a space, which follow each dimension length.
pub fn item_end_bytes() -> (r: Vec<u8>)
    ensures
        r@ == item_end(),
{
    let a: [u8; 2] = [44, 32];
    let r = slice_to_vec(a.as_slice());
    assert(r@ =~= item_end());
    r
}

/// The code of an element type in a header: a letter for the kind of number
/// and the number of bytes that one takes.
pub open spec fn type_code(dtype: RDSType) -> Seq<u8> {
    match dtype {
        RDSType::U8 => seq![117u8, 49],
        RDSType::U16 => seq![117u8, 50],
        RDSType::U32 => seq![117u8, 52],
        RDSType::U64 => seq![117u8, 56],
        RDSType::I8 => seq![105u8, 49],
        RDSType::I16 => seq![105u8, 50],
        RDSType::I32 => seq![105u8, 52],
        RDSType::I64 => seq![105u8, 56],
        RDSType::F32 => seq![102u8, 52],
        RDSType::F64 => seq![102u8, 56],
        RDSType::C32 => seq![99u8, 56],
        RDSType::C64 => seq![99u8, 49, 54],
    }
}

/// The element type that a code stands for.
pub open spec fn code_type(code: Seq<u8>) -> Option<RDSType> {
    if code == type_code(RDSType::U8) {
        Some(RDSType::U8)
    } else if code == type_code(RDSType::U16) {
        Some(RDSType::U16)
    } else if code == type_code(RDSType::U32) {
        Some(RDSType::U32)
    } else if code == type_code(RDSType::U64) {
        Some(RDSType::U64)
    } else if code == type_code(RDSType::I8) {
        Some(RDSType::I8)
    } else if code == type_code(RDSType::I16) {
        Some(RDSType::I16)
    } else if code == type_code(RDSType::I32) {
        Some(RDSType::I32)
    } else if code == type_code(RDSType::I64) {
        Some(RDSType::I64)
    } else if code == type_code(RDSType::F32) {
        Some(RDSType::F32)
    } else if code == type_code(RDSType::F64) {
        Some(RDSType::F64)
    } else if code == type_code(RDSType::C32) {
        Some(RDSType::C32)
    } else if code == type_code(RDSType::C64) {
        Some(RDSType::C64)
    } else {
        None
    }
}

/// The code of an element type in a header.
pub fn type_code_bytes(dtype: RDSType) -> (r: Vec<u8>)
    ensures
        r@ == type_code(dtype),
{
    let mut r: Vec<u8> = Vec::new();
    match dtype {
        RDSType::U8 => {
            r.push(117); r.push(49);
        },
        RDSType::U16 => {
            r.push(117); r.push(50);
        },
        RDSType::U32 => {
            r.push(117); r.push(52);
        },
        RDSType::U64 => {
            r.push(117); r.push(56);
        },
        RDSType::I8 => {
            r.push(105); r.push(49);
        },
        RDSType::I16 => {
            r.push(105); r.push(50);
        },
        RDSType::I32 => {
            r.push(105); r.push(52);
        },
        RDSType::I64 => {
            r.push(105); r.push(56);
        },
        RDSType::F32 => {
            r.push(102); r.push(52);
        },
        RDSType::F64 => {
            r.push(102); r.push(56);
        },
        RDSType::C32 => {
            r.push(99); r.push(56);
        },
        RDSType::C64 => {
            r.push(99); r.push(49); r.push(54);
        },
    }
    assert(r@ =~= type_code(dtype));
    r
}

/// The element type that a code stands for.
pub fn parse_type(code: &[u8]) -> (r: Option<RDSType>)
    ensures
        r == code_type(code@),
{
    if bytes_equal(code, type_code_bytes(RDSType::U8).as_slice()) {
        Some(RDSType::U8)
    } else if bytes_equal(code, type_code_bytes(RDSType::U16).as_slice()) {
        Some(RDSType::U16)
    } else if bytes_equal(code, type_code_bytes(RDSType::U32).as_slice()) {
        Some(RDSType::U32)
    } else if bytes_equal(code, type_code_bytes(RDSType::U64).as_slice()) {
        Some(RDSType::U64)
    } else if bytes_equal(code, type_code_bytes(RDSType::I8).as_slice()) {
        Some(RDSType::I8)
    } else if bytes_equal(code, type_code_bytes(RDSType::I16).as_slice()) {
        Some(RDSType::I16)
    } else if bytes_equal(code, type_code_bytes(RDSType::I32).as_slice()) {
        Some(RDSType::I32)
    } else if bytes_equal(code, type_code_bytes(RDSType::I64).as_slice()) {
        Some(RDSType::I64)
    } else if bytes_equal(code, type_code_bytes(RDSType::F32).as_slice()) {
        Some(RDSType::F32)
    } else if bytes_equal(code, type_code_bytes(RDSType::F64).as_slice()) {
        Some(RDSType::F64)
    } else if bytes_equal(code, type_code_bytes(RDSType::C32).as_slice()) {
        Some(RDSType::C32)
    } else if bytes_equal(code, type_code_bytes(RDSType::C64).as_slice()) {
        Some(RDSType::C64)
    } else {
        None
    }
}

/// The byte order that the first character of a `descr` field stands for:
/// `<` and `|` for little-endian, `>` for big-endian.
pub open spec fn endianess_of(c: u8) -> Option<Endianess> {
    if c == 60 || c == 124 {
        Some(Endianess::LittleEndian)
    } else if c == 62 {
        Some(Endianess::BigEndian)
    } else {
        None
    }
}

/// The storage order that a `fortran_order` field stands for.
pub open spec fn order_of(text: Seq<u8>) -> Option<Order> {
    if text == text_false() {
        Some(Order::RowMajor)
    } else if text == text_true() {
        Some(Order::ColumnMajor)
    } else {
        None
    }
}

/// A list of numbers with more numbers after it, if there are any.
pub open spec fn followed_by(first: Seq<usize>, rest: Option<Seq<usize>>) -> Option<Seq<usize>> {
    match rest {
        Some(r) => Some(first + r),
        None => None,
    }
}

/// The numbers that one item of a `shape` field adds to the shape: none
/// for an item that is empty but for white space, else the number that
/// the item spells.
pub open spec fn parse_item(item: Seq<u8>) -> Option<Seq<usize>> {
    if trimmed(item).len() == 0 {
        Some(Seq::empty())
    } else {
        match parse_number(trimmed(item)) {
            Some(n) => Some(seq![n]),
            None => None,
        }
    }
}

/// The dimension lengths that the text of a `shape` field spells: its
/// items are separated by commas, and white space around an item and
/// empty items do not count.
pub open spec fn parse_shape(text: Seq<u8>) -> Option<Seq<usize>>
    decreases text.len(),
{
    match find_from(text, comma(), 0) {
        Some(c) => if 0 <= c < text.len() {
            match parse_item(text.subrange(0, c)) {
                Some(first) => followed_by(first, parse_shape(text.skip(c + 1))),
                None => None,
            }
        } else {
            None
        },
        None => parse_item(text),
    }
}

/// What the text of a header says. The place where the elements begin is
/// left at 0.
pub open spec fn parse_text(text: Seq<u8>) -> Result<Header, NumpyError> {
    if !valid_utf8(text) {
        Err(NumpyError::InvalidUtf8)
    } else {
        match between(text, descr_key(), descr_end()) {
            None => Err(NumpyError::MissingDescr),
            Some(descr) => match between(text, order_key(), comma()) {
                None => Err(NumpyError::MissingFortranOrder),
                Some(order) => match between(text, shape_key(), shape_end()) {
                    None => Err(NumpyError::MissingShape),
                    Some(shape) => if descr.len() < 1 {
                        Err(NumpyError::EmptyDescr)
                    } else {
                        match endianess_of(descr[0]) {
                            None => Err(NumpyError::BadEndianess),
                            Some(e) => match code_type(descr.skip(1)) {
                                None => Err(NumpyError::UnsupportedType),
                                Some(t) => match order_of(order) {
                                    None => Err(NumpyError::InvalidFortranOrder),
                                    Some(o) => match parse_shape(shape) {
                                        None => Err(NumpyError::BadShape),
                                        Some(s) => Ok(
                                            Header {
                                                dtype: t,
                                                order: o,
                                                endianess: e,
                                                shape: s,
                                                data_start: 0,
                                            },
                                        ),
                                    },
                                },
                            },
                        }
                    },
                },
            },
        }
    }
}

/// Where the text of the header begins and how long it is: after the magic
/// bytes and the two bytes of the version comes the length, little-endian,
/// in two bytes for the major version 1 and in four for the major version 2.
pub open spec fn text_bounds(bytes: Seq<u8>) -> Result<(int, int), NumpyError> {
    if bytes.len() < 6 {
        Err(NumpyError::Truncated)
    } else if bytes.subrange(0, 6) != magic() {
        Err(NumpyError::BadMagic)
    } else if bytes.len() < 8 {
        Err(NumpyError::Truncated)
    } else if bytes[6] == 1 {
        if bytes.len() < 10 {
            Err(NumpyError::Truncated)
        } else {
            Ok((10, le_value(bytes.subrange(8, 10)) as int))
        }
    } else if bytes[6] == 2 {
        if bytes.len() < 12 {
            Err(NumpyError::Truncated)
        } else {
            Ok((12, le_value(bytes.subrange(8, 12)) as int))
        }
    } else {
        Err(NumpyError::UnsupportedVersion(bytes[6]))
    }
}

/// What the preamble of an array file says, or why it cannot be read.
pub open spec fn parse_header(bytes: Seq<u8>) -> Result<Header, NumpyError> {
    match text_bounds(bytes) {
        Err(e) => Err(e),
        Ok((start, len)) => if bytes.len() < start + len {
            Err(NumpyError::Truncated)
        } else {
            match parse_text(bytes.subrange(start, start + len)) {
                Err(e) => Err(e),
                Ok(h) => Ok(
                    Header {
                        dtype: h.dtype,
                        order: h.order,
                        endianess: h.endianess,
                        shape: h.shape,
                        data_start: start + len,
                    },
                ),
            }
        },
    }
}

/// Searching in a text without its first `p` bytes is searching in the text
/// from `p` on.
pub proof fn lemma_find_skip(hay: Seq<u8>, needle: Seq<u8>, p: int, from: int)
    requires
        0 <= p <= hay.len(),
        0 <= from,
    ensures
        find_from(hay.skip(p), needle, from) == match find_from(hay, needle, p + from) {
            Some(i) => Some(i - p),
            None => None,
        },
    decreases hay.len() - p - from + 1,
{
    let tail = hay.skip(p);
    if from + needle.len() <= tail.len() {
        assert(tail.subrange(from, from + needle.len()) =~= hay.subrange(
            p + from,
            p + from + needle.len(),
        ));
        lemma_find_skip(hay, needle, p, from + 1);
    }
}

/// The storage order that a `fortran_order` field stands for.
pub fn parse_order(text: &[u8]) -> (r: Option<Order>)
    ensures
        r == order_of(text@),
{
    if bytes_equal(text, text_false_bytes().as_slice()) {
        Some(Order::RowMajor)
    } else if bytes_equal(text, text_true_bytes().as_slice()) {
        Some(Order::ColumnMajor)
    } else {
        None
    }
}

/// The byte order that the first character of a `descr` field stands for.
pub fn parse_endianess(c: u8) -> (r: Option<Endianess>)
    ensures
        r == endianess_of(c),
{
    if c == 60 || c == 124 {
        Some(Endianess::LittleEndian)
    } else if c == 62 {
        Some(Endianess::BigEndian)
    } else {
        None
    }
}

/// The dimension lengths that the text of a `shape` field spells.
pub fn parse_shape_text(text: &[u8]) -> (r: Option<Vec<usize>>)
    ensures
        match r {
            Some(v) => parse_shape(text@) == Some(v@),
            None => parse_shape(text@) is None,
        },
{
    let sep = comma_bytes();
    let mut shape: Vec<usize> = Vec::new();
    let mut pos: usize = 0;
    let mut running = true;
    assert(text@.skip(0) =~= text@);
    assert(Seq::<usize>::empty() + Seq::<usize>::empty() =~= Seq::<usize>::empty());
    while running
        invariant
            pos <= text@.len(),
            sep@ == comma(),
            running ==> parse_shape(text@) == followed_by(shape@, parse_shape(text@.skip(pos as int))),
            !running ==> parse_shape(text@) == Some(shape@),
        decreases text@.len() - pos + (if running { 1int } else { 0int }),
    {
        let ghost tail = text@.skip(pos as int);
        let ghost before = shape@;
        proof {
            lemma_find_skip(text@, comma(), pos as int, 0);
        }
        let found = find(text, sep.as_slice(), pos);
        let end: usize = match found {
            Some(c) => c,
            None => text.len(),
        };
        let item = trim(slice_subrange(text, pos, end));
        assert(text@.subrange(pos as int, end as int) =~= tail.subrange(0, end - pos));
        assert(tail.subrange(0, tail.len() as int) =~= tail);
        if item.len() > 0 {
            match parse_usize(item.as_slice()) {
                Some(n) => {
                    shape.push(n);
                    assert(shape@ =~= before + seq![n]);
                },
                None => {
                    return None;
                },
            }
        } else {
            assert(shape@ =~= before + Seq::<usize>::empty());
        }
        match found {
            Some(c) => {
                assert(comma().len() == 1);
                assert(c + 1 <= text.len());
                assert(tail.skip(c - pos + 1) =~= text@.skip(c + 1));
                proof {
                    let first = parse_item(tail.subrange(0, c - pos)).unwrap();
                    let rest = parse_shape(text@.skip(c + 1));
                    assert(shape@ == before + first);
                    if rest is Some {
                        assert(before + (first + rest.unwrap()) =~= shape@ + rest.unwrap());
                    }
                }
                pos = c + 1;
            },
            None => {
                running = false;
            },
        }
    }
    Some(shape)
}

/// The number that the bytes spell in the given byte order.
pub open spec fn word(e: Endianess, bytes: Seq<u8>) -> nat {
    match e {
        Endianess::LittleEndian => le_value(bytes),
        Endianess::BigEndian => be_value(bytes),
    }
}

/// The element that the first bytes of `bytes` hold, for an element type
/// and a byte order. A signed integer is held in two's complement, a
/// complex number as its real part followed by its imaginary part.
pub open spec fn decode_scalar(dtype: RDSType, e: Endianess, bytes: Seq<u8>) -> Scalar {
    match dtype {
        RDSType::U8 => Scalar::U8(bytes[0]),
        RDSType::U16 => Scalar::U16(word(e, bytes.subrange(0, 2)) as u16),
        RDSType::U32 => Scalar::U32(word(e, bytes.subrange(0, 4)) as u32),
        RDSType::U64 => Scalar::U64(word(e, bytes.subrange(0, 8)) as u64),
        RDSType::I8 => Scalar::I8(bytes[0] as i8),
        RDSType::I16 => Scalar::I16((word(e, bytes.subrange(0, 2)) as u16) as i16),
        RDSType::I32 => Scalar::I32((word(e, bytes.subrange(0, 4)) as u32) as i32),
        RDSType::I64 => Scalar::I64((word(e, bytes.subrange(0, 8)) as u64) as i64),
        RDSType::F32 => Scalar::F32(word(e, bytes.subrange(0, 4)) as u32),
        RDSType::F64 => Scalar::F64(word(e, bytes.subrange(0, 8)) as u64),
        RDSType::C32 => Scalar::C32(
            word(e, bytes.subrange(0, 4)) as u32,
            word(e, bytes.subrange(4, 8)) as u32,
        ),
        RDSType::C64 => Scalar::C64(
            word(e, bytes.subrange(0, 8)) as u64,
            word(e, bytes.subrange(8, 16)) as u64,
        ),
    }
}

/// The position of an index in the order in which a file holds the
/// elements.
pub open spec fn file_rank(order: Order, idx: Seq<usize>, shape: Seq<usize>) -> nat {
    match order {
        Order::RowMajor => row_rank(idx, shape),
        Order::ColumnMajor => col_rank(idx, shape),
    }
}

/// The index that follows an index in the order of a file.
pub open spec fn next_in(order: Order, idx: Seq<usize>, shape: Seq<usize>) -> Seq<usize> {
    match order {
        Order::RowMajor => next_ro(idx, shape),
        Order::ColumnMajor => next_co(idx, shape),
    }
}

/// The bytes of the element at position `k` of a file whose elements begin
/// at `start` and take `width` bytes each.
pub open spec fn element_bytes(bytes: Seq<u8>, start: int, width: int, k: int) -> Seq<u8> {
    bytes.subrange(start + k * width, start + (k + 1) * width)
}

/// The element that a file with the header `h` holds for an index: the one
/// that its bytes at the position of the index in the order of the file
/// spell.
pub open spec fn file_element(bytes: Seq<u8>, h: Header, idx: Seq<usize>) -> Scalar {
    decode_scalar(
        h.dtype,
        h.endianess,
        element_bytes(
            bytes,
            h.data_start,
            h.dtype.width() as int,
            file_rank(h.order, idx, h.shape) as int,
        ),
    )
}

/// The array is what the elements of the file say: it has the shape of the
/// header, and its element at an index is the one that the file holds for
/// the index.
pub open spec fn holds_array(bytes: Seq<u8>, h: Header, array: ArrayModel<Scalar>) -> bool {
    &&& array.wf()
    &&& array.shape == h.shape
    &&& forall|idx: Seq<usize>| #[trigger]
        in_bounds(idx, h.shape) ==> array.at(idx) == file_element(bytes, h, idx)
}

/// Stepping in the order of a file counts: see the two orders.
pub proof fn lemma_next_in(order: Order, idx: Seq<usize>, shape: Seq<usize>)
    requires
        in_bounds(idx, shape),
    ensures
        in_bounds(next_in(order, idx, shape), shape),
        file_rank(order, idx, shape) < shape_size(shape),
        file_rank(order, idx, shape) + 1 < shape_size(shape) ==> file_rank(
            order,
            next_in(order, idx, shape),
            shape,
        ) == file_rank(order, idx, shape) + 1 && !all_zero(next_in(order, idx, shape)),
        file_rank(order, idx, shape) + 1 == shape_size(shape) ==> all_zero(
            next_in(order, idx, shape),
        ),
{
    match order {
        Order::RowMajor => lemma_next_ro(idx, shape),
        Order::ColumnMajor => lemma_next_co(idx, shape),
    }
}

/// Two indices in bounds at the same position of a file are the same index,
/// and the position of an index in bounds is below the size.
pub proof fn lemma_file_rank(order: Order, a: Seq<usize>, b: Seq<usize>, shape: Seq<usize>)
    requires
        in_bounds(a, shape),
        in_bounds(b, shape),
    ensures
        file_rank(order, a, shape) < shape_size(shape),
        file_rank(order, a, shape) == file_rank(order, b, shape) ==> a == b,
{
    match order {
        Order::RowMajor => {
            lemma_row_rank_bound(a, shape);
            if row_rank(a, shape) == row_rank(b, shape) {
                lemma_row_rank_injective(a, b, shape);
            }
        },
        Order::ColumnMajor => {
            lemma_col_rank_bound(a, shape);
            if col_rank(a, shape) == col_rank(b, shape) {
                lemma_col_rank_injective(a, b, shape);
            }
        },
    }
}

/// A buffer of `n` bytes.
fn zero_bytes(n: usize) -> (r: Vec<u8>)
    ensures
        r@.len() == n,
{
    let mut r: Vec<u8> = Vec::new();
    while r.len() < n
        invariant
            r@.len() <= n,
        decreases n - r@.len(),
    {
        r.push(0);
    }
    r
}

/// Adds the bytes of `more` at the end of `out`.
pub fn append_bytes(out: &mut Vec<u8>, more: &[u8])
    ensures
        final(out)@ == old(out)@ + more@,
{
    let ghost start = out@;
    let mut i: usize = 0;
    while i < more.len()
        invariant
            i <= more@.len(),
            out@ == start + more@.subrange(0, i as int),
        decreases more@.len() - i,
    {
        out.push(more[i]);
        assert(out@ =~= start + more@.subrange(0, i + 1));
        i += 1;
    }
    assert(more@.subrange(0, more@.len() as int) =~= more@);
}

/// The 16-bit number that the first two bytes of `bytes` spell.
pub fn read_word16(e: Endianess, bytes: &[u8]) -> (n: u16)
    requires
        bytes@.len() >= 2,
    ensures
        n == word(e, bytes@.subrange(0, 2)),
{
    match e {
        Endianess::LittleEndian => le_read_u16(bytes),
        Endianess::BigEndian => be_read_u16(bytes),
    }
}

/// The 32-bit number that the first four bytes of `bytes` spell.
pub fn read_word32(e: Endianess, bytes: &[u8]) -> (n: u32)
    requires
        bytes@.len() >= 4,
    ensures
        n == word(e, bytes@.subrange(0, 4)),
{
    match e {
        Endianess::LittleEndian => le_read_u32(bytes),
        Endianess::BigEndian => be_read_u32(bytes),
    }
}

/// The 64-bit number that the first eight bytes of `bytes` spell.
pub fn read_word64(e: Endianess, bytes: &[u8]) -> (n: u64)
    requires
        bytes@.len() >= 8,
    ensures
        n == word(e, bytes@.subrange(0, 8)),
{
    match e {
        Endianess::LittleEndian => le_read_u64(bytes),
        Endianess::BigEndian => be_read_u64(bytes),
    }
}

/// The two bytes that spell a 16-bit number.
pub fn write_word16(e: Endianess, n: u16) -> (r: Vec<u8>)
    ensures
        r@.len() == 2,
        word(e, r@) == n,
{
    let mut r = zero_bytes(2);
    match e {
        Endianess::LittleEndian => le_write_u16(r.as_mut_slice(), n),
        Endianess::BigEndian => be_write_u16(r.as_mut_slice(), n),
    }
    assert(r@.subrange(0, 2) =~= r@);
    r
}

/// The four bytes that spell a 32-bit number.
pub fn write_word32(e: Endianess, n: u32) -> (r: Vec<u8>)
    ensures
        r@.len() == 4,
        word(e, r@) == n,
{
    let mut r = zero_bytes(4);
    match e {
        Endianess::LittleEndian => le_write_u32(r.as_mut_slice(), n),
        Endianess::BigEndian => be_write_u32(r.as_mut_slice(), n),
    }
    assert(r@.subrange(0, 4) =~= r@);
    r
}

/// The eight bytes that spell a 64-bit number.
pub fn write_word64(e: Endianess, n: u64) -> (r: Vec<u8>)
    ensures
        r@.len() == 8,
        word(e, r@) == n,
{
    let mut r = zero_bytes(8);
    match e {
        Endianess::LittleEndian => le_write_u64(r.as_mut_slice(), n),
        Endianess::BigEndian => be_write_u64(r.as_mut_slice(), n),
    }
    assert(r@.subrange(0, 8) =~= r@);
    r
}

/// Reads one element of the given type from the first bytes of `bytes`.
pub fn decode(dtype: RDSType, e: Endianess, bytes: &[u8]) -> (s: Scalar)
    requires
        bytes@.len() >= dtype.width(),
    ensures
        s == decode_scalar(dtype, e, bytes@),
{
    match dtype {
        RDSType::U8 => Scalar::U8(bytes[0]),
        RDSType::U16 => Scalar::U16(read_word16(e, bytes)),
        RDSType::U32 => Scalar::U32(read_word32(e, bytes)),
        RDSType::U64 => Scalar::U64(read_word64(e, bytes)),
        RDSType::I8 => Scalar::I8(
            #[verifier::truncate]
            (bytes[0] as i8),
        ),
        RDSType::I16 => Scalar::I16(
            #[verifier::truncate]
            (read_word16(e, bytes) as i16),
        ),
        RDSType::I32 => Scalar::I32(
            #[verifier::truncate]
            (read_word32(e, bytes) as i32),
        ),
        RDSType::I64 => Scalar::I64(
            #[verifier::truncate]
            (read_word64(e, bytes) as i64),
        ),
        RDSType::F32 => Scalar::F32(read_word32(e, bytes)),
        RDSType::F64 => Scalar::F64(read_word64(e, bytes)),
        RDSType::C32 => {
            let second = slice_subrange(bytes, 4, 8);
            assert(second@.subrange(0, 4) =~= bytes@.subrange(4, 8));
            Scalar::C32(read_word32(e, bytes), read_word32(e, second))
        },
        RDSType::C64 => {
            let second = slice_subrange(bytes, 8, 16);
            assert(second@.subrange(0, 8) =~= bytes@.subrange(8, 16));
            Scalar::C64(read_word64(e, bytes), read_word64(e, second))
        },
    }
}

/// The bytes that hold one element in the given byte order: as many as its
/// type takes, and such that reading them gives the element back.
pub fn encode(e: Endianess, s: Scalar) -> (r: Vec<u8>)
    ensures
        r@.len() == s.type_spec().width(),
        decode_scalar(s.type_spec(), e, r@) == s,
{
    match s {
        Scalar::U8(v) => {
            let mut r: Vec<u8> = Vec::new();
            r.push(v);
            r
        },
        Scalar::U16(v) => {
            let r = write_word16(e, v);
            assert(r@.subrange(0, 2) =~= r@);
            r
        },
        Scalar::U32(v) => {
            let r = write_word32(e, v);
            assert(r@.subrange(0, 4) =~= r@);
            r
        },
        Scalar::U64(v) => {
            let r = write_word64(e, v);
            assert(r@.subrange(0, 8) =~= r@);
            r
        },
        Scalar::I8(v) => {
            let mut r: Vec<u8> = Vec::new();
            let b: u8 = #[verifier::truncate]
            (v as u8);
            assert((v as u8) as i8 == v) by (bit_vector);
            r.push(b);
            r
        },
        Scalar::I16(v) => {
            let b: u16 = #[verifier::truncate]
            (v as u16);
            assert((v as u16) as i16 == v) by (bit_vector);
            let r = write_word16(e, b);
            assert(r@.subrange(0, 2) =~= r@);
            r
        },
        Scalar::I32(v) => {
            let b: u32 = #[verifier::truncate]
            (v as u32);
            assert((v as u32) as i32 == v) by (bit_vector);
            let r = write_word32(e, b);
            assert(r@.subrange(0, 4) =~= r@);
            r
        },
        Scalar::I64(v) => {
            let b: u64 = #[verifier::truncate]
            (v as u64);
            assert((v as u64) as i64 == v) by (bit_vector);
            let r = write_word64(e, b);
            assert(r@.subrange(0, 8) =~= r@);
            r
        },
        Scalar::F32(v) => {
            let r = write_word32(e, v);
            assert(r@.subrange(0, 4) =~= r@);
            r
        },
        Scalar::F64(v) => {
            let r = write_word64(e, v);
            assert(r@.subrange(0, 8) =~= r@);
            r
        },
        Scalar::C32(re, im) => {
            let mut r = write_word32(e, re);
            let second = write_word32(e, im);
            let ghost first = r@;
            append_bytes(&mut r, second.as_slice());
            assert(r@.subrange(0, 4) =~= first);
            assert(r@.subrange(4, 8) =~= second@);
            r
        },
        Scalar::C64(re, im) => {
            let mut r = write_word64(e, re);
            let second = write_word64(e, im);
            let ghost first = r@;
            append_bytes(&mut r, second.as_slice());
            assert(r@.subrange(0, 8) =~= first);
            assert(r@.subrange(8, 16) =~= second@);
            r
        },
    }
}

/// Steps an index to the next one in the order of a file.
pub fn step(idx: &mut Vec<usize>, shape: &[usize], order: Order)
    requires
        in_bounds(old(idx)@, shape@),
    ensures
        final(idx)@ == next_in(order, old(idx)@, shape@),
{
    match order {
        Order::RowMajor => idx.as_mut_slice().inc_ro(shape),
        Order::ColumnMajor => idx.as_mut_slice().inc_co(shape),
    }
}

/// The text that spells the dimension lengths in a header: each as decimal
/// digits, followed by a comma and a space.
pub open spec fn shape_text(shape: Seq<usize>) -> Seq<u8>
    decreases shape.len(),
{
    if shape.len() == 0 {
        Seq::empty()
    } else {
        shape_text(shape.drop_last()) + decimal_text(shape.last() as nat) + item_end()
    }
}

/// The character that stands for a byte order in a header.
pub open spec fn endianess_char(e: Endianess) -> u8 {
    match e {
        Endianess::LittleEndian => 60,
        Endianess::BigEndian => 62,
    }
}

/// The text that stands for a storage order in a header.
pub open spec fn order_text(order: Order) -> Seq<u8> {
    match order {
        Order::RowMajor => text_false(),
        Order::ColumnMajor => text_true(),
    }
}

/// The dictionary of a header, as text:
/// `{'descr': '<i4', 'fortran_order': False, 'shape': (2, 3, ), }`.
pub open spec fn dict_text(
    dtype: RDSType,
    order: Order,
    endianess: Endianess,
    shape: Seq<usize>,
) -> Seq<u8> {
    dict_open() + seq![endianess_char(endianess)] + type_code(dtype) + order_intro() + order_text(
        order,
    ) + shape_intro() + shape_text(shape) + dict_close()
}

/// The number of spaces after a dictionary of `len` bytes that bring the
/// preamble of a version 1 file, with the line feed that ends it, to a
/// multiple of 16 bytes.
pub open spec fn padding(len: int) -> int {
    (16 - (len + 11) % 16) % 16
}

/// The text of a header: the dictionary, the padding and a line feed.
pub open spec fn header_text(dict: Seq<u8>) -> Seq<u8> {
    dict + Seq::new(padding(dict.len() as int) as nat, |i: int| 32u8) + seq![10u8]
}

/// `bytes` is the preamble of a version 1 file with the header `text`: the
/// magic bytes, the version 1.0, the length of the text in two bytes,
/// little-endian, and the text.
pub open spec fn is_preamble(bytes: Seq<u8>, text: Seq<u8>) -> bool {
    &&& bytes.len() == 10 + text.len()
    &&& bytes.subrange(0, 6) == magic()
    &&& bytes[6] == 1
    &&& bytes[7] == 0
    &&& le_value(bytes.subrange(8, 10)) == text.len()
    &&& bytes.skip(10) == text
}

/// What the text of a header says: the element type and the byte order of
/// its `descr` field, the storage order of its `fortran_order` field and
/// the dimension lengths of its `shape` field.
pub fn parse_text_bytes(text: &[u8]) -> (r: Result<(RDSType, Order, Endianess, Vec<usize>), NumpyError>)
    ensures
        match r {
            Ok(t) => parse_text(text@) == Ok::<Header, NumpyError>(
                Header { dtype: t.0, order: t.1, endianess: t.2, shape: t.3@, data_start: 0 },
            ),
            Err(e) => parse_text(text@) == Err::<Header, NumpyError>(e),
        },
{
    if !is_utf8(text) {
        return Err(NumpyError::InvalidUtf8);
    }
    let descr = match extract_in_between(
        text,
        descr_key_bytes().as_slice(),
        descr_end_bytes().as_slice(),
    ) {
        Some(s) => s,
        None => {
            return Err(NumpyError::MissingDescr);
        },
    };
    let fortran_order = match extract_in_between(
        text,
        order_key_bytes().as_slice(),
        comma_bytes().as_slice(),
    ) {
        Some(s) => s,
        None => {
            return Err(NumpyError::MissingFortranOrder);
        },
    };
    let shape = match extract_in_between(
        text,
        shape_key_bytes().as_slice(),
        shape_end_bytes().as_slice(),
    ) {
        Some(s) => s,
        None => {
            return Err(NumpyError::MissingShape);
        },
    };
    if descr.len() < 1 {
        return Err(NumpyError::EmptyDescr);
    }
    let endianess = match parse_endianess(descr[0]) {
        Some(e) => e,
        None => {
            return Err(NumpyError::BadEndianess);
        },
    };
    let code = slice_subrange(descr.as_slice(), 1, descr.len());
    assert(code@ =~= descr@.skip(1));
    let dtype = match parse_type(code) {
        Some(t) => t,
        None => {
            return Err(NumpyError::UnsupportedType);
        },
    };
    let order = match parse_order(fortran_order.as_slice()) {
        Some(o) => o,
        None => {
            return Err(NumpyError::InvalidFortranOrder);
        },
    };
    let dims = match parse_shape_text(shape.as_slice()) {
        Some(d) => d,
        None => {
            return Err(NumpyError::BadShape);
        },
    };
    Ok((dtype, order, endianess, dims))
}

impl NumpyFile {
    /// What the structure says of the file: the element type, the orders
    /// and the shape. The place where the elements begin is left at 0.
    pub closed spec fn described(&self) -> Header {
        Header {
            dtype: self.dtype,
            order: self.order,
            endianess: self.endianess,
            shape: self.shape@,
            data_start: 0,
        }
    }

    /// The path of the file.
    pub closed spec fn path_spec(&self) -> Seq<char> {
        self.path@
    }

    /// A structure for the file at the given path: 32-bit floating-point
    /// elements, row-major, little-endian, and no dimension. The file is
    /// neither created nor opened.
    pub fn new(path: &str) -> (file: NumpyFile)
        ensures
            file.path_spec() == path@,
            file.described() == (Header {
                dtype: RDSType::F32,
                order: Order::RowMajor,
                endianess: Endianess::LittleEndian,
                shape: Seq::empty(),
                data_start: 0,
            }),
    {
        NumpyFile {
            path: path.to_owned(),
            shape: Vec::new(),
            dtype: RDSType::F32,
            order: Order::RowMajor,
            endianess: Endianess::LittleEndian,
        }
    }

    /// The path of the file.
    pub fn path(&self) -> (r: &str)
        ensures
            r@ == self.path_spec(),
    {
        self.path.as_str()
    }

    /// The shape that was last read from a header or written with an array.
    pub fn shape(&self) -> (r: &[usize])
        ensures
            r@ == self.described().shape,
    {
        self.shape.as_slice()
    }

    /// The element type of the file.
    pub fn dtype(&self) -> (r: RDSType)
        ensures
            r == self.described().dtype,
    {
        self.dtype
    }

    /// The order of the elements in the file.
    pub fn order(&self) -> (r: Order)
        ensures
            r == self.described().order,
    {
        self.order
    }

    /// The byte order of the elements in the file.
    pub fn endianess(&self) -> (r: Endianess)
        ensures
            r == self.described().endianess,
    {
        self.endianess
    }

    /// Sets the element type, the order of the elements and the byte order
    /// with which an array is to be written.
    pub fn set_format(&mut self, dtype: RDSType, order: Order, endianess: Endianess)
        ensures
            final(self).path_spec() == old(self).path_spec(),
            final(self).described() == (Header {
                dtype,
                order,
                endianess,
                shape: old(self).described().shape,
                data_start: 0,
            }),
    {
        self.dtype = dtype;
        self.order = order;
        self.endianess = endianess;
    }

    /// Reads the preamble of an array file from the bytes of the file, and
    /// keeps what its header says. The result is the place where the
    /// elements begin. On an error the structure stays as it was.
    pub fn read_header(&mut self, bytes: &[u8]) -> (r: Result<usize, NumpyError>)
        ensures
            final(self).path_spec() == old(self).path_spec(),
            match parse_header(bytes@) {
                Ok(h) => r == Ok::<usize, NumpyError>(h.data_start as usize) && h.data_start
                    <= bytes@.len() && final(self).described() == (Header {
                    dtype: h.dtype,
                    order: h.order,
                    endianess: h.endianess,
                    shape: h.shape,
                    data_start: 0,
                }),
                Err(e) => r == Err::<usize, NumpyError>(e) && final(self).described() == old(
                    self,
                ).described(),
            },
    {
        let total: usize = bytes.len();
        if total < 6 {
            return Err(NumpyError::Truncated);
        }
        if !bytes_equal(slice_subrange(bytes, 0, 6), magic_bytes().as_slice()) {
            return Err(NumpyError::BadMagic);
        }
        if total < 8 {
            return Err(NumpyError::Truncated);
        }
        let major: u8 = bytes[6];
        let start: usize;
        let len: usize;
        if major == 1 {
            if total < 10 {
                return Err(NumpyError::Truncated);
            }
            let field = slice_subrange(bytes, 8, 10);
            assert(field@.subrange(0, 2) =~= field@);
            start = 10;
            len = le_read_u16(field) as usize;
        } else if major == 2 {
            if total < 12 {
                return Err(NumpyError::Truncated);
            }
            let field = slice_subrange(bytes, 8, 12);
            assert(field@.subrange(0, 4) =~= field@);
            start = 12;
            len = le_read_u32(field) as usize;
        } else {
            return Err(NumpyError::UnsupportedVersion(major));
        }
        if total - start < len {
            return Err(NumpyError::Truncated);
        }
        let text = slice_subrange(bytes, start, start + len);
        match parse_text_bytes(text) {
            Ok(t) => {
                self.dtype = t.0;
                self.order = t.1;
                self.endianess = t.2;
                self.shape = t.3;
                Ok(start + len)
            },
            Err(e) => Err(e),
        }
    }

    /// The preamble of a version 1 file for what the structure says. The
    /// whole preamble is a multiple of 16 bytes long.
    pub fn write_header(&self) -> (r: Result<Vec<u8>, NumpyError>)
        ensures
            match r {
                Ok(b) => is_preamble(
                    b@,
                    header_text(
                        dict_text(
                            self.described().dtype,
                            self.described().order,
                            self.described().endianess,
                            self.described().shape,
                        ),
                    ),
                ) && b@.len() % 16 == 0 && b@.len() <= 65545,
                Err(e) => e == NumpyError::HeaderTooLong && header_text(
                    dict_text(
                        self.described().dtype,
                        self.described().order,
                        self.described().endianess,
                        self.described().shape,
                    ),
                ).len() > 65535,
            },
    {
        let ghost dict = dict_text(self.dtype, self.order, self.endianess, self.shape@);
        let mut header: Vec<u8> = dict_open_bytes();
        header.push(
            match self.endianess {
                Endianess::LittleEndian => 60,
                Endianess::BigEndian => 62,
            },
        );
        append_bytes(&mut header, type_code_bytes(self.dtype).as_slice());
        append_bytes(&mut header, order_intro_bytes().as_slice());
        match self.order {
            Order::RowMajor => append_bytes(&mut header, text_false_bytes().as_slice()),
            Order::ColumnMajor => append_bytes(&mut header, text_true_bytes().as_slice()),
        }
        append_bytes(&mut header, shape_intro_bytes().as_slice());
        let ghost front = header@;
        assert(front =~= dict_open() + seq![endianess_char(self.endianess)] + type_code(self.dtype)
            + order_intro() + order_text(self.order) + shape_intro());
        let sep = item_end_bytes();
        let mut i: usize = 0;
        assert(self.shape@.subrange(0, 0) =~= Seq::<usize>::empty());
        assert(front + Seq::<u8>::empty() =~= front);
        while i < self.shape.len()
            invariant
                i <= self.shape@.len(),
                sep@ == item_end(),
                header@ == front + shape_text(self.shape@.subrange(0, i as int)),
            decreases self.shape@.len() - i,
        {
            let ghost so_far = shape_text(self.shape@.subrange(0, i as int));
            let ghost longer = self.shape@.subrange(0, i + 1);
            assert(longer.drop_last() =~= self.shape@.subrange(0, i as int));
            assert(longer.last() == self.shape@[i as int]);
            let digits = format_usize(self.shape[i]);
            append_bytes(&mut header, digits.as_slice());
            append_bytes(&mut header, sep.as_slice());
            assert(header@ =~= front + (so_far + digits@ + sep@));
            i += 1;
        }
        assert(self.shape@.subrange(0, self.shape@.len() as int) =~= self.shape@);
        append_bytes(&mut header, dict_close_bytes().as_slice());
        assert(header@ =~= dict);
        if header.len() > 65535 {
            return Err(NumpyError::HeaderTooLong);
        }
        let pad: usize = (16 - (header.len() + 11) % 16) % 16;
        let mut k: usize = 0;
        while k < pad
            invariant
                k <= pad,
                header@ == dict + Seq::new(k as nat, |i: int| 32u8),
            decreases pad - k,
        {
            header.push(32);
            assert(header@ =~= dict + Seq::new((k + 1) as nat, |i: int| 32u8));
            k += 1;
        }
        header.push(10);
        assert(header@ =~= header_text(dict));
        if header.len() > 65535 {
            return Err(NumpyError::HeaderTooLong);
        }
        let mut out: Vec<u8> = magic_bytes();
        out.push(1);
        out.push(0);
        let mut field = zero_bytes(2);
        le_write_u16(field.as_mut_slice(), header.len() as u16);
        assert(field@.subrange(0, 2) =~= field@);
        append_bytes(&mut out, field.as_slice());
        append_bytes(&mut out, header.as_slice());
        assert(out@.subrange(0, 6) =~= magic());
        assert(out@.subrange(8, 10) =~= field@);
        assert(out@.skip(10) =~= header@);
        Ok(out)
    }
}

/// How reading the elements of a file with the header `h` ends: with an
/// error for a shape that cannot be addressed or for a file that is too
/// short for its elements, else with the array that the file holds.
pub open spec fn read_outcome(
    bytes: Seq<u8>,
    h: Header,
    r: Result<NDArray<Scalar>, NumpyError>,
) -> bool {
    if !shape_fits(h.shape) {
        r matches Err(e) && e == NumpyError::ShapeTooLarge
    } else if bytes.len() < h.data_start + shape_size(h.shape) * h.dtype.width() {
        r matches Err(e) && e == NumpyError::Truncated
    } else {
        r matches Ok(a) && holds_array(bytes, h, a.model())
    }
}

/// Every element of the array can be coerced to the given type.
pub open spec fn all_coercible(array: ArrayModel<Scalar>, dtype: RDSType) -> bool {
    forall|idx: Seq<usize>| #[trigger]
        in_bounds(idx, array.shape) ==> array.at(idx).coerce_spec(dtype) is Some
}

/// The array with every element coerced to the given type.
pub open spec fn coerced(array: ArrayModel<Scalar>, dtype: RDSType) -> ArrayModel<Scalar> {
    ArrayModel {
        shape: array.shape,
        strides: array.strides,
        data: Seq::new(array.data.len(), |i: int| array.data[i].coerce_spec(dtype).unwrap()),
    }
}

/// The text of the header for what `h` says.
pub open spec fn header_of(h: Header) -> Seq<u8> {
    header_text(dict_text(h.dtype, h.order, h.endianess, h.shape))
}

/// How writing an array with the header `h` ends: with an error for a
/// header that is too long or for an element that cannot be coerced to the
/// type that the header names, else with the bytes of the file, which are
/// the preamble and the coerced elements, one after the other in the order
/// of the header.
pub open spec fn write_outcome(
    h: Header,
    array: ArrayModel<Scalar>,
    r: Result<Vec<u8>, NumpyError>,
) -> bool {
    let text = header_of(h);
    if text.len() > 65535 {
        r matches Err(e) && e == NumpyError::HeaderTooLong
    } else if !all_coercible(array, h.dtype) {
        r matches Err(e) && e == NumpyError::TypeMismatch
    } else {
        r matches Ok(b) && is_preamble(b@.subrange(0, 10 + text.len() as int), text) && b@.len() == 10
            + text.len() + shape_size(array.shape) * h.dtype.width() && holds_array(
            b@,
            Header {
                dtype: h.dtype,
                order: h.order,
                endianess: h.endianess,
                shape: h.shape,
                data_start: 10 + text.len() as int,
            },
            coerced(array, h.dtype),
        )
    }
}

impl NumpyFile {
    /// Reads a whole array file from its bytes: the preamble, of which the
    /// structure keeps what it says, then the elements in the order that
    /// the header names, each stored at its index.
    pub fn read_array(&mut self, bytes: &[u8]) -> (r: Result<NDArray<Scalar>, NumpyError>)
        ensures
            final(self).path_spec() == old(self).path_spec(),
            match parse_header(bytes@) {
                Ok(h) => final(self).described() == (Header {
                    dtype: h.dtype,
                    order: h.order,
                    endianess: h.endianess,
                    shape: h.shape,
                    data_start: 0,
                }) && read_outcome(bytes@, h, r),
                Err(e) => (r matches Err(x) && x == e) && final(self).described() == old(
                    self,
                ).described(),
            },
    {
        let start: usize = match self.read_header(bytes) {
            Ok(s) => s,
            Err(e) => {
                return Err(e);
            },
        };
        let ghost h = parse_header(bytes@).unwrap();
        if !shape_is_addressable(self.shape.as_slice()) {
            return Err(NumpyError::ShapeTooLarge);
        }
        let size: usize = shape_product(self.shape.as_slice());
        let w: usize = self.dtype.byte_width();
        let total: usize = bytes.len();
        let need: usize = match size.checked_mul(w) {
            Some(n) => n,
            None => {
                assert(size * w > usize::MAX);
                return Err(NumpyError::Truncated);
            },
        };
        if total - start < need {
            return Err(NumpyError::Truncated);
        }
        let dtype = self.dtype;
        let endianess = self.endianess;
        let order = self.order;
        let mut array = NDArray::<Scalar>::new(self.shape.as_slice(), Scalar::U8(0));
        let mut idx = zero_vec(self.shape.len());
        let mut running = size > 0;
        let mut k: usize = 0;
        proof {
            if running {
                lemma_zero_in_bounds(h.shape);
            }
        }
        while running
            invariant
                self.shape@ == h.shape,
                shape_fits(h.shape),
                dtype == h.dtype,
                endianess == h.endianess,
                order == h.order,
                start == h.data_start,
                w == dtype.width(),
                size == shape_size(h.shape),
                start + size * w <= bytes@.len(),
                total == bytes@.len(),
                array.model().wf(),
                array.model().shape == h.shape,
                k <= size,
                running ==> in_bounds(idx@, h.shape) && k == file_rank(order, idx@, h.shape),
                !running ==> k == size,
                forall|j: Seq<usize>|
                    (#[trigger] in_bounds(j, h.shape)) && file_rank(order, j, h.shape) < k
                        ==> array.model().at(j) == decode_scalar(
                        dtype,
                        endianess,
                        element_bytes(
                            bytes@,
                            start as int,
                            w as int,
                            file_rank(order, j, h.shape) as int,
                        ),
                    ),
            decreases size - k + (if running { 1int } else { 0int }),
        {
            let ghost here = idx@;
            let ghost stored = array.model();
            proof {
                lemma_next_in(order, here, h.shape);
                lemma_row_rank_bound(here, h.shape);
                assert(k * w + w <= size * w) by (nonlinear_arith)
                    requires
                        k < size,
                        w >= 0,
                ;
                assert((k + 1) * w == k * w + w) by (nonlinear_arith);
            }
            let off: usize = start + k * w;
            let v = decode(dtype, endianess, slice_subrange(bytes, off, off + w));
            *array.idx_mut(idx.as_slice()) = v;
            proof {
                assert forall|j: Seq<usize>|
                    (#[trigger] in_bounds(j, h.shape)) && file_rank(order, j, h.shape) < k
                        + 1 implies array.model().at(j) == decode_scalar(
                    dtype,
                    endianess,
                    element_bytes(
                        bytes@,
                        start as int,
                        w as int,
                        file_rank(order, j, h.shape) as int,
                    ),
                ) by {
                    lemma_file_rank(order, j, here, h.shape);
                    lemma_row_rank_bound(j, h.shape);
                    if file_rank(order, j, h.shape) == k {
                        assert(j == here);
                    } else {
                        if row_rank(j, h.shape) == row_rank(here, h.shape) {
                            lemma_row_rank_injective(j, here, h.shape);
                        }
                        assert(stored.at(j) == array.model().at(j));
                    }
                }
            }
            step(&mut idx, self.shape.as_slice(), order);
            k += 1;
            if idx.as_mut_slice().is_zero() {
                running = false;
            }
        }
        proof {
            assert forall|j: Seq<usize>| #[trigger] in_bounds(j, h.shape) implies array.model().at(
                j,
            ) == decode_scalar(
                h.dtype,
                h.endianess,
                element_bytes(
                    bytes@,
                    h.data_start,
                    h.dtype.width() as int,
                    file_rank(h.order, j, h.shape) as int,
                ),
            ) by {
                lemma_file_rank(order, j, j, h.shape);
            }
        }
        Ok(array)
    }

    /// The bytes of an array file that holds the array with the element
    /// type, the order and the byte order of the structure, which keeps the
    /// shape of the array. Each element is coerced to the element type of
    /// the file.
    pub fn write_data<A: NDData<Scalar>>(&mut self, array: &A) -> (r: Result<Vec<u8>, NumpyError>)
        requires
            array.model().wf(),
        ensures
            final(self).path_spec() == old(self).path_spec(),
            final(self).described() == (Header {
                dtype: old(self).described().dtype,
                order: old(self).described().order,
                endianess: old(self).described().endianess,
                shape: array.model().shape,
                data_start: 0,
            }),
            write_outcome(final(self).described(), array.model(), r),
    {
        let ghost a = array.model();
        self.shape = slice_to_vec(array.shape());
        let ghost h = self.described();
        let ghost text = header_of(h);
        let mut out: Vec<u8> = match self.write_header() {
            Ok(b) => b,
            Err(e) => {
                return Err(e);
            },
        };
        let ghost pre = out@;
        let ghost p = pre.len() as int;
        assert(pre.subrange(0, p) =~= pre);
        let dtype = self.dtype;
        let endianess = self.endianess;
        let order = self.order;
        let w: usize = dtype.byte_width();
        let size: usize = array.size();
        let mut idx = zero_vec(array.dim());
        let mut running = size > 0;
        let ghost mut k: int = 0;
        proof {
            if running {
                lemma_zero_in_bounds(a.shape);
            } else {
                assert forall|j: Seq<usize>| #[trigger] in_bounds(j, a.shape) implies a.at(
                    j,
                ).coerce_spec(dtype) is Some by {
                    lemma_row_rank_bound(j, a.shape);
                }
            }
        }
        while running
            invariant
                array.model() == a,
                a.wf(),
                self.shape@ == a.shape,
                self.described() == h,
                self.path_spec() == old(self).path_spec(),
                h.dtype == old(self).described().dtype,
                h.order == old(self).described().order,
                h.endianess == old(self).described().endianess,
                h.data_start == 0,
                h.dtype == dtype,
                h.order == order,
                h.endianess == endianess,
                h.shape == a.shape,
                text == header_of(h),
                text.len() <= 65535,
                is_preamble(pre, text),
                w == dtype.width(),
                size == shape_size(a.shape),
                p == 10 + text.len(),
                out@.len() == p + k * w,
                out@.subrange(0, p) == pre,
                0 <= k <= size,
                running ==> in_bounds(idx@, a.shape) && k == file_rank(order, idx@, a.shape),
                !running ==> k == size,
                forall|j: Seq<usize>|
                    (#[trigger] in_bounds(j, a.shape)) && file_rank(order, j, a.shape) < k ==> a.at(
                        j,
                    ).coerce_spec(dtype) is Some && a.at(j).coerce_spec(dtype).unwrap()
                        == decode_scalar(
                        dtype,
                        endianess,
                        element_bytes(out@, p, w as int, file_rank(order, j, a.shape) as int),
                    ),
            decreases size - k + (if running { 1int } else { 0int }),
        {
            let ghost here = idx@;
            let ghost written = out@;
            let v: Scalar = match array.idx(idx.as_slice()).coerce(dtype) {
                Some(v) => v,
                None => {
                    return Err(NumpyError::TypeMismatch);
                },
            };
            let chunk = encode(endianess, v);
            append_bytes(&mut out, chunk.as_slice());
            proof {
                lemma_next_in(order, here, a.shape);
                assert((k + 1) * w == k * w + w) by (nonlinear_arith);
                assert(out@.subrange(0, p) =~= pre);
                assert(element_bytes(out@, p, w as int, k) =~= chunk@);
                assert forall|j: Seq<usize>|
                    (#[trigger] in_bounds(j, a.shape)) && file_rank(order, j, a.shape) < k
                        + 1 implies a.at(j).coerce_spec(dtype) is Some && a.at(j).coerce_spec(
                    dtype,
                ).unwrap() == decode_scalar(
                    dtype,
                    endianess,
                    element_bytes(out@, p, w as int, file_rank(order, j, a.shape) as int),
                ) by {
                    let q = file_rank(order, j, a.shape) as int;
                    lemma_file_rank(order, j, here, a.shape);
                    if q == k {
                        assert(j == here);
                    } else {
                        assert((q + 1) * w <= k * w) by (nonlinear_arith)
                            requires
                                0 <= q < k,
                                w >= 0,
                        ;
                        assert(q * w >= 0) by (nonlinear_arith)
                            requires
                                0 <= q,
                                w >= 0,
                        ;
                        assert(element_bytes(out@, p, w as int, q) =~= element_bytes(
                            written,
                            p,
                            w as int,
                            q,
                        ));
                    }
                }
                k = k + 1;
            }
            step(&mut idx, array.shape(), order);
            if idx.as_mut_slice().is_zero() {
                running = false;
            }
        }
        proof {
            assert forall|j: Seq<usize>| #[trigger] in_bounds(j, a.shape) implies a.at(
                j,
            ).coerce_spec(dtype) is Some && coerced(a, dtype).at(j) == decode_scalar(
                dtype,
                endianess,
                element_bytes(out@, p, w as int, file_rank(order, j, a.shape) as int),
            ) by {
                lemma_file_rank(order, j, j, a.shape);
                lemma_row_rank_bound(j, a.shape);
            }
        }
        Ok(out)
    }
}

/// The array with each integer as an element of a file.
pub open spec fn as_scalars<T: RDSTyped>(array: ArrayModel<T>) -> ArrayModel<Scalar> {
    ArrayModel {
        shape: array.shape,
        strides: array.strides,
        data: Seq::new(array.data.len(), |i: int| array.data[i].scalar_spec()),
    }
}

/// The array with each integer as an element of a file.
pub fn scalars_of<T: RDSTyped, A: NDData<T>>(array: &A) -> (r: NDArray<Scalar>)
    requires
        array.model().wf(),
    ensures
        r.model() == as_scalars(array.model()),
        r.model().wf(),
{
    let source = array.get_data();
    let mut data: Vec<Scalar> = Vec::new();
    let mut i: usize = 0;
    while i < source.len()
        invariant
            i <= source@.len(),
            data@.len() == i,
            forall|k: int| 0 <= k < i ==> #[trigger] data@[k] == source@[k].scalar_spec(),
        decreases source@.len() - i,
    {
        data.push(source[i].to_scalar());
        i += 1;
    }
    assert(data@ =~= as_scalars(array.model()).data);
    NDArray::from_slice(array.shape(), data.as_slice())
}

/// The array with each integer element of a file cast into `T`; none if an
/// element holds a floating-point number.
pub fn typed_of<T: RDSTyped, A: NDData<Scalar>>(array: &A) -> (r: Option<NDArray<T>>)
    requires
        array.model().wf(),
    ensures
        r is Some <==> (forall|i: int|
            0 <= i < array.model().data.len() ==> T::from_scalar_spec(
                #[trigger] array.model().data[i],
            ) is Some),
        r matches Some(typed) ==> typed.model().wf() && typed.model().shape == array.model().shape
            && (forall|i: int|
            0 <= i < array.model().data.len() ==> Some(#[trigger] typed.model().data[i])
                == T::from_scalar_spec(array.model().data[i])),
{
    let source = array.get_data();
    let mut data: Vec<T> = Vec::new();
    let mut i: usize = 0;
    while i < source.len()
        invariant
            i <= source@.len(),
            data@.len() == i,
            source@ == array.model().data,
            forall|k: int|
                0 <= k < i ==> Some(#[trigger] data@[k]) == T::from_scalar_spec(source@[k]),
        decreases source@.len() - i,
    {
        match T::from_scalar(source[i]) {
            Some(v) => {
                data.push(v);
            },
            None => {
                assert(T::from_scalar_spec(array.model().data[i as int]) is None);
                return None;
            },
        }
        i += 1;
    }
    assert forall|k: int| 0 <= k < array.model().data.len() implies T::from_scalar_spec(
        #[trigger] array.model().data[k],
    ) is Some by {
        assert(Some(data@[k]) == T::from_scalar_spec(source@[k]));
    }
    Some(NDArray::from_slice(array.shape(), data.as_slice()))
}

/// How reading the elements of a file of integers into an array of `T`
/// ends: with the errors of `read_outcome`, with an error if the file holds
/// an element that cannot be cast into `T`, else with the array whose
/// element at an index is the cast of the one that the file holds for the
/// index.
pub open spec fn typed_read_outcome<T: RDSTyped>(
    bytes: Seq<u8>,
    h: Header,
    r: Result<NDArray<T>, NumpyError>,
) -> bool {
    if !shape_fits(h.shape) {
        r matches Err(e) && e == NumpyError::ShapeTooLarge
    } else if bytes.len() < h.data_start + shape_size(h.shape) * h.dtype.width() {
        r matches Err(e) && e == NumpyError::Truncated
    } else if exists|idx: Seq<usize>| #[trigger]
        in_bounds(idx, h.shape) && T::from_scalar_spec(file_element(bytes, h, idx)) is None {
        r matches Err(e) && e == NumpyError::TypeMismatch
    } else {
        r matches Ok(a) && a.model().wf() && a.model().shape == h.shape && forall|
            idx: Seq<usize>,
        | #[trigger]
            in_bounds(idx, h.shape) ==> Some(a.model().at(idx)) == T::from_scalar_spec(
                file_element(bytes, h, idx),
            )
    }
}

impl NumpyFile {
    /// Reads a whole array file of integers from its bytes, as `read_array`
    /// does, and casts each element into `T`. A file of floating-point or
    /// complex numbers gives `TypeMismatch`.
    pub fn read_array_as<T: RDSTyped>(&mut self, bytes: &[u8]) -> (r: Result<
        NDArray<T>,
        NumpyError,
    >)
        ensures
            final(self).path_spec() == old(self).path_spec(),
            match parse_header(bytes@) {
                Ok(h) => final(self).described() == (Header {
                    dtype: h.dtype,
                    order: h.order,
                    endianess: h.endianess,
                    shape: h.shape,
                    data_start: 0,
                }) && typed_read_outcome(bytes@, h, r),
                Err(e) => (r matches Err(x) && x == e) && final(self).described() == old(
                    self,
                ).described(),
            },
    {
        let read = self.read_array(bytes);
        match read {
            Ok(a) => {
                let ghost h = parse_header(bytes@).unwrap();
                let ghost m = a.model();
                match typed_of::<T, NDArray<Scalar>>(&a) {
                    Some(t) => {
                        proof {
                            assert forall|idx: Seq<usize>| #[trigger]
                                in_bounds(idx, h.shape) implies Some(t.model().at(idx))
                                == T::from_scalar_spec(file_element(bytes@, h, idx)) by {
                                lemma_row_rank_bound(idx, h.shape);
                                assert(m.at(idx) == m.data[row_rank(idx, h.shape) as int]);
                            }
                        }
                        Ok(t)
                    },
                    None => {
                        proof {
                            let i = choose|i: int|
                                0 <= i < m.data.len() && T::from_scalar_spec(
                                    #[trigger] m.data[i],
                                ) is None;
                            lemma_row_rank_surjective(i as nat, h.shape);
                            let idx = index_at(i as nat, h.shape);
                            assert(in_bounds(idx, h.shape));
                            assert(m.at(idx) == m.data[i]);
                        }
                        Err(NumpyError::TypeMismatch)
                    },
                }
            },
            Err(e) => Err(e),
        }
    }

    /// The bytes of an array file that holds an array of integers, each
    /// cast to the element type of the structure, as `write_data` gives
    /// them for the array of the elements.
    pub fn write_data_of<T: RDSTyped, A: NDData<T>>(&mut self, array: &A) -> (r: Result<
        Vec<u8>,
        NumpyError,
    >)
        requires
            array.model().wf(),
        ensures
            final(self).path_spec() == old(self).path_spec(),
            final(self).described() == (Header {
                dtype: old(self).described().dtype,
                order: old(self).described().order,
                endianess: old(self).described().endianess,
                shape: array.model().shape,
                data_start: 0,
            }),
            write_outcome(final(self).described(), as_scalars(array.model()), r),
    {
        let scalars = scalars_of(array);
        self.write_data(&scalars)
    }
}

/// A file holds one array: two arrays that are what the elements of a file
/// with the header `h` say, such as the one that was written to the file
/// and the one that is read from it, have the same shape and the same
/// element at every index.
pub proof fn lemma_file_holds_one_array(
    bytes: Seq<u8>,
    h: Header,
    written: ArrayModel<Scalar>,
    read: ArrayModel<Scalar>,
)
    requires
        holds_array(bytes, h, written),
        holds_array(bytes, h, read),
    ensures
        read.same_as(written),
{
}

} // verus!
