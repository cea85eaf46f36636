use rds::array::numpy::{
    decode, encode, scalars_of, typed_of, Endianess, NumpyError, NumpyFile, Order,
};
use rds::array::{NDArray, NDData, NDDataMut};
use rds::types::{RDSType, Scalar};

const MAGIC: [u8; 6] = [0x93, b'N', b'U', b'M', b'P', b'Y'];

fn file_with_header(major: u8, text: &str, data: &[u8]) -> Vec<u8> {
    let mut bytes = MAGIC.to_vec();
    bytes.push(major);
    bytes.push(0);
    if major == 2 {
        bytes.extend_from_slice(&(text.len() as u32).to_le_bytes());
    } else {
        bytes.extend_from_slice(&(text.len() as u16).to_le_bytes());
    }
    bytes.extend_from_slice(text.as_bytes());
    bytes.extend_from_slice(data);
    bytes
}

fn scalar_of(dtype: RDSType, v: usize) -> Scalar {
    match dtype {
        RDSType::U8 => Scalar::U8(v as u8),
        RDSType::U16 => Scalar::U16(v as u16),
        RDSType::U32 => Scalar::U32(v as u32),
        RDSType::U64 => Scalar::U64(v as u64),
        RDSType::I8 => Scalar::I8(-(v as i8)),
        RDSType::I16 => Scalar::I16(-(v as i16)),
        RDSType::I32 => Scalar::I32(-(v as i32)),
        RDSType::I64 => Scalar::I64(-(v as i64)),
        RDSType::F32 => Scalar::F32((v as f32).to_bits()),
        RDSType::F64 => Scalar::F64((v as f64).to_bits()),
        RDSType::C32 => Scalar::C32((v as f32).to_bits(), (0.5f32).to_bits()),
        RDSType::C64 => Scalar::C64((v as f64).to_bits(), (0.5f64).to_bits()),
    }
}

fn sample(dtype: RDSType) -> NDArray<Scalar> {
    let mut array = NDArray::<Scalar>::new(&[2, 3], scalar_of(dtype, 0));
    for i in 0..2 {
        for j in 0..3 {
            *array.idx_mut(&[i, j]) = scalar_of(dtype, i * 3 + j * 5);
        }
    }
    array
}

const ALL_TYPES: [RDSType; 12] = [
    RDSType::U8,
    RDSType::U16,
    RDSType::U32,
    RDSType::U64,
    RDSType::I8,
    RDSType::I16,
    RDSType::I32,
    RDSType::I64,
    RDSType::F32,
    RDSType::F64,
    RDSType::C32,
    RDSType::C64,
];

#[test]
fn round_trip_every_type_order_and_endianess() {
    for dtype in ALL_TYPES {
        for order in [Order::RowMajor, Order::ColumnMajor] {
            for endianess in [Endianess::LittleEndian, Endianess::BigEndian] {
                let array = sample(dtype);
                let mut out = NumpyFile::new("out.npy");
                out.set_format(dtype, order, endianess);
                let bytes = out.write_data(&array).unwrap();
                assert_eq!(out.shape(), &[2, 3]);
                let mut back = NumpyFile::new("out.npy");
                let read = back.read_array(&bytes).unwrap();
                assert!(read == array);
                assert_eq!(back.dtype(), dtype);
                assert_eq!(back.order(), order);
                assert_eq!(back.endianess(), endianess);
                assert_eq!(back.shape(), &[2, 3]);
            }
        }
    }
}

#[test]
fn round_trip_float_values() {
    let values = [0.0f64, 5.0, 10.0, 3.0, 8.0, 13.0];
    let mut array = NDArray::<Scalar>::new(&[2, 3], Scalar::F64(0));
    for i in 0..2 {
        for j in 0..3 {
            *array.idx_mut(&[i, j]) = Scalar::F64(((i * 3 + j * 5) as f64).to_bits());
        }
    }
    let mut file = NumpyFile::new("f.npy");
    file.set_format(RDSType::F64, Order::RowMajor, Endianess::LittleEndian);
    let bytes = file.write_data(&array).unwrap();
    let data = &bytes[bytes.len() - 48..];
    for (k, v) in values.iter().enumerate() {
        assert_eq!(&data[k * 8..k * 8 + 8], &v.to_le_bytes());
    }
    let read = NumpyFile::new("f.npy").read_array(&bytes).unwrap();
    for i in 0..2 {
        for j in 0..3 {
            match *read.idx(&[i, j]) {
                Scalar::F64(bits) => assert_eq!(f64::from_bits(bits), (i * 3 + j * 5) as f64),
                _ => panic!("wrong element type"),
            }
        }
    }
}

#[test]
fn write_gives_exact_bytes() {
    let mut array = NDArray::<Scalar>::new(&[2, 3], Scalar::I32(0));
    for i in 0..2 {
        for j in 0..3 {
            *array.idx_mut(&[i, j]) = Scalar::I32((i * 3 + j * 5) as i32);
        }
    }
    let mut file = NumpyFile::new("a.npy");
    file.set_format(RDSType::I32, Order::RowMajor, Endianess::LittleEndian);
    let bytes = file.write_data(&array).unwrap();
    let dict = "{'descr': '<i4', 'fortran_order': False, 'shape': (2, 3, ), }";
    let mut text = dict.to_string();
    while (10 + text.len() + 1) % 16 != 0 {
        text.push(' ');
    }
    text.push('\n');
    let mut data = Vec::new();
    for v in [0i32, 5, 10, 3, 8, 13] {
        data.extend_from_slice(&v.to_le_bytes());
    }
    assert_eq!(bytes, file_with_header(1, &text, &data));
    assert_eq!((bytes.len() - data.len()) % 16, 0);
    assert_eq!(bytes[bytes.len() - data.len() - 1], b'\n');
}

#[test]
fn write_column_major_big_endian() {
    let mut array = NDArray::<Scalar>::new(&[2, 3], Scalar::U16(0));
    for i in 0..2 {
        for j in 0..3 {
            *array.idx_mut(&[i, j]) = Scalar::U16((256 + i * 3 + j * 5) as u16);
        }
    }
    let mut file = NumpyFile::new("a.npy");
    file.set_format(RDSType::U16, Order::ColumnMajor, Endianess::BigEndian);
    let bytes = file.write_data(&array).unwrap();
    let header = file.write_header().unwrap();
    assert_eq!(&bytes[..header.len()], &header[..]);
    let text = String::from_utf8(header[10..].to_vec()).unwrap();
    assert!(text.starts_with("{'descr': '>u2', 'fortran_order': True, 'shape': (2, 3, ), }"));
    assert_eq!(&bytes[header.len()..], &[1, 0, 1, 3, 1, 5, 1, 8, 1, 10, 1, 13]);
}

#[test]
fn header_spells_long_dimensions() {
    let array = NDArray::<Scalar>::new(&[10, 300, 1], Scalar::U8(7));
    let mut file = NumpyFile::new("a.npy");
    file.set_format(RDSType::U8, Order::RowMajor, Endianess::LittleEndian);
    let bytes = file.write_data(&array).unwrap();
    let len = u16::from_le_bytes([bytes[8], bytes[9]]) as usize;
    let text = String::from_utf8(bytes[10..10 + len].to_vec()).unwrap();
    assert!(text.starts_with("{'descr': '<u1', 'fortran_order': False, 'shape': (10, 300, 1, ), }"));
    assert_eq!(bytes.len(), 10 + len + 3000);
    let mut back = NumpyFile::new("a.npy");
    assert!(back.read_array(&bytes).unwrap() == array);
    assert_eq!(back.shape(), &[10, 300, 1]);
}

#[test]
fn read_header_of_both_versions() {
    let text = "{'descr': '<f8', 'fortran_order': False, 'shape': (3,), }          \n";
    for major in [1u8, 2] {
        let bytes = file_with_header(major, text, &[0; 24]);
        let mut file = NumpyFile::new("x.npy");
        let start = file.read_header(&bytes).unwrap();
        assert_eq!(start, bytes.len() - 24);
        assert_eq!(file.dtype(), RDSType::F64);
        assert_eq!(file.order(), Order::RowMajor);
        assert_eq!(file.endianess(), Endianess::LittleEndian);
        assert_eq!(file.shape(), &[3]);
    }
}

#[test]
fn read_header_fields() {
    let mut file = NumpyFile::new("x.npy");
    let bytes = file_with_header(1, "{'descr': '|u1', 'fortran_order': True, 'shape': (), }\n", &[9]);
    let array = file.read_array(&bytes).unwrap();
    assert_eq!(file.endianess(), Endianess::LittleEndian);
    assert_eq!(file.order(), Order::ColumnMajor);
    assert_eq!(file.shape().len(), 0);
    assert_eq!(*array.idx(&[]), Scalar::U8(9));

    let bytes = file_with_header(1, "{'shape': ( 2 ,\t3 ), 'fortran_order': True, 'descr': '>c16', }", &[0; 96]);
    file.read_header(&bytes).unwrap();
    assert_eq!(file.dtype(), RDSType::C64);
    assert_eq!(file.endianess(), Endianess::BigEndian);
    assert_eq!(file.shape(), &[2, 3]);
}

#[test]
fn read_column_major_places_elements() {
    let text = "{'descr': '<u1', 'fortran_order': True, 'shape': (2, 3), }\n";
    let bytes = file_with_header(1, text, &[0, 3, 5, 8, 10, 13]);
    let array = NumpyFile::new("x.npy").read_array(&bytes).unwrap();
    for i in 0..2 {
        for j in 0..3 {
            assert_eq!(*array.idx(&[i, j]), Scalar::U8((i * 3 + j * 5) as u8));
        }
    }
    assert_eq!(array.strides(), &[3, 1]);
}

fn header_error(major: u8, text: &str) -> NumpyError {
    let bytes = file_with_header(major, text, &[0; 64]);
    let mut file = NumpyFile::new("x.npy");
    let before = (file.dtype(), file.order(), file.endianess(), file.shape().to_vec());
    let error = file.read_header(&bytes).unwrap_err();
    assert_eq!(before, (file.dtype(), file.order(), file.endianess(), file.shape().to_vec()));
    assert_eq!(file.read_array(&bytes).err(), Some(error));
    error
}

#[test]
fn bad_magic_is_an_error() {
    let mut bytes = file_with_header(1, "{'descr': '<u1', 'fortran_order': False, 'shape': (1,), }", &[1]);
    bytes[1] = b'M';
    let mut file = NumpyFile::new("x.npy");
    assert_eq!(file.read_header(&bytes), Err(NumpyError::BadMagic));
    assert_eq!(file.read_array(&bytes).err(), Some(NumpyError::BadMagic));
    assert_eq!(file.read_header(b"PK\x03\x04\x00\x00\x00\x00"), Err(NumpyError::BadMagic));
}

#[test]
fn header_errors() {
    let good = "{'descr': '<u1', 'fortran_order': False, 'shape': (1,), }";
    assert_eq!(header_error(3, good), NumpyError::UnsupportedVersion(3));
    assert_eq!(header_error(0, good), NumpyError::UnsupportedVersion(0));
    assert_eq!(
        header_error(1, "{'fortran_order': False, 'shape': (1,), }"),
        NumpyError::MissingDescr
    );
    assert_eq!(header_error(1, "{'descr': '<u1', 'shape': (1) }"), NumpyError::MissingFortranOrder);
    assert_eq!(
        header_error(1, "{'descr': '<u1', 'fortran_order': False, }"),
        NumpyError::MissingShape
    );
    assert_eq!(
        header_error(1, "{'descr': '', 'fortran_order': False, 'shape': (1,), }"),
        NumpyError::EmptyDescr
    );
    assert_eq!(
        header_error(1, "{'descr': '=u1', 'fortran_order': False, 'shape': (1,), }"),
        NumpyError::BadEndianess
    );
    assert_eq!(
        header_error(1, "{'descr': '<u3', 'fortran_order': False, 'shape': (1,), }"),
        NumpyError::UnsupportedType
    );
    assert_eq!(
        header_error(1, "{'descr': '<', 'fortran_order': False, 'shape': (1,), }"),
        NumpyError::UnsupportedType
    );
    assert_eq!(
        header_error(1, "{'descr': '<u1', 'fortran_order': false, 'shape': (1,), }"),
        NumpyError::InvalidFortranOrder
    );
    assert_eq!(
        header_error(1, "{'descr': '<u1', 'fortran_order': False, 'shape': (1, x), }"),
        NumpyError::BadShape
    );
    assert_eq!(
        header_error(1, "{'descr': '<u1', 'fortran_order': False, 'shape': (-1,), }"),
        NumpyError::BadShape
    );
    assert_eq!(
        header_error(1, "{'descr': '<u1', 'fortran_order': False, 'shape': (99999999999999999999,), }"),
        NumpyError::BadShape
    );
}

#[test]
fn invalid_utf8_header_is_an_error() {
    let mut bytes = file_with_header(1, "{'descr': '<u1', 'fortran_order': False, 'shape': (1,), }?", &[1]);
    let last = bytes.len() - 2;
    bytes[last] = 0xff;
    assert_eq!(NumpyFile::new("x.npy").read_header(&bytes), Err(NumpyError::InvalidUtf8));
}

#[test]
fn truncated_files_are_errors() {
    let mut file = NumpyFile::new("x.npy");
    assert_eq!(file.read_header(&[]), Err(NumpyError::Truncated));
    assert_eq!(file.read_header(&MAGIC[..5]), Err(NumpyError::Truncated));
    assert_eq!(file.read_header(&MAGIC), Err(NumpyError::Truncated));
    let whole = file_with_header(1, "{'descr': '<u2', 'fortran_order': False, 'shape': (2,), }", &[1, 0, 2, 0]);
    assert_eq!(file.read_header(&whole[..9]), Err(NumpyError::Truncated));
    assert_eq!(file.read_header(&whole[..30]), Err(NumpyError::Truncated));
    assert_eq!(file.read_array(&whole[..whole.len() - 1]).err(), Some(NumpyError::Truncated));
    let array = file.read_array(&whole).unwrap();
    assert_eq!(array.get_data(), &[Scalar::U16(1), Scalar::U16(2)]);
    let two = file_with_header(2, "abc", &[]);
    assert_eq!(file.read_header(&two[..11]), Err(NumpyError::Truncated));
}

#[test]
fn shape_too_large_is_an_error() {
    let text = "{'descr': '<u1', 'fortran_order': False, 'shape': (18446744073709551615, 2), }";
    let bytes = file_with_header(1, text, &[0; 8]);
    let mut file = NumpyFile::new("x.npy");
    assert_eq!(file.read_array(&bytes).err(), Some(NumpyError::ShapeTooLarge));
    assert_eq!(file.shape(), &[18446744073709551615, 2]);
    let text = "{'descr': '<u8', 'fortran_order': False, 'shape': (4611686018427387904,), }";
    let bytes = file_with_header(1, text, &[0; 8]);
    assert_eq!(file.read_array(&bytes).err(), Some(NumpyError::Truncated));
}

#[test]
fn empty_array_round_trip() {
    let array = NDArray::<Scalar>::new(&[2, 0], Scalar::U8(0));
    let mut file = NumpyFile::new("x.npy");
    file.set_format(RDSType::U8, Order::RowMajor, Endianess::LittleEndian);
    let bytes = file.write_data(&array).unwrap();
    assert_eq!(bytes.len() % 16, 0);
    let read = NumpyFile::new("x.npy").read_array(&bytes).unwrap();
    assert_eq!(read.shape(), &[2, 0]);
    assert_eq!(read.size(), 0);
}

#[test]
fn write_coerces_integers_and_refuses_floats() {
    let mut array = NDArray::<Scalar>::new(&[2, 2], Scalar::U8(1));
    let mut file = NumpyFile::new("x.npy");
    file.set_format(RDSType::U8, Order::RowMajor, Endianess::LittleEndian);
    assert!(file.write_data(&array).is_ok());
    *array.idx_mut(&[1, 1]) = Scalar::I16(-2);
    let bytes = file.write_data(&array).unwrap();
    assert_eq!(&bytes[bytes.len() - 4..], &[1, 1, 1, 254]);
    file.set_format(RDSType::I32, Order::RowMajor, Endianess::BigEndian);
    let bytes = file.write_data(&array).unwrap();
    assert_eq!(
        &bytes[bytes.len() - 16..],
        &[0, 0, 0, 1, 0, 0, 0, 1, 0, 0, 0, 1, 255, 255, 255, 254]
    );
    file.set_format(RDSType::F32, Order::RowMajor, Endianess::LittleEndian);
    assert_eq!(file.write_data(&array), Err(NumpyError::TypeMismatch));
    *array.idx_mut(&[0, 1]) = Scalar::F64(0);
    file.set_format(RDSType::U8, Order::RowMajor, Endianess::LittleEndian);
    assert_eq!(file.write_data(&array), Err(NumpyError::TypeMismatch));
}

#[test]
fn round_trip_integer_arrays() {
    let integer_types = [
        RDSType::U8,
        RDSType::U16,
        RDSType::U32,
        RDSType::U64,
        RDSType::I8,
        RDSType::I16,
        RDSType::I32,
        RDSType::I64,
    ];
    let mut bytes_array = NDArray::<u8>::new(&[2, 3], 0);
    let mut int_array = NDArray::<i32>::new(&[2, 3], 0);
    for i in 0..2 {
        for j in 0..3 {
            *bytes_array.idx_mut(&[i, j]) = (i * 3 + j * 5) as u8;
            *int_array.idx_mut(&[i, j]) = (i * 3 + j * 5) as i32;
        }
    }
    for dtype in integer_types {
        for order in [Order::RowMajor, Order::ColumnMajor] {
            for endianess in [Endianess::LittleEndian, Endianess::BigEndian] {
                let mut file = NumpyFile::new("x.npy");
                file.set_format(dtype, order, endianess);
                let bytes = file.write_data(&scalars_of(&bytes_array)).unwrap();
                let read = NumpyFile::new("x.npy").read_array(&bytes).unwrap();
                assert_eq!(read.idx(&[1, 2]).dtype(), dtype);
                assert!(typed_of::<u8, _>(&read).unwrap() == bytes_array);
                let bytes = file.write_data(&scalars_of(&int_array)).unwrap();
                let read = NumpyFile::new("x.npy").read_array(&bytes).unwrap();
                assert!(typed_of::<i32, _>(&read).unwrap() == int_array);
            }
        }
    }
}

#[test]
fn round_trip_float_arrays() {
    for order in [Order::RowMajor, Order::ColumnMajor] {
        for endianess in [Endianess::LittleEndian, Endianess::BigEndian] {
            let mut singles = NDArray::<Scalar>::new(&[2, 3], Scalar::F32(0));
            let mut doubles = NDArray::<Scalar>::new(&[2, 3], Scalar::F64(0));
            for i in 0..2 {
                for j in 0..3 {
                    *singles.idx_mut(&[i, j]) = Scalar::F32(((i * 3 + j * 5) as f32).to_bits());
                    *doubles.idx_mut(&[i, j]) = Scalar::F64(((i * 3 + j * 5) as f64).to_bits());
                }
            }
            let mut file = NumpyFile::new("x.npy");
            file.set_format(RDSType::F32, order, endianess);
            let bytes = file.write_data(&singles).unwrap();
            assert!(NumpyFile::new("x.npy").read_array(&bytes).unwrap() == singles);
            file.set_format(RDSType::F64, order, endianess);
            let bytes = file.write_data(&doubles).unwrap();
            let read = NumpyFile::new("x.npy").read_array(&bytes).unwrap();
            assert!(read == doubles);
            assert!(typed_of::<u8, _>(&read).is_none());
            match *read.idx(&[1, 2]) {
                Scalar::F64(bits) => assert_eq!(f64::from_bits(bits), 13.0),
                _ => panic!("wrong element type"),
            }
        }
    }
}

#[test]
fn write_refuses_too_long_header() {
    let shape = vec![1usize; 30000];
    let array = NDArray::<Scalar>::new(&shape, Scalar::U8(1));
    let mut file = NumpyFile::new("x.npy");
    file.set_format(RDSType::U8, Order::RowMajor, Endianess::LittleEndian);
    assert_eq!(file.write_data(&array), Err(NumpyError::HeaderTooLong));
    assert_eq!(file.write_header(), Err(NumpyError::HeaderTooLong));
}

#[test]
fn new_file_defaults() {
    let file = NumpyFile::new("data.npy");
    assert_eq!(file.path(), "data.npy");
    assert_eq!(file.dtype(), RDSType::F32);
    assert_eq!(file.order(), Order::RowMajor);
    assert_eq!(file.endianess(), Endianess::LittleEndian);
    assert_eq!(file.shape().len(), 0);
    assert!(file.dtype == RDSType::F32);
}

#[test]
fn elements_as_bytes() {
    let le = Endianess::LittleEndian;
    let be = Endianess::BigEndian;
    assert_eq!(encode(le, Scalar::U8(200)), vec![200]);
    assert_eq!(encode(le, Scalar::I8(-2)), vec![254]);
    assert_eq!(encode(le, Scalar::U16(0x0102)), vec![2, 1]);
    assert_eq!(encode(be, Scalar::U16(0x0102)), vec![1, 2]);
    assert_eq!(encode(le, Scalar::I16(-2)), vec![254, 255]);
    assert_eq!(encode(le, Scalar::U32(0x01020304)), vec![4, 3, 2, 1]);
    assert_eq!(encode(be, Scalar::I32(-2)), vec![255, 255, 255, 254]);
    assert_eq!(encode(be, Scalar::U64(0x0102030405060708)), vec![1, 2, 3, 4, 5, 6, 7, 8]);
    assert_eq!(encode(le, Scalar::I64(-2)), vec![254, 255, 255, 255, 255, 255, 255, 255]);
    assert_eq!(encode(le, Scalar::F32(1.5f32.to_bits())), 1.5f32.to_le_bytes().to_vec());
    assert_eq!(encode(be, Scalar::F64(1.5f64.to_bits())), 1.5f64.to_be_bytes().to_vec());
    assert_eq!(encode(be, Scalar::C32(1, 2)), vec![0, 0, 0, 1, 0, 0, 0, 2]);
    assert_eq!(
        encode(le, Scalar::C64(1, 2)),
        vec![1, 0, 0, 0, 0, 0, 0, 0, 2, 0, 0, 0, 0, 0, 0, 0]
    );

    assert_eq!(decode(RDSType::U8, le, &[200]), Scalar::U8(200));
    assert_eq!(decode(RDSType::I8, be, &[254]), Scalar::I8(-2));
    assert_eq!(decode(RDSType::U16, le, &[2, 1]), Scalar::U16(0x0102));
    assert_eq!(decode(RDSType::U16, be, &[2, 1]), Scalar::U16(0x0201));
    assert_eq!(decode(RDSType::I16, be, &[255, 254]), Scalar::I16(-2));
    assert_eq!(decode(RDSType::U32, be, &[1, 2, 3, 4]), Scalar::U32(0x01020304));
    assert_eq!(decode(RDSType::I32, le, &[254, 255, 255, 255]), Scalar::I32(-2));
    assert_eq!(decode(RDSType::U64, le, &[8, 7, 6, 5, 4, 3, 2, 1]), Scalar::U64(0x0102030405060708));
    assert_eq!(decode(RDSType::I64, be, &[255, 255, 255, 255, 255, 255, 255, 254]), Scalar::I64(-2));
    assert_eq!(decode(RDSType::F32, le, &2.5f32.to_le_bytes()), Scalar::F32(2.5f32.to_bits()));
    assert_eq!(decode(RDSType::F64, be, &2.5f64.to_be_bytes()), Scalar::F64(2.5f64.to_bits()));
    assert_eq!(decode(RDSType::C32, le, &[1, 0, 0, 0, 2, 0, 0, 0]), Scalar::C32(1, 2));
    assert_eq!(
        decode(RDSType::C64, be, &[0, 0, 0, 0, 0, 0, 0, 1, 0, 0, 0, 0, 0, 0, 0, 2]),
        Scalar::C64(1, 2)
    );
}

#[test]
fn typed_integer_arrays_round_trip() {
    let array = NDArray::<i32>::from_slice(&[2, 3], &[0, 5, 10, 3, 8, 13]);
    let mut file = NumpyFile::new("x.npy");
    file.set_format(RDSType::I16, Order::ColumnMajor, Endianess::BigEndian);
    let bytes = file.write_data_of(&array).unwrap();
    assert_eq!(&bytes[bytes.len() - 12..], &[0, 0, 0, 3, 0, 5, 0, 8, 0, 10, 0, 13]);
    let mut back = NumpyFile::new("x.npy");
    let read: NDArray<i32> = back.read_array_as(&bytes).unwrap();
    assert!(read == array);
    assert_eq!(back.dtype(), RDSType::I16);
    let narrow: NDArray<u8> = back.read_array_as(&bytes).unwrap();
    assert_eq!(narrow.get_data(), &[0, 5, 10, 3, 8, 13]);

    let wide = NDArray::<i32>::from_slice(&[2], &[-1, 70000]);
    file.set_format(RDSType::U16, Order::RowMajor, Endianess::LittleEndian);
    let bytes = file.write_data_of(&wide).unwrap();
    assert_eq!(&bytes[bytes.len() - 4..], &[255, 255, 112, 17]);
    let read: NDArray<i64> = NumpyFile::new("x.npy").read_array_as(&bytes).unwrap();
    assert_eq!(read.get_data(), &[65535, 4464]);
}

#[test]
fn typed_read_refuses_floats() {
    let text = "{'descr': '<f4', 'fortran_order': False, 'shape': (2,), }\n";
    let bytes = file_with_header(1, text, &[0; 8]);
    let mut file = NumpyFile::new("x.npy");
    assert_eq!(file.read_array_as::<u8>(&bytes).err(), Some(NumpyError::TypeMismatch));
    assert_eq!(file.dtype(), RDSType::F32);
    let empty = file_with_header(1, "{'descr': '<f4', 'fortran_order': False, 'shape': (0,), }", &[]);
    assert_eq!(file.read_array_as::<u8>(&empty).unwrap().size(), 0);
    assert_eq!(file.read_array_as::<u8>(&bytes[..12]).err(), Some(NumpyError::Truncated));
    let mut broken = bytes.clone();
    broken[0] = 0;
    assert_eq!(file.read_array_as::<u8>(&broken).err(), Some(NumpyError::BadMagic));
    let array = NDArray::<u8>::new(&[2], 1);
    file.set_format(RDSType::F64, Order::RowMajor, Endianess::LittleEndian);
    assert_eq!(file.write_data_of(&array), Err(NumpyError::TypeMismatch));
}
