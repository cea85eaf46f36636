use rds::types::cast::Cast;
use rds::types::{RDSType, RDSTyped, Scalar};

#[test]
fn casts_keep_values_that_fit() {
    assert_eq!(Cast::<u16>::cast(200u8), 200u16);
    assert_eq!(Cast::<i64>::cast(-5i8), -5i64);
    assert_eq!(Cast::<u64>::cast(7u32), 7u64);
    assert_eq!(Cast::<i32>::cast(65535u16), 65535i32);
    assert_eq!(Cast::<u8>::cast(255u64), 255u8);
}

#[test]
fn casts_truncate_other_values() {
    assert_eq!(Cast::<u8>::cast(300u16), 44u8);
    assert_eq!(Cast::<u8>::cast(-1i32), 255u8);
    assert_eq!(Cast::<i8>::cast(200u8), -56i8);
    assert_eq!(Cast::<u64>::cast(-1i8), u64::MAX);
    assert_eq!(Cast::<i16>::cast(0x12348000u32), -32768i16);
    assert_eq!(Cast::<u32>::cast(-2i64), 4294967294u32);
}

#[test]
fn types_name_themselves() {
    assert_eq!(<u8 as RDSTyped>::t(), RDSType::U8);
    assert_eq!(<u16 as RDSTyped>::t(), RDSType::U16);
    assert_eq!(<u32 as RDSTyped>::t(), RDSType::U32);
    assert_eq!(<u64 as RDSTyped>::t(), RDSType::U64);
    assert_eq!(<i8 as RDSTyped>::t(), RDSType::I8);
    assert_eq!(<i16 as RDSTyped>::t(), RDSType::I16);
    assert_eq!(<i32 as RDSTyped>::t(), RDSType::I32);
    assert_eq!(<i64 as RDSTyped>::t(), RDSType::I64);
}

#[test]
fn scalars_know_their_type_and_width() {
    assert_eq!(Scalar::U8(1).dtype(), RDSType::U8);
    assert_eq!(Scalar::I64(-1).dtype(), RDSType::I64);
    assert_eq!(Scalar::F32(0).dtype(), RDSType::F32);
    assert_eq!(Scalar::C64(0, 0).dtype(), RDSType::C64);
    assert_eq!(RDSType::U8.byte_width(), 1);
    assert_eq!(RDSType::I16.byte_width(), 2);
    assert_eq!(RDSType::F32.byte_width(), 4);
    assert_eq!(RDSType::C32.byte_width(), 8);
    assert_eq!(RDSType::F64.byte_width(), 8);
    assert_eq!(RDSType::C64.byte_width(), 16);
}

#[test]
fn scalars_coerce_between_integer_types() {
    assert_eq!(Scalar::U8(200).coerce(RDSType::U8), Some(Scalar::U8(200)));
    assert_eq!(Scalar::U8(200).coerce(RDSType::I8), Some(Scalar::I8(-56)));
    assert_eq!(Scalar::I16(-2).coerce(RDSType::U32), Some(Scalar::U32(4294967294)));
    assert_eq!(Scalar::U64(65537).coerce(RDSType::U16), Some(Scalar::U16(1)));
    assert_eq!(Scalar::I64(-1).coerce(RDSType::I8), Some(Scalar::I8(-1)));
    assert_eq!(Scalar::U8(1).coerce(RDSType::F32), None);
    assert_eq!(Scalar::F32(7).coerce(RDSType::U8), None);
    assert_eq!(Scalar::F32(7).coerce(RDSType::F64), None);
    assert_eq!(Scalar::F32(7).coerce(RDSType::F32), Some(Scalar::F32(7)));
    assert_eq!(Scalar::C64(1, 2).coerce(RDSType::C64), Some(Scalar::C64(1, 2)));
}

#[test]
fn integers_to_and_from_scalars() {
    assert_eq!(7u8.to_scalar(), Scalar::U8(7));
    assert_eq!((-7i64).to_scalar(), Scalar::I64(-7));
    assert_eq!(<u8 as RDSTyped>::from_scalar(Scalar::U16(300)), Some(44));
    assert_eq!(<i32 as RDSTyped>::from_scalar(Scalar::I8(-3)), Some(-3));
    assert_eq!(<u64 as RDSTyped>::from_scalar(Scalar::I8(-1)), Some(u64::MAX));
    assert_eq!(<i16 as RDSTyped>::from_scalar(Scalar::F32(0)), None);
    assert_eq!(<i16 as RDSTyped>::from_scalar(Scalar::C32(0, 0)), None);
}
