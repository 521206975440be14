use integer_encoding::reader::{ReadError, VarIntProcessor, MAX_VARINT_BYTES};
use integer_encoding::FixedInt;
use integer_encoding::FixedIntReader;
use integer_encoding::FixedIntWriter;
use integer_encoding::VarInt;
use integer_encoding::VarIntReader;
use integer_encoding::VarIntWriter;

#[test]
fn write_varint_appends_and_counts() {
    let mut buf: Vec<u8> = vec![0x11];
    assert_eq!(buf.write_varint(300_u32).unwrap(), 2);
    assert_eq!(buf.write_varint(-1_i8).unwrap(), 1);
    assert_eq!(buf.write_varint(u64::MAX).unwrap(), 10);
    assert_eq!(
        buf,
        vec![0x11, 0xAC, 0x02, 0x01, 0xFF, 0xFF, 0xFF, 0xFF, 0xFF, 0xFF, 0xFF, 0xFF, 0xFF, 0x01]
    );
}

#[test]
fn write_fixedint_appends_and_counts() {
    let mut buf: Vec<u8> = vec![0x11];
    assert_eq!(buf.write_fixedint(258_u16).unwrap(), 2);
    assert_eq!(buf.write_fixedint(-2_i32).unwrap(), 4);
    assert_eq!(buf.write_fixedint(7_u8).unwrap(), 1);
    assert_eq!(buf, vec![0x11, 0x02, 0x01, 0xFE, 0xFF, 0xFF, 0xFF, 0x07]);
}

#[test]
fn three_varints_then_the_end() {
    let mut buf: Vec<u8> = Vec::new();
    buf.write_varint(1_u32).unwrap();
    buf.write_varint(300_u32).unwrap();
    buf.write_varint(u32::MAX).unwrap();

    let mut reader: &[u8] = &buf;
    assert_eq!(reader.read_varint::<u32>(), Ok(1));
    assert_eq!(reader.read_varint::<u32>(), Ok(300));
    assert_eq!(reader.read_varint::<u32>(), Ok(u32::MAX));
    assert_eq!(reader.read_varint::<u32>(), Err(ReadError::UnexpectedEof));
    assert_eq!(reader.read_varint::<u32>(), Err(ReadError::UnexpectedEof));
}

#[test]
fn values_come_back_in_their_order() {
    let values: Vec<i64> = vec![0, -1, 1, 150, -150, i64::MAX, i64::MIN, 4200123456000];
    let mut buf: Vec<u8> = Vec::new();
    let mut written = 0;
    for v in &values {
        written += buf.write_varint(*v).unwrap();
    }
    assert_eq!(written, buf.len());

    let mut reader: &[u8] = &buf;
    for v in &values {
        let before = reader.len();
        assert_eq!(reader.read_varint::<i64>(), Ok(*v));
        assert_eq!(before - reader.len(), v.required_space());
    }
    assert!(reader.is_empty());
    assert_eq!(reader.read_varint::<i64>(), Err(ReadError::UnexpectedEof));
}

#[test]
fn a_read_takes_only_its_own_bytes() {
    let data = [0xAC_u8, 0x02, 0x99, 0x01];
    let mut reader: &[u8] = &data;
    assert_eq!(reader.read_varint::<u16>(), Ok(300));
    assert_eq!(reader, &[0x99, 0x01]);
    assert_eq!(reader.read_varint::<u16>(), Ok(153));
    assert!(reader.is_empty());
}

#[test]
fn the_end_in_the_middle_of_a_varint() {
    let data = [0xFF_u8, 0xFF];
    let mut reader: &[u8] = &data;
    assert_eq!(reader.read_varint::<u64>(), Err(ReadError::UnexpectedEof));
    assert!(reader.is_empty());

    let data = [0x80_u8; 10];
    let mut reader: &[u8] = &data;
    assert_eq!(reader.read_varint::<u64>(), Err(ReadError::UnexpectedEof));
    assert!(reader.is_empty());
}

#[test]
fn a_varint_without_end_is_invalid() {
    let data = [0xFF_u8; 12];
    let mut reader: &[u8] = &data;
    assert_eq!(reader.read_varint::<u64>(), Err(ReadError::InvalidData));
    assert_eq!(reader.len(), 1);

    let data = [0x80_u8; 11];
    let mut reader: &[u8] = &data;
    assert_eq!(reader.read_varint::<u64>(), Err(ReadError::InvalidData));
    assert!(reader.is_empty());
}

#[test]
fn a_varint_too_wide_for_the_type_is_invalid() {
    let encoded = 0x1FF_u64.encode_var_vec();
    let mut reader: &[u8] = &encoded;
    assert_eq!(reader.read_varint::<u8>(), Err(ReadError::InvalidData));
    assert!(reader.is_empty());

    let mut encoded = 0x112233_u64.encode_var_vec();
    encoded.push(0x05);
    let mut reader: &[u8] = &encoded;
    assert_eq!(reader.read_varint::<i8>(), Err(ReadError::InvalidData));
    assert_eq!(reader.read_varint::<i8>(), Ok(-3));
}

#[test]
fn processor_gathers_ten_bytes_and_no_more() {
    let mut p = VarIntProcessor::new();
    assert_eq!(p.len(), 0);
    assert!(!p.finished());
    for n in 0..MAX_VARINT_BYTES {
        assert_eq!(p.len(), n);
        assert_eq!(p.push(0x80), Ok(()));
        assert!(!p.finished());
    }
    assert_eq!(p.len(), 10);
    assert_eq!(p.push(0x00), Err(ReadError::InvalidData));
    assert_eq!(p.len(), 10);
    assert!(!p.finished());
    assert_eq!(p.decode::<u64>(), None);
    assert_eq!(p.finish::<u64>(), Err(ReadError::UnexpectedEof));
}

#[test]
fn processor_is_finished_by_a_byte_without_flag() {
    let mut p = VarIntProcessor::default();
    assert_eq!(p.push(0xAC), Ok(()));
    assert!(!p.finished());
    assert_eq!(p.decode::<u32>(), None);
    assert_eq!(p.push(0x02), Ok(()));
    assert!(p.finished());
    assert_eq!(p.decode::<u32>(), Some(300));
    assert_eq!(p.decode::<i32>(), Some(150));
    assert_eq!(p.decode::<u8>(), None);
    assert_eq!(p.finish::<u32>(), Ok(300));
    assert_eq!(p.finish::<u8>(), Err(ReadError::InvalidData));
}

#[test]
fn processor_steps() {
    let mut p = VarIntProcessor::new();
    assert_eq!(p.step(None), Err(ReadError::UnexpectedEof));
    assert_eq!(p.step(Some(0x80)), Ok(false));
    assert_eq!(p.step(None), Ok(true));
    assert_eq!(p.finish::<u64>(), Err(ReadError::UnexpectedEof));
    assert_eq!(p.step(Some(0x01)), Ok(true));
    assert_eq!(p.finish::<u64>(), Ok(128));

    let mut p = VarIntProcessor::new();
    for _ in 0..10 {
        assert_eq!(p.step(Some(0xFF)), Ok(false));
    }
    assert_eq!(p.step(Some(0x01)), Err(ReadError::InvalidData));
    assert_eq!(p.len(), 10);
}

#[test]
fn fixed_values_come_back_in_their_order() {
    let mut buf: Vec<u8> = Vec::new();
    buf.write_fixedint(1_u32).unwrap();
    buf.write_fixedint(-128_i8).unwrap();
    buf.write_fixedint(4200123456000_i64).unwrap();
    buf.write_fixedint(65532_u16).unwrap();
    assert_eq!(buf.len(), 4 + 1 + 8 + 2);

    let mut reader: &[u8] = &buf;
    assert_eq!(reader.read_fixedint::<u32>(), Ok(1));
    assert_eq!(reader.read_fixedint::<i8>(), Ok(-128));
    assert_eq!(reader.read_fixedint::<i64>(), Ok(4200123456000));
    assert_eq!(reader.read_fixedint::<u16>(), Ok(65532));
    assert_eq!(reader.read_fixedint::<u8>(), Err(ReadError::UnexpectedEof));
}

#[test]
fn a_short_source_holds_no_fixed_integer() {
    let data = [1_u8, 2, 3];
    let mut reader: &[u8] = &data;
    assert_eq!(reader.read_fixedint::<u32>(), Err(ReadError::UnexpectedEof));
    assert!(reader.is_empty());

    let data = [1_u8, 2, 3];
    let mut reader: &[u8] = &data;
    assert_eq!(reader.read_fixedint::<u16>(), Ok(0x0201));
    assert_eq!(reader, &[3]);
}

#[test]
fn fixed_round_trip_at_the_edges() {
    for v in [0_u8, 1, u8::MAX] {
        assert_eq!(u8::decode_fixed(&v.encode_fixed_vec()), Some(v));
    }
    for v in [0_u16, 256, u16::MAX] {
        assert_eq!(u16::decode_fixed(&v.encode_fixed_vec()), Some(v));
    }
    for v in [0_u32, 1 << 24, u32::MAX] {
        assert_eq!(u32::decode_fixed(&v.encode_fixed_vec()), Some(v));
    }
    for v in [0_u64, 1 << 56, u64::MAX] {
        assert_eq!(u64::decode_fixed(&v.encode_fixed_vec()), Some(v));
    }
    for v in [0_usize, 1, usize::MAX] {
        assert_eq!(usize::decode_fixed(&v.encode_fixed_vec()), Some(v));
    }
    for v in [0_i8, -1, i8::MIN, i8::MAX] {
        assert_eq!(i8::decode_fixed(&v.encode_fixed_vec()), Some(v));
    }
    for v in [0_i16, -1, i16::MIN, i16::MAX] {
        assert_eq!(i16::decode_fixed(&v.encode_fixed_vec()), Some(v));
    }
    for v in [0_i32, -32767, i32::MIN, i32::MAX] {
        assert_eq!(i32::decode_fixed(&v.encode_fixed_vec()), Some(v));
    }
    for v in [0_i64, -1, i64::MIN, i64::MAX] {
        assert_eq!(i64::decode_fixed(&v.encode_fixed_vec()), Some(v));
    }
    for v in [0_isize, -1, isize::MIN, isize::MAX] {
        assert_eq!(isize::decode_fixed(&v.encode_fixed_vec()), Some(v));
    }
}

#[test]
fn fixed_bytes_are_little_endian() {
    assert_eq!(0x0102030405060708_u64.encode_fixed_vec(), vec![8, 7, 6, 5, 4, 3, 2, 1]);
    assert_eq!((-2_i64).encode_fixed_vec(), vec![0xFE, 0xFF, 0xFF, 0xFF, 0xFF, 0xFF, 0xFF, 0xFF]);
    assert_eq!(0x0102_u16.encode_fixed_light(), [2, 1]);
    assert_eq!(i64::MIN.encode_fixed_light(), [0, 0, 0, 0, 0, 0, 0, 0x80]);
    assert_eq!(u64::decode_fixed(&[8, 7, 6, 5, 4, 3, 2, 1]), Some(0x0102030405060708));
    assert_eq!(i16::decode_fixed(&[0xFF, 0xFE]), Some(-257));
    assert_eq!(i8::decode_fixed(&[0x80]), Some(-128));
}

#[test]
fn pointer_sized_integers_take_their_size() {
    let size = std::mem::size_of::<usize>();
    assert_eq!(<usize as FixedInt>::ENCODED_SIZE, size);
    assert_eq!(<isize as FixedInt>::ENCODED_SIZE, size);
    assert_eq!(0x0102_usize.encode_fixed_vec(), 0x0102_usize.to_le_bytes().to_vec());
    assert_eq!((-2_isize).encode_fixed_vec(), (-2_isize).to_le_bytes().to_vec());
    assert_eq!(&0x0102_usize.encode_fixed_light()[..size], &0x0102_usize.to_le_bytes()[..]);
    assert_eq!(&(-2_isize).encode_fixed_light()[..size], &(-2_isize).to_le_bytes()[..]);
    assert_eq!(1_usize.switch_endianness(), 1_usize.swap_bytes());
    assert_eq!((-2_isize).switch_endianness(), (-2_isize).swap_bytes());
}

#[test]
fn encoded_sizes() {
    assert_eq!(<u8 as FixedInt>::ENCODED_SIZE, 1);
    assert_eq!(<i8 as FixedInt>::ENCODED_SIZE, 1);
    assert_eq!(<u16 as FixedInt>::ENCODED_SIZE, 2);
    assert_eq!(<i16 as FixedInt>::ENCODED_SIZE, 2);
    assert_eq!(<u32 as FixedInt>::ENCODED_SIZE, 4);
    assert_eq!(<i32 as FixedInt>::ENCODED_SIZE, 4);
    assert_eq!(<u64 as FixedInt>::ENCODED_SIZE, 8);
    assert_eq!(<i64 as FixedInt>::ENCODED_SIZE, 8);
}

#[test]
fn a_slice_of_the_wrong_size_is_refused() {
    assert_eq!(u32::decode_fixed(&[1, 0, 0]), None);
    assert_eq!(u32::decode_fixed(&[1, 0, 0, 0, 0]), None);
    assert_eq!(u32::decode_fixed(&[]), None);
    assert_eq!(u64::decode_fixed(&[1, 0, 0, 0, 0, 1]), None);

    let mut small = [0x55_u8; 4];
    assert_eq!(11_u64.encode_fixed(&mut small), None);
    assert_eq!(small, [0x55; 4]);
    let mut large = [0x55_u8; 5];
    assert_eq!(11_u32.encode_fixed(&mut large), None);
    assert_eq!(large, [0x55; 5]);
    let mut exact = [0x55_u8; 4];
    assert_eq!(11_u32.encode_fixed(&mut exact), Some(()));
    assert_eq!(exact, [11, 0, 0, 0]);
}

#[test]
fn switching_the_byte_order_twice_changes_nothing() {
    for v in [0_u32, 1, 0x01020304, u32::MAX] {
        assert_eq!(v.switch_endianness(), v.swap_bytes());
        assert_eq!(v.switch_endianness().switch_endianness(), v);
    }
    for v in [0_i64, -2, 0x0102030405060708, i64::MIN, i64::MAX] {
        assert_eq!(v.switch_endianness(), v.swap_bytes());
        assert_eq!(v.switch_endianness().switch_endianness(), v);
    }
    for v in [0_i16, -2, 0x0102, i16::MIN] {
        assert_eq!(v.switch_endianness(), v.swap_bytes());
        assert_eq!(v.switch_endianness().switch_endianness(), v);
    }
    assert_eq!(0x7F_u8.switch_endianness(), 0x7F);
    assert_eq!((-3_i8).switch_endianness(), -3);
}
