use amethyst_net::data_reader::DataReader;
use amethyst_net::data_writer::DataWriter;
use amethyst_net::position::Position;
use amethyst_net::wire::CodecError;

fn varint_bytes(v: i32) -> Vec<u8> {
    let mut w = DataWriter::new();
    w.write_varint(v);
    w.data
}

#[test]
fn varint_known_encodings() {
    assert_eq!(varint_bytes(0), vec![0x00]);
    assert_eq!(varint_bytes(1), vec![0x01]);
    assert_eq!(varint_bytes(127), vec![0x7f]);
    assert_eq!(varint_bytes(128), vec![0x80, 0x01]);
    assert_eq!(varint_bytes(300), vec![0xac, 0x02]);
    assert_eq!(varint_bytes(2147483647), vec![0xff, 0xff, 0xff, 0xff, 0x07]);
    assert_eq!(varint_bytes(-1), vec![0xff, 0xff, 0xff, 0xff, 0x0f]);
    assert_eq!(varint_bytes(i32::MIN), vec![0x80, 0x80, 0x80, 0x80, 0x08]);
}

#[test]
fn varint_round_trip_samples() {
    for v in [0, 1, -1, 127, 128, 255, 25565, -25565, i32::MAX, i32::MIN, 1 << 28] {
        let bytes = varint_bytes(v);
        assert!(bytes.len() >= 1 && bytes.len() <= 5);
        let mut r = DataReader::new(&bytes);
        assert_eq!(r.read_varint(), Ok(v));
        assert_eq!(r.cursor, bytes.len());
    }
}

#[test]
fn varlong_round_trip_samples() {
    for v in [0i64, 1, -1, 1 << 35, i64::MAX, i64::MIN, -123456789012] {
        let mut w = DataWriter::new();
        w.write_varlong(v);
        assert!(w.data.len() >= 1 && w.data.len() <= 10);
        let mut r = DataReader::new(&w.data);
        assert_eq!(r.read_varlong(), Ok(v));
    }
    let mut w = DataWriter::new();
    w.write_varlong(-1);
    assert_eq!(w.data.len(), 10);
}

#[test]
fn oversized_varint_is_too_long() {
    let bytes = [0x80u8, 0x80, 0x80, 0x80, 0x80, 0x80, 0x01];
    let mut r = DataReader::new(&bytes);
    assert_eq!(r.read_varint(), Err(CodecError::VarIntTooLong));
    assert_eq!(r.cursor, 0);
    let long = [0xffu8; 11];
    let mut r = DataReader::new(&long);
    assert_eq!(r.read_varlong(), Err(CodecError::VarIntTooLong));
}

#[test]
fn truncated_varint_is_out_of_data() {
    let bytes = [0x80u8, 0x80];
    let mut r = DataReader::new(&bytes);
    assert_eq!(r.read_varint(), Err(CodecError::OutOfData));
    let empty: [u8; 0] = [];
    let mut r = DataReader::new(&empty);
    assert_eq!(r.read_varint(), Err(CodecError::OutOfData));
}

#[test]
fn string_round_trip_samples() {
    for s in ["", "Alice", "héllo wörld", "日本語", "🙂 emoji"] {
        let mut w = DataWriter::new();
        w.write_string(&s.to_string());
        let mut r = DataReader::new(&w.data);
        assert_eq!(r.read_string(), Ok(s.to_string()));
        assert_eq!(r.cursor, w.data.len());
    }
}

#[test]
fn string_wire_form() {
    let mut w = DataWriter::new();
    w.write_string(&"abc".to_string());
    assert_eq!(w.data, vec![3, b'a', b'b', b'c']);
}

#[test]
fn truncated_string_fails_with_length_error() {
    let bytes = [5u8, b'a', b'b'];
    let mut r = DataReader::new(&bytes);
    assert_eq!(r.read_string(), Err(CodecError::OutOfData));
    assert_eq!(r.cursor, 0);
    let negative = [0xffu8, 0xff, 0xff, 0xff, 0x0f, b'a'];
    let mut r = DataReader::new(&negative);
    assert_eq!(r.read_string(), Err(CodecError::OutOfData));
}

#[test]
fn invalid_utf8_is_rejected() {
    let bytes = [2u8, 0xc3, 0x28];
    let mut r = DataReader::new(&bytes);
    assert_eq!(r.read_string(), Err(CodecError::InvalidUtf8));
}

#[test]
fn fixed_width_reads_are_big_endian() {
    let bytes = [0x63u8, 0xdd, 0xff, 0xff, 0xff, 0xff, 0xff, 0xff, 0xff, 0xfe, 0x07];
    let mut r = DataReader::new(&bytes);
    assert_eq!(r.read_u16(), Ok(25565));
    assert_eq!(r.read_i64(), Ok(-2));
    assert_eq!(r.read_u8(), Ok(7));
    assert_eq!(r.read_u8(), Err(CodecError::OutOfData));
    assert_eq!(r.read_u16(), Err(CodecError::OutOfData));
}

#[test]
fn reader_on_cursor_and_data() {
    let bytes = [9u8, 3, 1, 2, 3, 4];
    let mut r = DataReader::new_on_cursor(&bytes, 1);
    assert_eq!(r.read_data(), Ok(vec![1, 2, 3]));
    assert_eq!(r.read_data_fixed(1), Ok(vec![4]));
    assert_eq!(r.read_data_fixed(1), Err(CodecError::OutOfData));
    let mut past = DataReader::new_on_cursor(&bytes, 100);
    assert_eq!(past.read_u8(), Err(CodecError::OutOfData));
}

#[test]
fn fixed_width_writes() {
    let mut w = DataWriter::with_capacity(32);
    w.write_u8(1);
    w.write_u16(0x0102);
    w.write_u16_le(0x0102);
    w.write_i8(-1);
    w.write_i16(-2);
    w.write_i32(0x01020304);
    w.write_i64(-1);
    w.write_bool(true);
    w.write_bool(false);
    w.write_vec_data(&vec![7, 8]);
    w.write_data(&[9]);
    assert_eq!(
        w.data,
        vec![
            1, 1, 2, 2, 1, 0xff, 0xff, 0xfe, 1, 2, 3, 4, 0xff, 0xff, 0xff, 0xff, 0xff, 0xff, 0xff,
            0xff, 1, 0, 7, 8, 9
        ]
    );
}

#[test]
fn var_num_and_get_varint() {
    assert_eq!(DataWriter::get_varint(300), vec![0xac, 0x02]);
    assert_eq!(DataWriter::var_num(u64::MAX).len(), 10);
    assert_eq!(DataWriter::var_num(0).as_slice(), &[0u8]);
    assert_eq!(DataWriter::var_num(300).as_slice(), &[0xacu8, 0x02]);
}

#[test]
fn position_packing() {
    let p = Position { x: 0, y: 50, z: 0 };
    assert_eq!(p.encode(), 50 << 26);
    let q = Position { x: -1, y: -1, z: -1 };
    assert_eq!(q.encode() as u64, u64::MAX);
    let r = Position { x: 1, y: 2, z: 3 };
    assert_eq!(r.encode(), (1i64 << 38) | (2 << 26) | 3);
    let mut w = DataWriter::new();
    w.write_position(&r);
    assert_eq!(w.data, ((1i64 << 38) | (2 << 26) | 3).to_be_bytes().to_vec());
}

#[test]
fn zero_length_read_past_the_end_is_out_of_data() {
    let bytes = [1u8, 2];
    let mut r = DataReader::new_on_cursor(&bytes, 5);
    assert_eq!(r.read_data_fixed(0), Err(CodecError::OutOfData));
    assert_eq!(r.cursor, 5);
    let mut at_end = DataReader::new_on_cursor(&bytes, 2);
    assert_eq!(at_end.read_data_fixed(0), Ok(vec![]));
    assert_eq!(at_end.read_data_fixed(1), Err(CodecError::OutOfData));
}
