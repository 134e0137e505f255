use serde_bytes::ByteBuf;
use tensor_codec::{CodecError, Elements, Field, FieldValue, Kind, Record, Tensor};

const DOUBLES: [f64; 6] = [1.432, 0., 432.43, 3e12, 3.1e-3, 7.9987];

const DOUBLE_BYTES: [u8; 48] = [
    63, 246, 233, 120, 212, 253, 243, 182, 0, 0, 0, 0, 0, 0, 0, 0, 64, 123, 6, 225, 71, 174, 20,
    123, 66, 133, 211, 239, 121, 128, 0, 0, 63, 105, 101, 43, 211, 195, 97, 19, 64, 31, 254, 171,
    54, 122, 15, 145,
];

fn doubles(values: &[f64]) -> Elements {
    Elements::Double(values.iter().map(|x| x.to_bits()).collect())
}

fn floats(values: &[f32]) -> Elements {
    Elements::Float(values.iter().map(|x| x.to_bits()).collect())
}

fn round_trip(elements: Elements, size: Vec<i64>) {
    let tensor = Tensor::new(elements, size.clone()).unwrap();
    let record = tensor.serialize().unwrap();
    assert_eq!(record.kind, tensor.kind());
    assert_eq!(record.size, size);
    assert_eq!(
        record.data.len(),
        tensor.numel() * tensor.kind().elt_size_in_bytes()
    );
    let back = Tensor::from_record(record).unwrap();
    assert_eq!(back, tensor);
    assert_eq!(back.kind(), tensor.kind());
    assert_eq!(back.size(), tensor.size());
    assert_eq!(back.elements(), tensor.elements());
}

#[test]
fn floating_point_tensor() {
    let tensor = Tensor::new(doubles(&DOUBLES), vec![1, 3, 2]).unwrap();

    let record = tensor.serialize().unwrap();
    assert_eq!(record.kind, Kind::Double);
    assert_eq!(record.tag(), 7);
    assert_eq!(record.size, vec![1, 3, 2]);
    assert_eq!(record.data, ByteBuf::from(DOUBLE_BYTES.to_vec()));

    let read = Tensor::deserialize(vec![
        FieldValue::Kind(Kind::Double),
        FieldValue::Size(vec![1, 3, 2]),
        FieldValue::Data(ByteBuf::from(DOUBLE_BYTES.to_vec())),
    ])
    .unwrap();
    assert_eq!(read, tensor);
    match read.elements() {
        Elements::Double(bits) => {
            let values: Vec<f64> = bits.iter().map(|b| f64::from_bits(*b)).collect();
            assert_eq!(values, DOUBLES.to_vec());
        }
        other => panic!("not doubles: {:?}", other),
    }
    assert_eq!(Tensor::from_record(record).unwrap(), tensor);
}

#[test]
fn double_payload_starts_with_the_bytes_of_the_first_value() {
    let tensor = Tensor::new(doubles(&DOUBLES), vec![1, 3, 2]).unwrap();
    let record = tensor.serialize().unwrap();
    assert_eq!(record.data.len(), 48);
    assert_eq!(&record.data[..8], &[63, 246, 233, 120, 212, 253, 243, 182]);
    assert_eq!(&record.data[..8], &1.432f64.to_be_bytes());
}

#[test]
fn scalar_int64_tensor() {
    let tensor = Tensor::new(Elements::Int64(vec![42]), vec![]).unwrap();
    let record = tensor.serialize().unwrap();
    assert_eq!(record.kind, Kind::Int64);
    assert_eq!(record.size, Vec::<i64>::new());
    assert_eq!(
        record.data.to_vec(),
        vec![0x00, 0x00, 0x00, 0x00, 0x00, 0x00, 0x00, 0x2a]
    );
    assert_eq!(Tensor::from_record(record).unwrap(), tensor);
}

#[test]
fn uint8_round_trip() {
    round_trip(Elements::Uint8(vec![0, 1, 127, 128, 255, 7]), vec![2, 3]);
    round_trip(Elements::Uint8(vec![]), vec![0]);
    round_trip(Elements::Uint8(vec![9]), vec![]);
}

#[test]
fn int_round_trip() {
    round_trip(
        Elements::Int(vec![0, 1, -1, i32::MAX, i32::MIN, 305419896, -305419896, 256]),
        vec![2, 2, 2],
    );
    round_trip(Elements::Int(vec![]), vec![3, 0, 2]);
}

#[test]
fn int64_round_trip() {
    round_trip(
        Elements::Int64(vec![0, 1, -1, i64::MAX, i64::MIN, 1 << 40, -(1 << 40), 4294967296]),
        vec![8],
    );
    round_trip(Elements::Int64(vec![-5]), vec![1, 1, 1, 1]);
}

#[test]
fn float_round_trip() {
    round_trip(
        floats(&[0.0, -0.0, 1.5, -2.25, f32::MAX, f32::MIN_POSITIVE, f32::INFINITY, f32::NAN]),
        vec![4, 2],
    );
    round_trip(Elements::Float(vec![0x7fc0_0001, 0xffff_ffff, 1]), vec![3]);
}

#[test]
fn double_round_trip() {
    round_trip(
        doubles(&[0.0, -0.0, 1.5, -2.25, f64::MAX, f64::MIN_POSITIVE, f64::NEG_INFINITY, f64::NAN]),
        vec![2, 4],
    );
    round_trip(
        Elements::Double(vec![0x7ff8_0000_0000_0001, u64::MAX, 1]),
        vec![1, 3],
    );
}

#[test]
fn payloads_are_big_endian() {
    let record = Tensor::new(Elements::Int(vec![1, -2, 0x01020304]), vec![3])
        .unwrap()
        .serialize()
        .unwrap();
    assert_eq!(
        record.data.to_vec(),
        vec![0, 0, 0, 1, 0xff, 0xff, 0xff, 0xfe, 1, 2, 3, 4]
    );

    let record = Tensor::new(Elements::Int64(vec![-1, 0x0102030405060708]), vec![2])
        .unwrap()
        .serialize()
        .unwrap();
    assert_eq!(
        record.data.to_vec(),
        vec![0xff, 0xff, 0xff, 0xff, 0xff, 0xff, 0xff, 0xff, 1, 2, 3, 4, 5, 6, 7, 8]
    );

    let record = Tensor::new(floats(&[1.0, -2.5]), vec![2])
        .unwrap()
        .serialize()
        .unwrap();
    assert_eq!(
        record.data.to_vec(),
        vec![0x3f, 0x80, 0, 0, 0xc0, 0x20, 0, 0]
    );

    let record = Tensor::new(Elements::Uint8(vec![3, 200]), vec![2])
        .unwrap()
        .serialize()
        .unwrap();
    assert_eq!(record.data.to_vec(), vec![3, 200]);
}

#[test]
fn payloads_agree_with_the_native_byte_order_functions() {
    let ints = vec![0, 17, -17, i32::MAX, i32::MIN];
    let expected: Vec<u8> = ints.iter().flat_map(|x| x.to_be_bytes()).collect();
    assert_eq!(Elements::Int(ints).to_bytes().unwrap(), expected);

    let longs = vec![0, 17, -17, i64::MAX, i64::MIN];
    let expected: Vec<u8> = longs.iter().flat_map(|x| x.to_be_bytes()).collect();
    assert_eq!(Elements::Int64(longs).to_bytes().unwrap(), expected);

    let singles = [0.1f32, -7.75, 1e30, f32::EPSILON];
    let expected: Vec<u8> = singles.iter().flat_map(|x| x.to_be_bytes()).collect();
    assert_eq!(floats(&singles).to_bytes().unwrap(), expected);

    let expected: Vec<u8> = DOUBLES.iter().flat_map(|x| x.to_be_bytes()).collect();
    assert_eq!(doubles(&DOUBLES).to_bytes().unwrap(), expected);
    assert_eq!(expected, DOUBLE_BYTES.to_vec());
}

#[test]
fn reading_agrees_with_the_native_byte_order_functions() {
    let data: Vec<u8> = (0..32u8).map(|b| b.wrapping_mul(37).wrapping_add(129)).collect();

    let ints: Vec<i32> = data
        .chunks(4)
        .map(|c| i32::from_be_bytes([c[0], c[1], c[2], c[3]]))
        .collect();
    assert_eq!(
        Elements::from_bytes(Kind::Int, &data),
        Ok(Elements::Int(ints))
    );

    let longs: Vec<i64> = data
        .chunks(8)
        .map(|c| i64::from_be_bytes([c[0], c[1], c[2], c[3], c[4], c[5], c[6], c[7]]))
        .collect();
    assert_eq!(
        Elements::from_bytes(Kind::Int64, &data),
        Ok(Elements::Int64(longs))
    );

    let singles: Vec<u32> = data
        .chunks(4)
        .map(|c| f32::from_be_bytes([c[0], c[1], c[2], c[3]]).to_bits())
        .collect();
    assert_eq!(
        Elements::from_bytes(Kind::Float, &data),
        Ok(Elements::Float(singles))
    );

    let doubles: Vec<u64> = data
        .chunks(8)
        .map(|c| u64::from_be_bytes([c[0], c[1], c[2], c[3], c[4], c[5], c[6], c[7]]))
        .collect();
    assert_eq!(
        Elements::from_bytes(Kind::Double, &data),
        Ok(Elements::Double(doubles))
    );

    assert_eq!(
        Elements::from_bytes(Kind::Uint8, &data),
        Ok(Elements::Uint8(data.clone()))
    );
}

#[test]
fn payload_length_is_volume_times_width() {
    let cases: Vec<(Elements, Vec<i64>)> = vec![
        (Elements::Uint8(vec![1; 24]), vec![2, 3, 4]),
        (Elements::Int(vec![1; 24]), vec![4, 6]),
        (Elements::Int64(vec![1; 24]), vec![24]),
        (Elements::Float(vec![1; 24]), vec![1, 24, 1]),
        (Elements::Double(vec![1; 24]), vec![3, 8]),
        (Elements::Double(vec![]), vec![5, 0]),
        (Elements::Int(vec![7]), vec![]),
    ];
    for (elements, size) in cases {
        let tensor = Tensor::new(elements, size.clone()).unwrap();
        let record = tensor.serialize().unwrap();
        let volume: i64 = size.iter().product();
        assert_eq!(
            record.data.len(),
            volume as usize * tensor.kind().elt_size_in_bytes()
        );
    }
}

#[test]
fn unsupported_kinds_are_not_written() {
    let cases: Vec<Elements> = vec![
        Elements::Int8(vec![1, -1]),
        Elements::Int16(vec![1, -1]),
        Elements::Half(vec![0x3c00, 0xc000]),
        Elements::ComplexHalf(vec![1, 2]),
        Elements::ComplexFloat(vec![1, 2]),
        Elements::ComplexDouble(vec![1, 2]),
        Elements::Bool(vec![true, false]),
    ];
    for elements in cases {
        let kind = elements.kind();
        assert_eq!(elements.to_bytes(), Err(CodecError::UnsupportedKind(kind)));
        let tensor = Tensor::new(elements, vec![2]).unwrap();
        assert_eq!(tensor.serialize(), Err(CodecError::UnsupportedKind(kind)));
    }
}

#[test]
fn signed_16_is_not_written() {
    let tensor = Tensor::new(Elements::Int16(vec![1, 2, 3, 4]), vec![2, 2]).unwrap();
    assert_eq!(
        tensor.serialize(),
        Err(CodecError::UnsupportedKind(Kind::Int16))
    );
}

#[test]
fn unsupported_kinds_are_not_read() {
    let kinds = [
        Kind::Int8,
        Kind::Int16,
        Kind::Half,
        Kind::ComplexHalf,
        Kind::ComplexFloat,
        Kind::ComplexDouble,
        Kind::Bool,
    ];
    for kind in kinds {
        let record = Record {
            kind,
            size: vec![16],
            data: ByteBuf::from(vec![0u8; 16]),
        };
        assert_eq!(
            Tensor::from_record(record),
            Err(CodecError::UnsupportedKind(kind))
        );
        assert_eq!(
            Elements::from_bytes(kind, &[1, 2, 3]),
            Err(CodecError::UnsupportedKind(kind))
        );
    }
}

#[test]
fn truncated_float_payload_is_rejected() {
    for len in [1usize, 2, 3, 5, 6, 7, 9, 21] {
        let record = Record {
            kind: Kind::Float,
            size: vec![(len / 4) as i64],
            data: ByteBuf::from(vec![0u8; len]),
        };
        assert_eq!(
            Tensor::from_record(record),
            Err(CodecError::TruncatedPayload)
        );
    }
}

#[test]
fn truncated_payloads_are_rejected_for_each_width() {
    assert_eq!(
        Elements::from_bytes(Kind::Int, &[1, 2, 3, 4, 5]),
        Err(CodecError::TruncatedPayload)
    );
    assert_eq!(
        Elements::from_bytes(Kind::Int64, &[1, 2, 3, 4]),
        Err(CodecError::TruncatedPayload)
    );
    assert_eq!(
        Elements::from_bytes(Kind::Double, &[0; 15]),
        Err(CodecError::TruncatedPayload)
    );
    assert_eq!(
        Elements::from_bytes(Kind::Float, &[0; 7]),
        Err(CodecError::TruncatedPayload)
    );
    assert_eq!(
        Elements::from_bytes(Kind::Uint8, &[0; 7]),
        Ok(Elements::Uint8(vec![0; 7]))
    );
}

#[test]
fn truncation_is_reported_before_the_shape() {
    let record = Record {
        kind: Kind::Double,
        size: vec![-3],
        data: ByteBuf::from(vec![0u8; 9]),
    };
    assert_eq!(
        Tensor::from_record(record),
        Err(CodecError::TruncatedPayload)
    );
}

#[test]
fn unknown_tag_is_rejected() {
    assert_eq!(
        Tensor::from_tagged(255, vec![1], ByteBuf::from(vec![0u8; 8])),
        Err(CodecError::UnknownKind(255))
    );
    assert_eq!(
        Record::from_tagged(255, vec![], ByteBuf::new()),
        Err(CodecError::UnknownKind(255))
    );
    assert_eq!(
        Record::from_tagged(12, vec![], ByteBuf::new()),
        Err(CodecError::UnknownKind(12))
    );
    assert_eq!(
        Record::from_tagged(-1, vec![], ByteBuf::new()),
        Err(CodecError::UnknownKind(-1))
    );
}

#[test]
fn tagged_record_is_read() {
    let tensor = Tensor::from_tagged(7, vec![1, 3, 2], ByteBuf::from(DOUBLE_BYTES.to_vec()))
        .unwrap();
    assert_eq!(tensor, Tensor::new(doubles(&DOUBLES), vec![1, 3, 2]).unwrap());

    let record = Record::from_tagged(3, vec![2], ByteBuf::from(vec![0, 0, 0, 1, 0, 0, 0, 2]))
        .unwrap();
    assert_eq!(record.kind, Kind::Int);
    assert_eq!(record.tag(), 3);
    assert_eq!(record.size, vec![2]);
    assert_eq!(record.data.to_vec(), vec![0, 0, 0, 1, 0, 0, 0, 2]);

    assert_eq!(
        Tensor::from_tagged(2, vec![1], ByteBuf::from(vec![0u8; 2])),
        Err(CodecError::UnsupportedKind(Kind::Int16))
    );
}

#[test]
fn shape_mismatch_is_rejected() {
    let cases: Vec<(Vec<i64>, usize)> = vec![
        (vec![2, 2], 3),
        (vec![], 2),
        (vec![], 0),
        (vec![0], 1),
        (vec![5], 4),
        (vec![-1], 1),
        (vec![-2, -2], 4),
        (vec![2, -1], 2),
        (vec![i64::MAX, i64::MAX, 2], 2),
        (vec![1 << 32, 1 << 32], 0),
        (vec![3, 1], 0),
    ];
    for (size, count) in cases {
        let record = Record {
            kind: Kind::Int,
            size: size.clone(),
            data: ByteBuf::from(vec![0u8; 4 * count]),
        };
        assert_eq!(
            Tensor::from_record(record),
            Err(CodecError::ShapeMismatch),
            "size {:?}, {} elements",
            size,
            count
        );
        assert_eq!(
            Tensor::new(Elements::Int(vec![0; count]), size),
            Err(CodecError::ShapeMismatch)
        );
    }
}

#[test]
fn shapes_with_a_zero_extent_hold_no_element() {
    for size in [vec![0], vec![4, 0, 3], vec![0, i64::MAX, i64::MAX], vec![i64::MAX, 0]] {
        let record = Record {
            kind: Kind::Double,
            size: size.clone(),
            data: ByteBuf::new(),
        };
        let tensor = Tensor::from_record(record).unwrap();
        assert_eq!(tensor.size(), &size[..]);
        assert_eq!(tensor.numel(), 0);
        assert_eq!(tensor.elements(), &Elements::Double(vec![]));
    }
}

#[test]
fn reshape_keeps_the_elements() {
    let tensor = Tensor::new(Elements::Int(vec![1, 2, 3, 4, 5, 6]), vec![6]).unwrap();
    let shaped = tensor.clone().reshape(vec![2, 3]).unwrap();
    assert_eq!(shaped.size(), &[2, 3]);
    assert_eq!(shaped.elements(), tensor.elements());
    assert_eq!(shaped.kind(), Kind::Int);
    assert_eq!(
        tensor.clone().reshape(vec![4, 2]),
        Err(CodecError::ShapeMismatch)
    );
    assert_eq!(tensor.reshape(vec![-6]), Err(CodecError::ShapeMismatch));
}

#[test]
fn fields_may_come_in_any_order() {
    let expected = Tensor::new(Elements::Int(vec![1, 2]), vec![2]).unwrap();
    let orders: [[usize; 3]; 6] = [
        [0, 1, 2],
        [0, 2, 1],
        [1, 0, 2],
        [1, 2, 0],
        [2, 0, 1],
        [2, 1, 0],
    ];
    for order in orders {
        let entries: Vec<FieldValue> = order
            .iter()
            .map(|i| match i {
                0 => FieldValue::Kind(Kind::Int),
                1 => FieldValue::Size(vec![2]),
                _ => FieldValue::Data(ByteBuf::from(vec![0, 0, 0, 1, 0, 0, 0, 2])),
            })
            .collect();
        assert_eq!(Tensor::deserialize(entries), Ok(expected.clone()));
    }
}

#[test]
fn missing_fields_are_reported() {
    let kind = || FieldValue::Kind(Kind::Int);
    let size = || FieldValue::Size(vec![1]);
    let data = || FieldValue::Data(ByteBuf::from(vec![0, 0, 0, 1]));

    assert_eq!(
        Tensor::deserialize(vec![size(), data()]),
        Err(CodecError::MissingField(Field::Kind))
    );
    assert_eq!(
        Tensor::deserialize(vec![data(), kind()]),
        Err(CodecError::MissingField(Field::Size))
    );
    assert_eq!(
        Tensor::deserialize(vec![size(), kind()]),
        Err(CodecError::MissingField(Field::Data))
    );
    assert_eq!(
        Tensor::deserialize(vec![]),
        Err(CodecError::MissingField(Field::Kind))
    );
    assert_eq!(
        Tensor::deserialize(vec![kind()]),
        Err(CodecError::MissingField(Field::Size))
    );
    assert_eq!(
        Tensor::deserialize(vec![data()]),
        Err(CodecError::MissingField(Field::Kind))
    );
}

#[test]
fn duplicate_fields_are_reported() {
    let kind = || FieldValue::Kind(Kind::Int);
    let size = || FieldValue::Size(vec![1]);
    let data = || FieldValue::Data(ByteBuf::from(vec![0, 0, 0, 1]));

    assert_eq!(
        Tensor::deserialize(vec![kind(), size(), data(), kind()]),
        Err(CodecError::DuplicateField(Field::Kind))
    );
    assert_eq!(
        Tensor::deserialize(vec![size(), size()]),
        Err(CodecError::DuplicateField(Field::Size))
    );
    assert_eq!(
        Tensor::deserialize(vec![kind(), data(), FieldValue::Data(ByteBuf::new()), size()]),
        Err(CodecError::DuplicateField(Field::Data))
    );
    assert_eq!(
        Tensor::deserialize(vec![data(), kind(), kind(), data()]),
        Err(CodecError::DuplicateField(Field::Kind))
    );
    assert_eq!(
        Record::from_entries(vec![kind(), FieldValue::Kind(Kind::Double)]),
        Err(CodecError::DuplicateField(Field::Kind))
    );
}

#[test]
fn fields_make_the_record_before_it_is_read() {
    let record = Record::from_entries(vec![
        FieldValue::Data(ByteBuf::from(vec![1, 2, 3])),
        FieldValue::Kind(Kind::Bool),
        FieldValue::Size(vec![-7]),
    ])
    .unwrap();
    assert_eq!(
        record,
        Record {
            kind: Kind::Bool,
            size: vec![-7],
            data: ByteBuf::from(vec![1, 2, 3]),
        }
    );
    assert_eq!(
        Tensor::deserialize(vec![
            FieldValue::Data(ByteBuf::from(vec![1, 2, 3])),
            FieldValue::Kind(Kind::Bool),
            FieldValue::Size(vec![-7]),
        ]),
        Err(CodecError::UnsupportedKind(Kind::Bool))
    );
}
