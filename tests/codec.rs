use ply_points::batch::{Attribute, AttributeData, PointsBatch};
use ply_points::encode::padded_digits;
use ply_points::header::{parse_header, Format, HeaderError};
use ply_points::layout::SchemaError;
use ply_points::pts::{parse_pts_line, PtsLine};
use ply_points::reader::{OpenError, PlyIterator};
use ply_points::scalar::{to_channel, DataType, Scalar};
use ply_points::writer::{
    Encoding, HeaderAttribute, OpenMode, PlyNodeWriter, Point, PositionEncoding, WriteError,
};

fn text(lines: &[&str]) -> Vec<u8> {
    let mut s = String::new();
    for l in lines {
        s.push_str(l);
        s.push('\n');
    }
    s.into_bytes()
}

fn header_error(lines: &[&str]) -> HeaderError {
    parse_header(&text(lines)).unwrap_err()
}

fn open_error(lines: &[&str]) -> OpenError {
    PlyIterator::from_bytes(&text(lines), 4).unwrap_err()
}

fn decode_all(data: &[u8], batch_size: usize) -> Vec<PointsBatch> {
    let (mut it, mut pos) = PlyIterator::from_bytes(data, batch_size).unwrap();
    let mut out = Vec::new();
    loop {
        let k = it.next_batch_len();
        let end = pos + k * it.layout.record_size;
        match it.next(&data[pos..end]) {
            Some(b) => out.push(b),
            None => break,
        }
        pos = end;
    }
    out
}

fn column<'a>(b: &'a PointsBatch, name: &str) -> &'a AttributeData {
    &b.attributes.iter().find(|a| a.name == name.as_bytes()).unwrap().data
}

#[test]
fn header_is_parsed_with_its_length() {
    let data = text(&[
        "ply",
        "format binary_little_endian 1.0",
        "comment made by hand",
        "element vertex 3",
        "property float x",
        "property uchar red",
        "element face 2",
        "property list uchar int vertex_indices",
        "end_header",
    ]);
    let mut with_body = data.clone();
    with_body.extend_from_slice(&[1, 2, 3]);
    let (h, len) = parse_header(&with_body).unwrap();
    assert_eq!(len, data.len());
    assert_eq!(h.format, Format::BinaryLittleEndianV1);
    assert_eq!(h.elements.len(), 2);
    assert_eq!(h.elements[0].name, b"vertex".to_vec());
    assert_eq!(h.elements[0].count, 3);
    assert_eq!(h.elements[0].properties.len(), 2);
    assert_eq!(h.elements[0].properties[1].data_type, DataType::Uint8);
    assert_eq!(h.elements[1].count, 2);
    assert_eq!(h.elements[1].properties.len(), 0);
    assert!(h.offset.is_none());
}

#[test]
fn header_errors() {
    assert_eq!(header_error(&["plyx"]), HeaderError::NotPly);
    assert_eq!(header_error(&["ply", "format binary_little_endian 2.0"]), HeaderError::InvalidVersion);
    assert_eq!(header_error(&["ply", "format utf8 1.0"]), HeaderError::InvalidFormat);
    assert_eq!(
        header_error(&["ply", "format ascii 1.0", "element vertex many"]),
        HeaderError::InvalidCount
    );
    assert_eq!(header_error(&["ply", "property float x"]), HeaderError::PropertyOutsideElement);
    assert_eq!(
        header_error(&["ply", "element vertex 1", "property half x"]),
        HeaderError::InvalidDataType
    );
    assert_eq!(header_error(&["ply", "bogus line"]), HeaderError::InvalidLine);
    assert_eq!(header_error(&["ply", ""]), HeaderError::InvalidLine);
    assert_eq!(header_error(&["ply", "element vertex 1", "end_header"]), HeaderError::NoFormat);
    assert_eq!(header_error(&["ply", "format ascii 1.0"]), HeaderError::UnexpectedEnd);
}

#[test]
fn offset_comment_is_kept() {
    let (h, _) = parse_header(&text(&[
        "ply",
        "format binary_little_endian 1.0",
        "comment offset: 10 20 30",
        "end_header",
    ]))
    .unwrap();
    let o = h.offset.unwrap();
    assert_eq!(o.x, b"10".to_vec());
    assert_eq!(o.y, b"20".to_vec());
    assert_eq!(o.z, b"30".to_vec());
}

#[test]
fn type_names_and_aliases() {
    assert_eq!(DataType::from_str(b"float"), Some(DataType::Float32));
    assert_eq!(DataType::from_str(b"float32"), Some(DataType::Float32));
    assert_eq!(DataType::from_str(b"uchar"), Some(DataType::Uint8));
    assert_eq!(DataType::from_str(b"uint8"), Some(DataType::Uint8));
    assert_eq!(DataType::from_str(b"ulonglong"), Some(DataType::Uint64));
    assert_eq!(DataType::from_str(b"int"), Some(DataType::Int32));
    assert_eq!(DataType::from_str(b"half"), None);
}

#[test]
fn unsupported_formats_fail_to_open() {
    let base = ["element vertex 1", "property float x", "property float y", "property float z", "end_header"];
    let mut ascii = vec!["ply", "format ascii 1.0"];
    ascii.extend_from_slice(&base);
    assert_eq!(open_error(&ascii), OpenError::UnsupportedFormat);
    let mut big = vec!["ply", "format binary_big_endian 1.0"];
    big.extend_from_slice(&base);
    assert_eq!(open_error(&big), OpenError::UnsupportedFormat);
}

#[test]
fn schema_errors() {
    assert_eq!(
        open_error(&["ply", "format binary_little_endian 1.0", "element face 1", "end_header"]),
        OpenError::NoVertexElement
    );
    assert_eq!(
        open_error(&["ply", "format binary_little_endian 1.0", "element vertex 1",
            "property float x", "property float y", "end_header"]),
        OpenError::Schema(SchemaError::MissingCoordinate)
    );
    assert_eq!(
        open_error(&["ply", "format binary_little_endian 1.0", "element vertex 1",
            "property float x", "property float y", "property float z", "property float normal0",
            "end_header"]),
        OpenError::Schema(SchemaError::MultiComponentAttribute)
    );
    assert_eq!(
        open_error(&["ply", "format binary_little_endian 1.0", "element vertex 1",
            "property float x", "property float y", "property float z", "property float intensity",
            "property double intensity", "end_header"]),
        OpenError::Schema(SchemaError::DuplicateAttribute)
    );
    assert_eq!(
        open_error(&["ply", "format binary_little_endian 1.0", "element vertex -1",
            "property float x", "property float y", "property float z", "end_header"]),
        OpenError::NegativeCount
    );
    assert_eq!(
        open_error(&["plyy"]),
        OpenError::Header(HeaderError::NotPly)
    );
}

#[test]
fn list_property_is_skipped() {
    let mut data = text(&[
        "ply",
        "format binary_little_endian 1.0",
        "element vertex 2",
        "property double x",
        "property list uchar int vertex_indices",
        "property double y",
        "property double z",
        "end_header",
    ]);
    for i in 0..2 {
        for c in 0..3 {
            data.extend_from_slice(&((i * 10 + c) as f64).to_le_bytes());
        }
    }
    let b = decode_all(&data, 8);
    assert_eq!(b.len(), 1);
    assert_eq!(b[0].position[1], [
        Scalar::Float64(10f64.to_bits()),
        Scalar::Float64(11f64.to_bits()),
        Scalar::Float64(12f64.to_bits()),
    ]);
    assert!(b[0].attributes.is_empty());
}

#[test]
fn generic_attributes_and_skipped_widths() {
    let mut data = text(&[
        "ply",
        "format binary_little_endian 1.0",
        "element vertex 1",
        "property short x",
        "property ushort y",
        "property int z",
        "property short flags",
        "property uchar alpha",
        "property ulonglong id",
        "property longlong delta",
        "property double weight",
        "end_header",
    ]);
    data.extend_from_slice(&(-3i16).to_le_bytes());
    data.extend_from_slice(&65535u16.to_le_bytes());
    data.extend_from_slice(&(-70000i32).to_le_bytes());
    data.extend_from_slice(&7i16.to_le_bytes());
    data.push(9);
    data.extend_from_slice(&u64::MAX.to_le_bytes());
    data.extend_from_slice(&(-5i64).to_le_bytes());
    data.extend_from_slice(&2.5f64.to_le_bytes());
    let b = decode_all(&data, 1);
    assert_eq!(b[0].position[0], [Scalar::Int16(-3), Scalar::Uint16(65535), Scalar::Int32(-70000)]);
    assert_eq!(b[0].attributes.len(), 3);
    assert_eq!(column(&b[0], "id"), &AttributeData::U64(vec![u64::MAX]));
    assert_eq!(column(&b[0], "delta"), &AttributeData::I64(vec![-5]));
    assert_eq!(column(&b[0], "weight"), &AttributeData::F64(vec![2.5f64.to_bits()]));
}

#[test]
fn channels_narrow_like_as_u8() {
    assert_eq!(to_channel(Scalar::Float32(300.7f32.to_bits())), 255);
    assert_eq!(to_channel(Scalar::Float32(12.9f32.to_bits())), 12);
    assert_eq!(to_channel(Scalar::Float32((-1.0f32).to_bits())), 0);
    assert_eq!(to_channel(Scalar::Float32(f32::NAN.to_bits())), 0);
    assert_eq!(to_channel(Scalar::Float32(f32::INFINITY.to_bits())), 255);
    assert_eq!(to_channel(Scalar::Float64(254.99f64.to_bits())), 254);
    assert_eq!(to_channel(Scalar::Float64(0.5f64.to_bits())), 0);
    assert_eq!(to_channel(Scalar::Int16(-1)), 255);
    assert_eq!(to_channel(Scalar::Uint16(300)), 44);
    assert_eq!(to_channel(Scalar::Int64(-256)), 0);
}

#[test]
fn float_channels_decode_into_color() {
    let mut data = text(&[
        "ply",
        "format binary_little_endian 1.0",
        "element vertex 1",
        "property float green",
        "property float x",
        "property float y",
        "property float z",
        "end_header",
    ]);
    for v in [77.8f32, 1.0, 2.0, 3.0] {
        data.extend_from_slice(&v.to_le_bytes());
    }
    let b = decode_all(&data, 1);
    assert_eq!(column(&b[0], "color"), &AttributeData::U8Vec3(vec![[0, 77, 0]]));
}

fn xyz_file(n: usize) -> Vec<u8> {
    let mut data = text(&[
        "ply",
        "format binary_little_endian 1.0",
        &format!("element vertex {}", n),
        "property uchar x",
        "property uchar y",
        "property uchar z",
        "end_header",
    ]);
    for i in 0..n {
        data.extend_from_slice(&[i as u8, 0, 0]);
    }
    data
}

#[test]
fn batch_lengths_cover_the_points() {
    let lens: Vec<usize> = decode_all(&xyz_file(7), 3).iter().map(|b| b.len()).collect();
    assert_eq!(lens, vec![3, 3, 1]);
    let lens: Vec<usize> = decode_all(&xyz_file(6), 3).iter().map(|b| b.len()).collect();
    assert_eq!(lens, vec![3, 3]);
    assert!(decode_all(&xyz_file(0), 3).is_empty());
    let (it, _) = PlyIterator::from_bytes(&xyz_file(7), 3).unwrap();
    assert_eq!(it.size_hint(), 3);
    let (it, _) = PlyIterator::from_bytes(&xyz_file(0), 3).unwrap();
    assert_eq!(it.size_hint(), 0);
    let b = decode_all(&xyz_file(7), 3);
    assert_eq!(b[2].position[0][0], Scalar::Uint8(6));
}

#[test]
fn scenario_intensity_nan_batches_of_three() {
    let mut data = text(&[
        "ply",
        "format binary_little_endian 1.0",
        "element vertex 8",
        "property float x",
        "property float y",
        "property float z",
        "property uchar red",
        "property uchar green",
        "property uchar blue",
        "property float intensity",
        "end_header",
    ]);
    for i in 0..8u8 {
        for c in 0..3 {
            data.extend_from_slice(&((i * 3 + c) as f32).to_le_bytes());
        }
        data.extend_from_slice(&[200 + i, 1, 2]);
        data.extend_from_slice(&f32::NAN.to_le_bytes());
    }
    let b = decode_all(&data, 3);
    let lens: Vec<usize> = b.iter().map(|b| b.len()).collect();
    assert_eq!(lens, vec![3, 3, 2]);
    match column(&b[0], "color") {
        AttributeData::U8Vec3(c) => assert_eq!(c[0][0], 200),
        _ => panic!("color column missing"),
    }
    for batch in &b {
        match column(batch, "intensity") {
            AttributeData::F32(v) => assert!(v.iter().all(|x| f32::from_bits(*x).is_nan())),
            _ => panic!("intensity column missing"),
        }
    }
}

#[test]
fn count_field_is_zero_padded() {
    assert_eq!(padded_digits(16, 21), b"000000000000000000016".to_vec());
    assert_eq!(padded_digits(0, 3), b"000".to_vec());
}

#[test]
fn writer_header_text() {
    let w = PlyNodeWriter::new(
        Encoding::ScaledToCube { min_x: 0, min_y: 0, min_z: 0, edge: 0, position: PositionEncoding::Uint16 },
        OpenMode::Truncate,
        &[],
    )
    .unwrap();
    let h = w.create_header(&vec![
        HeaderAttribute { name: b"color".to_vec(), data_type: DataType::Uint8, dim: 4 },
        HeaderAttribute { name: b"normal".to_vec(), data_type: DataType::Float64, dim: 3 },
        HeaderAttribute { name: b"intensity".to_vec(), data_type: DataType::Float32, dim: 1 },
    ]);
    let expected = "ply\nformat binary_little_endian 1.0\nelement vertex 000000000000000000000\n\
        property ushort x\nproperty ushort y\nproperty ushort z\n\
        property uchar red\nproperty uchar green\nproperty uchar blue\nproperty uchar alpha\n\
        property double normal0\nproperty double normal1\nproperty double normal2\n\
        property float intensity\nend_header\n";
    assert_eq!(String::from_utf8(h).unwrap(), expected);
}

#[test]
fn writer_batches_and_patch() {
    let mut w = PlyNodeWriter::new(Encoding::Plain, OpenMode::Truncate, &[]).unwrap();
    let empty = PointsBatch { position: vec![], attributes: vec![] };
    assert!(w.write(&empty).unwrap().is_empty());
    assert!(w.finish().is_none());
    let wrong = PointsBatch { position: vec![[Scalar::Float32(0); 3]], attributes: vec![] };
    assert_eq!(w.write(&wrong), Err(WriteError::PositionType));
    let one = PointsBatch {
        position: vec![[Scalar::Float64(1f64.to_bits()), Scalar::Float64(2f64.to_bits()), Scalar::Float64(3f64.to_bits())]],
        attributes: vec![Attribute { name: b"label".to_vec(), data: AttributeData::U8(vec![9]) }],
    };
    let bytes = w.write(&one).unwrap();
    let head = "ply\nformat binary_little_endian 1.0\nelement vertex 000000000000000000000\n\
        property double x\nproperty double y\nproperty double z\nproperty uchar label\nend_header\n";
    assert_eq!(&bytes[..head.len()], head.as_bytes());
    assert_eq!(bytes.len(), head.len() + 25);
    assert_eq!(&bytes[head.len()..head.len() + 8], &1f64.to_le_bytes());
    assert_eq!(bytes[bytes.len() - 1], 9);
    let again = w.write(&one).unwrap();
    assert_eq!(again.len(), 25);
    assert_eq!(w.point_count, 2);
    let patch = w.finish().unwrap();
    assert_eq!(patch.trailer, b"\n".to_vec());
    assert_eq!(patch.offset, 51);
    assert_eq!(patch.field, b"000000000000000000002".to_vec());
    assert_eq!(&bytes[patch.offset..patch.offset + 21], b"000000000000000000000");
}

#[test]
fn writer_single_points() {
    let mut w = PlyNodeWriter::new(Encoding::Plain, OpenMode::Truncate, &[]).unwrap();
    let p = Point {
        position: [Scalar::Float64(0), Scalar::Float64(0), Scalar::Float64(0)],
        color: [1, 2, 3],
        intensity: Some(0.5f32.to_bits()),
    };
    let bytes = w.write_point(&p).unwrap();
    let text = String::from_utf8_lossy(&bytes);
    assert!(text.contains("property uchar red\nproperty uchar green\nproperty uchar blue\nproperty float intensity\nend_header\n"));
    assert_eq!(&bytes[bytes.len() - 7..], &[1, 2, 3, 0, 0, 0, 0x3f]);
    let second = w.write_point(&p).unwrap();
    assert_eq!(second.len(), 24 + 3 + 4);
}

#[test]
fn append_resumes_from_count_field() {
    let mut file = b"ply\nformat binary_little_endian 1.0\nelement vertex 000000000000000000016\n".to_vec();
    let w = PlyNodeWriter::new(Encoding::Plain, OpenMode::Append, &file[..72]).unwrap();
    assert_eq!(w.point_count, 16);
    assert!(w.resumes());
    let t = PlyNodeWriter::new(Encoding::Plain, OpenMode::Truncate, &file[..72]).unwrap();
    assert_eq!(t.point_count, 0);
    let short = PlyNodeWriter::new(Encoding::Plain, OpenMode::Append, &file[..40]).unwrap();
    assert_eq!(short.point_count, 0);
    assert!(!short.resumes());
    file[60] = b'x';
    assert_eq!(
        PlyNodeWriter::new(Encoding::Plain, OpenMode::Append, &file[..72]).unwrap_err(),
        WriteError::InvalidCountField
    );
}

#[test]
fn pts_lines() {
    match parse_pts_line(b"  1.5,2 3 0.7 255,+4 9\n") {
        PtsLine::Point { x, y, z, color } => {
            assert_eq!(x, b"1.5".to_vec());
            assert_eq!(y, b"2".to_vec());
            assert_eq!(z, b"3".to_vec());
            assert_eq!(color, [255, 4, 9]);
        }
        other => panic!("{:?}", other),
    }
    assert!(matches!(parse_pts_line(b"1 2 3 4 5 6"), PtsLine::Skip));
    assert!(matches!(parse_pts_line(b"1  2 3 4 5 6 7"), PtsLine::Skip));
    assert!(matches!(parse_pts_line(b"1 2 3 4 256 6 7"), PtsLine::BadColor));
}

#[test]
fn offset_numbers_are_checked() {
    let ok = |v: &str| {
        parse_header(&text(&[
            "ply",
            "format binary_little_endian 1.0",
            &format!("comment offset: {} 0 0", v),
            "end_header",
        ]))
    };
    for good in ["1", "-2.5", "+.5", "3.", "1e5", "1.5E-3", "inf", "-Infinity", "NaN"] {
        assert!(ok(good).is_ok(), "{}", good);
        assert!(good.parse::<f64>().is_ok());
    }
    for bad in [".", "e5", "1e", "1.2.3", "abc", "0x10", "1e+"] {
        assert_eq!(ok(bad).unwrap_err(), HeaderError::InvalidOffset, "{}", bad);
        assert!(bad.parse::<f64>().is_err());
    }
    let other = parse_header(&text(&[
        "ply",
        "format binary_little_endian 1.0",
        "comment offset: abc",
        "end_header",
    ]));
    assert!(other.unwrap().0.offset.is_none());
}

#[test]
fn writer_header_parses_back() {
    let w = PlyNodeWriter::new(Encoding::Plain, OpenMode::Truncate, &[]).unwrap();
    let text = w.create_header(&vec![
        HeaderAttribute { name: b"color".to_vec(), data_type: DataType::Uint8, dim: 3 },
        HeaderAttribute { name: b"intensity".to_vec(), data_type: DataType::Float32, dim: 1 },
    ]);
    let (h, len) = parse_header(&text).unwrap();
    assert_eq!(len, text.len());
    assert_eq!(h.format, Format::BinaryLittleEndianV1);
    assert_eq!(h.elements.len(), 1);
    assert_eq!(h.elements[0].name, b"vertex".to_vec());
    assert_eq!(h.elements[0].count, 0);
    let props: Vec<(Vec<u8>, DataType)> =
        h.elements[0].properties.iter().map(|p| (p.name.clone(), p.data_type)).collect();
    assert_eq!(
        props,
        vec![
            (b"x".to_vec(), DataType::Float64),
            (b"y".to_vec(), DataType::Float64),
            (b"z".to_vec(), DataType::Float64),
            (b"red".to_vec(), DataType::Uint8),
            (b"green".to_vec(), DataType::Uint8),
            (b"blue".to_vec(), DataType::Uint8),
            (b"intensity".to_vec(), DataType::Float32),
        ]
    );
}
