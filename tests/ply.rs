use ply_points::batch::{AttributeData, PointsBatch};
use ply_points::reader::PlyIterator;
use ply_points::scalar::Scalar;
use ply_points::writer::{CountPatch, Encoding, OpenMode, PlyNodeWriter};

const BATCH_SIZE: usize = 2;
const NUM_BATCHES: usize = 4;
const LAST_BATCH: usize = 3;

const XS: [f32; 8] = [1.0, 4.0, 7.0, 10.0, 13.0, 16.0, 19.0, 22.0];
const REDS: [u8; 8] = [255, 10, 20, 30, 40, 50, 60, 234];
const REDS_RGBA: [u8; 8] = [255, 10, 20, 30, 40, 50, 60, 227];

fn header(props: &[&str], count: usize) -> Vec<u8> {
    let mut h = format!("ply\nformat binary_little_endian 1.0\nelement vertex {}\n", count);
    for p in props {
        h.push_str("property ");
        h.push_str(p);
        h.push('\n');
    }
    h.push_str("end_header\n");
    h.into_bytes()
}

/// Eight points with float x,y,z, uchar r,g,b, and optionally uchar alpha
/// and float intensity (NaN).
fn sample(alpha: bool, intensity: bool) -> Vec<u8> {
    let mut props = vec!["float x", "float y", "float z", "uchar red", "uchar green", "uchar blue"];
    if alpha {
        props.push("uchar alpha");
    }
    if intensity {
        props.push("float intensity");
    }
    let mut data = header(&props, 8);
    for i in 0..8 {
        data.extend_from_slice(&XS[i].to_le_bytes());
        data.extend_from_slice(&(i as f32 * 0.5).to_le_bytes());
        data.extend_from_slice(&(-(i as f32)).to_le_bytes());
        data.push(if alpha { REDS_RGBA[i] } else { REDS[i] });
        data.push(i as u8);
        data.push(100 + i as u8);
        if alpha {
            data.push(7);
        }
        if intensity {
            data.extend_from_slice(&f32::NAN.to_le_bytes());
        }
    }
    data.push(b'\n');
    data
}

fn batches_from_bytes(data: &[u8], batch_size: usize) -> Vec<PointsBatch> {
    let (mut it, mut pos) = PlyIterator::from_bytes(data, batch_size).unwrap();
    let mut batches = Vec::new();
    loop {
        let k = it.next_batch_len();
        let end = pos + k * it.layout.record_size;
        match it.next(&data[pos..end]) {
            Some(b) => batches.push(b),
            None => break,
        }
        pos = end;
    }
    batches
}

fn x_of(b: &PointsBatch, i: usize) -> f64 {
    coord(b.position[i][0])
}

fn coord(s: Scalar) -> f64 {
    match s {
        Scalar::Float32(bits) => f32::from_bits(bits) as f64,
        Scalar::Float64(bits) => f64::from_bits(bits),
        other => panic!("unexpected coordinate {:?}", other),
    }
}

fn column<'a>(b: &'a PointsBatch, name: &str) -> Option<&'a AttributeData> {
    b.attributes.iter().find(|a| a.name == name.as_bytes()).map(|a| &a.data)
}

fn colors(b: &PointsBatch) -> &Vec<[u8; 3]> {
    match column(b, "color") {
        Some(AttributeData::U8Vec3(v)) => v,
        other => panic!("no color column: {:?}", other),
    }
}

fn intensities(b: &PointsBatch) -> &Vec<u32> {
    match column(b, "intensity") {
        Some(AttributeData::F32(v)) => v,
        other => panic!("no intensity column: {:?}", other),
    }
}

fn apply(file: &mut Vec<u8>, patch: CountPatch) {
    file.extend_from_slice(&patch.trailer);
    file[patch.offset..patch.offset + patch.field.len()].copy_from_slice(&patch.field);
}

/// Writes the batches to `file` as a writer opened in `mode` would.
fn write_all(file: &mut Vec<u8>, mode: OpenMode, batches: &[PointsBatch]) {
    let head_len = file.len().min(73);
    let mut w = PlyNodeWriter::new(Encoding::Plain, mode, &file[..head_len]).unwrap();
    if mode == OpenMode::Truncate {
        file.clear();
    } else if w.resumes() {
        file.pop();
    }
    for b in batches {
        let bytes = w.write(&as_doubles(b)).unwrap();
        file.extend_from_slice(&bytes);
    }
    if let Some(p) = w.finish() {
        apply(file, p);
    }
}

fn as_doubles(b: &PointsBatch) -> PointsBatch {
    let mut out = b.clone();
    for p in out.position.iter_mut() {
        for c in p.iter_mut() {
            *c = Scalar::Float64(coord(*c).to_bits());
        }
    }
    out
}

#[test]
fn test_xyz_f32_rgb_u8_le() {
    let batches = batches_from_bytes(&sample(false, false), BATCH_SIZE);
    assert_eq!(NUM_BATCHES, batches.len());
    assert_eq!(x_of(&batches[0], 0), 1.);
    assert_eq!(x_of(&batches[LAST_BATCH], batches[LAST_BATCH].position.len() - 1), 22.);
    let color_first = colors(&batches[0]);
    let color_last = colors(&batches[LAST_BATCH]);
    assert_eq!(color_first[0][0], 255);
    assert_eq!(color_last.last().unwrap()[0], 234);
}

#[test]
fn test_xyz_f32_rgba_u8_le() {
    let batches = batches_from_bytes(&sample(true, false), BATCH_SIZE);
    assert_eq!(NUM_BATCHES, batches.len());
    assert_eq!(x_of(&batches[0], 0), 1.);
    assert_eq!(x_of(&batches[LAST_BATCH], batches[LAST_BATCH].position.len() - 1), 22.);
    let color_first = colors(&batches[0]);
    let color_last = colors(&batches[LAST_BATCH]);
    assert_eq!(color_first[0][0], 255);
    assert_eq!(color_last.last().unwrap()[0], 227);
}

#[test]
fn test_xyz_f32_rgb_u8_intensity_f32_le() {
    // All intensities in this file are NaN, but set.
    let batches = batches_from_bytes(&sample(false, true), BATCH_SIZE);
    assert_eq!(NUM_BATCHES, batches.len());
    assert_eq!(x_of(&batches[0], 0), 1.);
    assert_eq!(x_of(&batches[LAST_BATCH], batches[LAST_BATCH].position.len() - 1), 22.);
    assert_eq!(intensities(&batches[0]).len(), BATCH_SIZE);
    assert_eq!(intensities(&batches[LAST_BATCH]).len(), BATCH_SIZE);
    let color_first = colors(&batches[0]);
    let color_last = colors(&batches[LAST_BATCH]);
    assert_eq!(color_first[0][0], 255);
    assert_eq!(color_last.last().unwrap()[0], 234);
}

#[test]
fn test_ply_read_write() {
    let gt = sample(false, true);
    let mut target: Vec<u8> = Vec::new();
    write_all(&mut target, OpenMode::Truncate, &batches_from_bytes(&gt, BATCH_SIZE));
    // Now append to the file.
    write_all(&mut target, OpenMode::Append, &batches_from_bytes(&gt, BATCH_SIZE));
    let mut expected = batches_from_bytes(&gt, BATCH_SIZE);
    expected.extend(batches_from_bytes(&gt, BATCH_SIZE));
    let got = batches_from_bytes(&target, BATCH_SIZE);
    assert_eq!(expected.len(), got.len());
    for (gt, test) in expected.iter().zip(got.iter()) {
        let gt_pos: Vec<Vec<f64>> = gt.position.iter().map(|p| p.iter().map(|c| coord(*c)).collect()).collect();
        let test_pos: Vec<Vec<f64>> = test.position.iter().map(|p| p.iter().map(|c| coord(*c)).collect()).collect();
        assert_eq!(gt_pos, test_pos);
        assert_eq!(colors(gt), colors(test));
        // All intensities in this file are NaN, but set.
        let gt_intensity = intensities(gt);
        let test_intensity = intensities(test);
        assert_eq!(gt_intensity.len(), test_intensity.len());
        assert!(gt_intensity.iter().all(|i| f32::from_bits(*i).is_nan()));
        assert!(test_intensity.iter().all(|i| f32::from_bits(*i).is_nan()));
    }
}
