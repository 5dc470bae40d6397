use ra2_shp::errors::Ra2Error;
use ra2_shp::shp::enums::scene_type::SceneType;
use ra2_shp::shp::paint::argb_to_rgba;
use ra2_shp::shp::reader::{
    decide_read_size, decode_frames_checked, parse_all_frame_header, parse_header, read_shp_checked,
};
use ra2_shp::shp::rows::{expand_pixel_row, read_rows_type01, read_rows_type03};
use ra2_shp::shp::shp_header::read_shp_header;
use ra2_shp::shp::types::{ColorPoint, FrameHeader, ShapeUnitFrame};

fn le16(v: u16) -> [u8; 2] {
    v.to_le_bytes()
}

struct Frame {
    min_x: u16,
    min_y: u16,
    width: u16,
    height: u16,
    frame_type: u32,
    data: Vec<u8>,
}

/// An SHP file: header, frame headers, then each frame's data padded to a
/// multiple of 8 bytes from the start of the file (the padding bytes are 0xEE).
fn shp_file(width: u16, height: u16, frames: &[Frame]) -> Vec<u8> {
    let mut out = vec![0u8, 0];
    out.extend(le16(width));
    out.extend(le16(height));
    out.extend(le16(frames.len() as u16));
    for f in frames {
        out.extend(le16(f.min_x));
        out.extend(le16(f.min_y));
        out.extend(le16(f.width));
        out.extend(le16(f.height));
        out.extend(f.frame_type.to_le_bytes());
        out.extend([0u8; 8]);
        out.extend(0u32.to_le_bytes());
    }
    for f in frames {
        out.extend(&f.data);
        while out.len() % 8 != 0 {
            out.push(0xEE);
        }
    }
    out
}

/// A colour table whose entry `i` is opaque with blue channel `i`; entry 0 is transparent.
fn test_colors() -> [u32; 256] {
    let mut ca = [0u32; 256];
    for i in 1..256u32 {
        ca[i as usize] = 0xFF000000 | i;
    }
    ca
}

fn pixel(f: &ShapeUnitFrame, x: u32, y: u32) -> [u8; 4] {
    let (w, _, raw) = f.image_rgba();
    let i = ((y * w + x) * 4) as usize;
    [raw[i], raw[i + 1], raw[i + 2], raw[i + 3]]
}

fn px(i: u8) -> [u8; 4] {
    if i == 0 { [0, 0, 0, 0] } else { [0, 0, i, 255] }
}

#[test]
fn header_readers() {
    let bytes = [0x34u8, 0x12, 0x40, 0x00, 0x30, 0x01, 0x05, 0x00, 0xAA];
    let h = parse_header(&bytes).unwrap();
    assert_eq!((h.width, h.height, h.frames), (0x40, 0x130, 5));
    let h2 = read_shp_header(&bytes).unwrap();
    assert_eq!((h2._reserved, h2.width, h2.height, h2.number_of_frames), (0x1234, 0x40, 0x130, 5));
    assert_eq!(h2.frames_to_decode(true), 2);
    assert_eq!(h2.frames_to_decode(false), 5);
    assert!(parse_header(&bytes[..7]).is_err());
    assert!(matches!(read_shp_header(&bytes[..7]), Err(Ra2Error::Io(_))));
}

#[test]
fn frame_header_reader() {
    let mut bytes = vec![0u8; 8];
    bytes.extend([1, 0, 2, 0, 3, 0, 4, 0, 3, 0, 0, 0, 9, 9, 9, 9, 9, 9, 9, 9, 0x10, 0x20, 0x30, 0x40]);
    let v = parse_all_frame_header(&bytes, 1).unwrap();
    assert_eq!(
        v,
        vec![FrameHeader { min_x: 1, min_y: 2, width: 3, height: 4, frame_type: 3, data_offset: 0x40302010 }]
    );
    assert!(parse_all_frame_header(&bytes, 2).is_err());
    assert!(parse_all_frame_header(&bytes[..31], 1).is_err());
    assert_eq!(parse_all_frame_header(&[], 0).unwrap().len(), 0);
}

#[test]
fn read_sizes() {
    let h = FrameHeader { min_x: 0, min_y: 0, width: 0, height: 0, frame_type: 0, data_offset: 0 };
    let mut one = vec![h];
    let mut six = vec![h; 6];
    assert_eq!(decide_read_size(&mut one, false, true), 1);
    assert_eq!(decide_read_size(&mut six, false, true), 3);
    assert_eq!(decide_read_size(&mut six, false, false), 6);
    assert_eq!(decide_read_size(&mut six, true, true), 6);
    assert_eq!(six.len(), 6);
}

#[test]
fn argb_split() {
    assert_eq!(argb_to_rgba(0x80112233), [0x11, 0x22, 0x33, 0x80]);
}

#[test]
fn run_length_rows() {
    assert_eq!(expand_pixel_row(&[5, 0, 3, 7]), vec![5, 0, 0, 0, 7]);
    assert_eq!(expand_pixel_row(&[0, 0, 4]), vec![0, 0, 0, 0, 0]);
    assert_eq!(expand_pixel_row(&[0, 0, 0]), vec![0, 0, 0]);
    assert_eq!(expand_pixel_row(&[9, 0]), vec![9, 0]);
    assert_eq!(expand_pixel_row(&[1, 2, 3]), vec![1, 2, 3]);
}

#[test]
fn scene_info() {
    let i = SceneType::Urban.info();
    assert_eq!((i.cn_desc, i.pal_prefix, i.scene_mark), ("城市", "uniturb", "u"));
    assert_eq!(SceneType::Snow.info().pal_prefix, "unitsno");
    assert_eq!(SceneType::Tem.info().scene_mark, "t");
    assert_eq!(SceneType::Anim.info().pal_prefix, "anim");
    assert_eq!(SceneType::Anim.info().scene_mark, "");
}

#[test]
fn type01_frame_with_house_colours() {
    let bytes = shp_file(4, 3, &[Frame { min_x: 1, min_y: 1, width: 2, height: 2, frame_type: 0, data: vec![1, 17, 18, 0] }]);
    let frames = read_shp_checked(&bytes, "uniturb", false, test_colors()).unwrap().unwrap();
    assert_eq!(frames.len(), 1);
    let f = &frames[0];
    let (w, h, raw) = f.image_rgba();
    assert_eq!((w, h, raw.len()), (4, 3, 48));
    assert_eq!((f.min_x, f.min_y, f.max_x, f.max_y, f.real_part_width, f.real_part_height), (1, 1, 2, 2, 2, 2));
    assert_eq!(pixel(f, 1, 1), px(1));
    assert_eq!(pixel(f, 2, 1), px(17));
    assert_eq!(pixel(f, 1, 2), px(18));
    assert_eq!(pixel(f, 2, 2), px(0));
    assert_eq!(pixel(f, 0, 0), [0, 0, 0, 0]);
    assert_eq!(pixel(f, 3, 2), [0, 0, 0, 0]);
    assert_eq!(f.color_points.as_ref().unwrap(), &vec![ColorPoint { x: 2, y: 1 }, ColorPoint { x: 1, y: 2 }]);
}

#[test]
fn non_unit_palette_records_no_points() {
    let bytes = shp_file(4, 3, &[Frame { min_x: 1, min_y: 1, width: 2, height: 2, frame_type: 1, data: vec![1, 17, 18, 0] }]);
    let frames = read_shp_checked(&bytes, "anim", false, test_colors()).unwrap().unwrap();
    assert!(frames[0].color_points.is_none());
    assert_eq!(pixel(&frames[0], 2, 1), px(17));
}

#[test]
fn type03_frame_row_layouts() {
    let mut data = vec![];
    data.extend([4, 0, 0xAB, 0xCD]); // row 0: empty
    data.extend([10, 0, 0, 2, 5, 0, 2, 6, 0, 0]); // row 1: skip 2, then 5, two transparent, 6
    data.extend([6, 0, 7, 8, 0, 1]); // row 2: 7, 8, then the closing zero
    data.extend([5, 0, 20, 21, 22]); // row 3: plain
    let bytes = shp_file(8, 4, &[Frame { min_x: 0, min_y: 0, width: 8, height: 4, frame_type: 3, data }]);
    let frames = read_shp_checked(&bytes, "unittem", false, test_colors()).unwrap().unwrap();
    let f = &frames[0];
    for x in 0..8 {
        assert_eq!(pixel(f, x, 0), [0, 0, 0, 0]);
    }
    assert_eq!(pixel(f, 1, 1), [0, 0, 0, 0]);
    assert_eq!(pixel(f, 2, 1), px(5));
    assert_eq!(pixel(f, 3, 1), px(0));
    assert_eq!(pixel(f, 4, 1), px(0));
    assert_eq!(pixel(f, 5, 1), px(6));
    assert_eq!(pixel(f, 6, 1), [0, 0, 0, 0]);
    assert_eq!(pixel(f, 0, 2), px(7));
    assert_eq!(pixel(f, 1, 2), px(8));
    assert_eq!(pixel(f, 2, 2), [0, 0, 0, 0]);
    assert_eq!(pixel(f, 0, 3), px(20));
    assert_eq!(pixel(f, 2, 3), px(22));
    assert_eq!(
        f.color_points.as_ref().unwrap(),
        &vec![ColorPoint { x: 0, y: 3 }, ColorPoint { x: 1, y: 3 }, ColorPoint { x: 2, y: 3 }]
    );
}

#[test]
fn frames_start_on_eight_byte_boundaries() {
    let frames = [
        Frame { min_x: 0, min_y: 0, width: 3, height: 1, frame_type: 0, data: vec![1, 2, 3] },
        Frame { min_x: 0, min_y: 1, width: 3, height: 1, frame_type: 0, data: vec![4, 5, 6] },
    ];
    let bytes = shp_file(3, 2, &frames);
    let decoded = read_shp_checked(&bytes, "anim", false, test_colors()).unwrap().unwrap();
    assert_eq!(decoded.len(), 2);
    assert_eq!(pixel(&decoded[0], 2, 0), px(3));
    assert_eq!(pixel(&decoded[1], 0, 1), px(4));
    assert_eq!(pixel(&decoded[1], 2, 1), px(6));
    assert_eq!(pixel(&decoded[1], 0, 0), [0, 0, 0, 0]);
    let half = read_shp_checked(&bytes, "anim", true, test_colors()).unwrap().unwrap();
    assert_eq!(half.len(), 1);
}

#[test]
fn short_data_stops_the_frame() {
    let mut bytes = shp_file(2, 2, &[Frame { min_x: 0, min_y: 0, width: 2, height: 2, frame_type: 0, data: vec![] }]);
    bytes.extend([9, 10, 11]);
    let frames = read_shp_checked(&bytes, "anim", false, test_colors()).unwrap().unwrap();
    assert_eq!(pixel(&frames[0], 0, 0), px(9));
    assert_eq!(pixel(&frames[0], 1, 0), px(10));
    assert_eq!(pixel(&frames[0], 0, 1), [0, 0, 0, 0]);
}

#[test]
fn empty_frame_away_from_origin() {
    let bytes = shp_file(2, 2, &[Frame { min_x: 1, min_y: 1, width: 0, height: 0, frame_type: 0, data: vec![] }]);
    let frames = read_shp_checked(&bytes, "uniturb", false, test_colors()).unwrap().unwrap();
    assert_eq!(frames[0].image_rgba(), (2, 2, vec![0u8; 16]));
    assert_eq!(frames[0].color_points.as_ref().unwrap().len(), 0);
    assert_eq!((frames[0].max_x, frames[0].max_y), (0, 0));
}

#[test]
fn undecodable_frames() {
    // A row of type 1 that reaches past the canvas.
    let bytes = shp_file(4, 2, &[Frame { min_x: 3, min_y: 0, width: 2, height: 1, frame_type: 1, data: vec![1, 1] }]);
    assert!(read_shp_checked(&bytes, "anim", false, test_colors()).unwrap().is_none());
    // A row below the canvas.
    let bytes = shp_file(4, 2, &[Frame { min_x: 0, min_y: 2, width: 1, height: 1, frame_type: 0, data: vec![1] }]);
    assert!(read_shp_checked(&bytes, "anim", false, test_colors()).unwrap().is_none());
    // A size-0 part at the origin.
    let bytes = shp_file(4, 2, &[Frame { min_x: 0, min_y: 0, width: 0, height: 0, frame_type: 0, data: vec![] }]);
    assert!(read_shp_checked(&bytes, "anim", false, test_colors()).unwrap().is_none());
    // Type-3 row lengths that cannot be indexed.
    for row in [vec![1u8, 0], vec![2, 0], vec![3, 0, 7], vec![5, 0, 0, 0, 1]] {
        let bytes = shp_file(4, 2, &[Frame { min_x: 0, min_y: 0, width: 4, height: 1, frame_type: 3, data: row.clone() }]);
        assert!(read_shp_checked(&bytes, "anim", false, test_colors()).unwrap().is_none(), "{:?}", row);
    }
}

#[test]
fn files_too_short_for_their_headers() {
    assert!(read_shp_checked(&[0u8; 7], "anim", false, test_colors()).is_err());
    let mut bytes = shp_file(2, 2, &[Frame { min_x: 1, min_y: 1, width: 0, height: 0, frame_type: 0, data: vec![] }]);
    bytes[6] = 2;
    bytes.truncate(8 + 24);
    assert!(read_shp_checked(&bytes, "anim", false, test_colors()).is_err());
}

#[test]
fn row_readers_report_data_that_runs_out() {
    let head = FrameHeader { min_x: 1, min_y: 2, width: 2, height: 3, frame_type: 0, data_offset: 0 };
    let (rows, end, status) = read_rows_type01(&[7, 8, 9, 10, 11], 0, &head);
    assert_eq!(rows.len(), 2);
    assert_eq!((rows[1].x, rows[1].y, rows[1].indices.clone()), (1, 3, vec![9, 10]));
    assert_eq!(end, 5);
    assert!(status.is_err());
    let (rows, end, status) = read_rows_type01(&[7, 8, 9, 10, 11, 12], 0, &head);
    assert_eq!((rows.len(), end), (3, 6));
    assert!(status.is_ok());

    let head = FrameHeader { min_x: 0, min_y: 0, width: 4, height: 2, frame_type: 3, data_offset: 0 };
    let (rows, end, status) = read_rows_type03(&[5, 0, 1, 2, 3, 6, 0], 0, &head).unwrap();
    assert_eq!((rows.len(), end), (1, 7));
    assert_eq!(rows[0].indices, vec![1, 2, 3]);
    assert!(status.is_err());
    let (rows, end, status) = read_rows_type03(&[5, 0, 1, 2, 3, 4, 0, 9, 9], 0, &head).unwrap();
    assert_eq!((rows.len(), end), (1, 9));
    assert!(status.is_ok());
    assert!(read_rows_type03(&[1, 0], 0, &head).is_none());
}

#[test]
fn stream_ends_on_an_eight_byte_boundary() {
    let frames = [
        Frame { min_x: 0, min_y: 0, width: 3, height: 1, frame_type: 0, data: vec![1, 2, 3] },
        Frame { min_x: 0, min_y: 1, width: 3, height: 1, frame_type: 0, data: vec![4, 5, 6] },
    ];
    let bytes = shp_file(3, 2, &frames);
    let header = parse_header(&bytes).unwrap();
    let mut heads = parse_all_frame_header(&bytes, header.frames).unwrap();
    let mut pos = 8 + 24 * 2;
    let decoded = decode_frames_checked(&bytes, &mut pos, 2, header, &mut heads, "anim", test_colors()).unwrap();
    assert_eq!(decoded.len(), 2);
    assert_eq!(pos, 72);
    let mut pos = 56;
    decode_frames_checked(&bytes, &mut pos, 1, header, &mut heads, "anim", test_colors()).unwrap();
    assert_eq!(pos, 64);
}
