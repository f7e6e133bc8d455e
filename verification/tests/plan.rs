use ddsd::decode::decoder::DecodeOptions;
use ddsd::decode::{decode, decode_rect};
use ddsd::decode::plan::{
    checked_rect_read_plan, checked_row_plan, rect_read_plan, stripe_read_plan, ReadPlan, RowPlan,
};
use ddsd::format::Format;
use ddsd::pixel::{Channels, ColorFormat, Precision, Rect, Size};

const OPTIONS: DecodeOptions = DecodeOptions { memory_limit: 1 << 20 };

fn noise(len: usize, seed: u32) -> Vec<u8> {
    let mut state = seed;
    (0..len)
        .map(|_| {
            state = state.wrapping_mul(1664525).wrapping_add(1013904223);
            (state >> 24) as u8
        })
        .collect()
}

#[test]
fn plan_of_a_block_compressed_surface() {
    let size = Size { width: 16, height: 16 };
    let rect = Rect { x: 3, y: 5, width: 4, height: 3 };
    let plan = rect_read_plan(Format::BC1_UNORM, size, rect);
    assert_eq!(
        plan,
        ReadPlan {
            skip: 32,
            len: 32,
            rest: 64,
            size: Size { width: 16, height: 4 },
            rect: Rect { x: 3, y: 1, width: 4, height: 3 },
        }
    );
}

#[test]
fn plan_ends_with_the_surface() {
    // the last row of blocks holds two rows of pixels only
    let size = Size { width: 5, height: 10 };
    let rect = Rect { x: 0, y: 7, width: 5, height: 3 };
    let plan = rect_read_plan(Format::BC3_UNORM, size, rect);
    assert_eq!(
        plan,
        ReadPlan {
            skip: 32,
            len: 64,
            rest: 0,
            size: Size { width: 5, height: 6 },
            rect: Rect { x: 0, y: 3, width: 5, height: 3 },
        }
    );
}

#[test]
fn plan_of_rows_of_pixels() {
    let size = Size { width: 7, height: 9 };
    let rect = Rect { x: 2, y: 4, width: 3, height: 2 };
    let plan = rect_read_plan(Format::R8G8B8_UNORM, size, rect);
    assert_eq!(
        plan,
        ReadPlan {
            skip: 84,
            len: 42,
            rest: 63,
            size: Size { width: 7, height: 2 },
            rect: Rect { x: 2, y: 0, width: 3, height: 2 },
        }
    );
    // a sub-sampled format has blocks of two pixels
    let plan = rect_read_plan(Format::YUY2, size, rect);
    assert_eq!((plan.skip, plan.len, plan.rest), (64, 32, 48));
}

#[test]
fn rectangles_without_a_plan() {
    let size = Size { width: 8, height: 8 };
    let outside = Rect { x: 0, y: 7, width: 8, height: 2 };
    assert_eq!(checked_rect_read_plan(Format::BC1_UNORM, size, outside), None);
    let flat = Rect { x: 0, y: 3, width: 8, height: 0 };
    assert_eq!(checked_rect_read_plan(Format::BC1_UNORM, size, flat), None);
    let huge = Size { width: u32::MAX, height: u32::MAX };
    let rect = Rect { x: 0, y: 0, width: 1, height: 1 };
    assert_eq!(checked_rect_read_plan(Format::R32G32B32A32_FLOAT, huge, rect), None);
    let inside = Rect { x: 1, y: 1, width: 2, height: 2 };
    assert_eq!(
        checked_rect_read_plan(Format::BC1_UNORM, size, inside),
        Some(rect_read_plan(Format::BC1_UNORM, size, inside))
    );
}

#[test]
fn decoding_the_planned_part_gives_the_rectangle() {
    let cases = [
        (Format::BC1_UNORM, 8usize, 4u32),
        (Format::BC3_UNORM, 16, 4),
        (Format::BC5_SNORM, 16, 4),
        (Format::R8G8B8A8_UNORM, 4, 1),
        (Format::B5G6R5_UNORM, 2, 1),
        (Format::YUY2, 4, 2),
    ];
    let size = Size { width: 13, height: 11 };
    let rect = Rect { x: 3, y: 5, width: 7, height: 4 };
    let color = ColorFormat { channels: Channels::Rgba, precision: Precision::U8 };
    for (format, block_bytes, block) in cases {
        let block_height = if block == 4 { 4 } else { 1 };
        let blocks_x = (size.width + block - 1) / block;
        let blocks_y = (size.height + block_height - 1) / block_height;
        let encoded = noise(blocks_x as usize * blocks_y as usize * block_bytes, 7);

        let pitch = rect.width as usize * 4;
        let mut whole = vec![0u8; pitch * rect.height as usize];
        decode_rect(format, &encoded, size, rect, color, &mut whole, pitch, &OPTIONS).unwrap();

        let plan = rect_read_plan(format, size, rect);
        assert_eq!((plan.skip + plan.len + plan.rest) as usize, encoded.len());
        let part = &encoded[plan.skip as usize..(plan.skip + plan.len) as usize];
        let mut planned = vec![0u8; pitch * rect.height as usize];
        decode_rect(format, part, plan.size, plan.rect, color, &mut planned, pitch, &OPTIONS)
            .unwrap();
        assert_eq!(planned, whole, "{:?}", format);
    }
}

#[test]
fn plan_by_rows() {
    let size = Size { width: 7, height: 9 };
    let rect = Rect { x: 2, y: 4, width: 3, height: 2 };
    assert_eq!(
        checked_row_plan(Format::R8G8B8_UNORM, size, rect),
        Some(RowPlan {
            lead: 4 * 21 + 6,
            len: 9,
            gap: 12,
            rows: 2,
            rest: 3 * 21 + 6,
            size: Size { width: 3, height: 2 },
            rect: Rect { x: 0, y: 0, width: 3, height: 2 },
        })
    );
    // blocks of two pixels: columns 2 to 5 are read for columns 3 and 4,
    // and the last block of a row holds one pixel only
    let rect = Rect { x: 3, y: 1, width: 2, height: 3 };
    assert_eq!(
        checked_row_plan(Format::YUY2, size, rect),
        Some(RowPlan {
            lead: 16 + 4,
            len: 8,
            gap: 8,
            rows: 3,
            rest: 5 * 16 + 4,
            size: Size { width: 4, height: 3 },
            rect: Rect { x: 1, y: 0, width: 2, height: 3 },
        })
    );
    let rect = Rect { x: 5, y: 8, width: 2, height: 1 };
    assert_eq!(
        checked_row_plan(Format::YUY2, size, rect),
        Some(RowPlan {
            lead: 8 * 16 + 8,
            len: 8,
            gap: 8,
            rows: 1,
            rest: 0,
            size: Size { width: 3, height: 1 },
            rect: Rect { x: 1, y: 0, width: 2, height: 1 },
        })
    );
    // eight pixels to the byte
    let size = Size { width: 21, height: 2 };
    let rect = Rect { x: 9, y: 0, width: 10, height: 2 };
    assert_eq!(
        checked_row_plan(Format::R1_UNORM, size, rect),
        Some(RowPlan {
            lead: 1,
            len: 2,
            gap: 1,
            rows: 2,
            rest: 0,
            size: Size { width: 13, height: 2 },
            rect: Rect { x: 1, y: 0, width: 10, height: 2 },
        })
    );
}

#[test]
fn rectangles_without_a_plan_by_rows() {
    let size = Size { width: 8, height: 8 };
    let inside = Rect { x: 1, y: 1, width: 2, height: 2 };
    assert_eq!(checked_row_plan(Format::BC1_UNORM, size, inside), None);
    assert!(checked_row_plan(Format::R8_UNORM, size, inside).is_some());
    let outside = Rect { x: 7, y: 0, width: 2, height: 2 };
    assert_eq!(checked_row_plan(Format::R8_UNORM, size, outside), None);
    let flat = Rect { x: 0, y: 3, width: 8, height: 0 };
    assert_eq!(checked_row_plan(Format::R8_UNORM, size, flat), None);
    let thin = Rect { x: 3, y: 0, width: 0, height: 8 };
    assert_eq!(checked_row_plan(Format::R8_UNORM, size, thin), None);
    let huge = Size { width: u32::MAX, height: u32::MAX };
    assert_eq!(checked_row_plan(Format::R32G32B32A32_FLOAT, huge, inside), None);
}

#[test]
fn decoding_the_gathered_rows_gives_the_rectangle() {
    let cases = [
        (Format::R8G8B8A8_UNORM, 4usize, 1u32),
        (Format::B5G6R5_UNORM, 2, 1),
        (Format::R9G9B9E5_SHAREDEXP, 4, 1),
        (Format::YUY2, 4, 2),
        (Format::Y216, 8, 2),
        (Format::R8G8_B8G8_UNORM, 4, 2),
        (Format::R1_UNORM, 1, 8),
    ];
    let size = Size { width: 29, height: 11 };
    let color = ColorFormat { channels: Channels::Rgba, precision: Precision::U16 };
    for (format, block_bytes, block) in cases {
        let pitch_encoded = ((size.width + block - 1) / block) as usize * block_bytes;
        let encoded = noise(pitch_encoded * size.height as usize, 11);
        for rect in [
            Rect { x: 3, y: 5, width: 7, height: 4 },
            Rect { x: 0, y: 0, width: 29, height: 11 },
            Rect { x: 28, y: 10, width: 1, height: 1 },
            Rect { x: 9, y: 2, width: 20, height: 3 },
        ] {
            let pitch = rect.width as usize * 8;
            let mut whole = vec![0u8; pitch * rect.height as usize];
            decode_rect(format, &encoded, size, rect, color, &mut whole, pitch, &OPTIONS).unwrap();

            let plan = checked_row_plan(format, size, rect).unwrap();
            let mut gathered = Vec::new();
            let mut at = plan.lead as usize;
            for _ in 0..plan.rows {
                gathered.extend(&encoded[at..at + plan.len as usize]);
                at += (plan.len + plan.gap) as usize;
            }
            assert_eq!(at - plan.gap as usize + plan.rest as usize, encoded.len());
            let mut planned = vec![0u8; pitch * rect.height as usize];
            decode_rect(format, &gathered, plan.size, plan.rect, color, &mut planned, pitch, &OPTIONS)
                .unwrap();
            assert_eq!(planned, whole, "{:?} {:?}", format, rect);
        }
    }
}

#[test]
fn stripes_hold_what_a_chunk_holds() {
    // rows of 4000 bytes: 16 rows to the chunk of 64 KiB
    let size = Size { width: 1000, height: 40 };
    let plan = stripe_read_plan(Format::R8G8B8A8_UNORM, size, 0).unwrap();
    assert_eq!((plan.skip, plan.len, plan.rest), (0, 64000, 96000));
    assert_eq!(plan.size, Size { width: 1000, height: 16 });
    assert_eq!(plan.rect, Rect { x: 0, y: 0, width: 1000, height: 16 });
    let plan = stripe_read_plan(Format::R8G8B8A8_UNORM, size, 32).unwrap();
    assert_eq!((plan.skip, plan.len, plan.rest), (128000, 32000, 0));
    assert_eq!(plan.rect.height, 8);
    assert_eq!(stripe_read_plan(Format::R8G8B8A8_UNORM, size, 40), None);
    // a row of blocks that is longer than a chunk is a stripe of its own
    let wide = Size { width: 40000, height: 9 };
    let plan = stripe_read_plan(Format::BC1_UNORM, wide, 4).unwrap();
    assert_eq!((plan.skip, plan.len, plan.rest), (80000, 80000, 80000));
    assert_eq!(plan.size, Size { width: 40000, height: 4 });
    let plan = stripe_read_plan(Format::BC1_UNORM, wide, 8).unwrap();
    assert_eq!((plan.skip, plan.len, plan.rest), (160000, 80000, 0));
    assert_eq!(plan.size, Size { width: 40000, height: 1 });
    // rows of blocks of 16 bytes: 4096 blocks to the stripe
    let narrow = Size { width: 4, height: 40000 };
    let plan = stripe_read_plan(Format::BC3_UNORM, narrow, 0).unwrap();
    assert_eq!((plan.len, plan.rect.height), (65536, 16384));
    // a surface without columns has rows of no bytes
    let flat = Size { width: 0, height: 3 };
    let plan = stripe_read_plan(Format::R8_UNORM, flat, 0).unwrap();
    assert_eq!((plan.len, plan.rect.height), (0, 1));
}

#[test]
fn decoding_stripe_by_stripe_gives_the_surface() {
    let color = ColorFormat { channels: Channels::Rgba, precision: Precision::U8 };
    for (format, size, encoded_len) in [
        (Format::R8G8B8_UNORM, Size { width: 2500, height: 23 }, 2500 * 3 * 23),
        (Format::BC1_UNORM, Size { width: 1030, height: 130 }, 258 * 33 * 8),
        (Format::YUY2, Size { width: 3001, height: 17 }, 1501 * 4 * 17),
    ] {
        let encoded = noise(encoded_len, 21);
        let out_row = size.width as usize * 4;
        let mut whole = vec![0u8; out_row * size.height as usize];
        decode(format, &encoded, size, color, &mut whole, &OPTIONS).unwrap();

        let mut striped = vec![0u8; whole.len()];
        let mut at = 0usize;
        let mut y = 0u32;
        let mut stripes = 0;
        while y < size.height {
            let plan = stripe_read_plan(format, size, y).unwrap();
            assert_eq!(plan.skip as usize, at);
            assert_eq!(plan.rect.y, 0);
            assert_eq!(plan.size.height, plan.rect.height);
            assert!(plan.len <= 65536 || stripes == 0);
            let chunk = &encoded[at..at + plan.len as usize];
            let rows = plan.rect.height as usize;
            let from = y as usize * out_row;
            decode(format, chunk, plan.size, color, &mut striped[from..from + rows * out_row], &OPTIONS)
                .unwrap();
            at += plan.len as usize;
            y += plan.rect.height;
            stripes += 1;
        }
        assert_eq!(at, encoded.len());
        assert!(stripes > 1);
        assert_eq!(striped, whole, "{:?}", format);
    }
}
