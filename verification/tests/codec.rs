use spritebot_storage::animdata::{AnimDataXML, AnimXML, AnimsXML, DurationsXML};
use spritebot_storage::error::SpriteBotStorageError;
use spritebot_storage::grid::{get_image, get_number_of_component_on_axis, slice_sheet};
use spritebot_storage::image_data::{Image, Rgba};
use spritebot_storage::offsets::FrameOffset;
use spritebot_storage::sprite::{Animation, AnimationSheets, Frame, Sprite};

fn rgba(r: u8, g: u8, b: u8, a: u8) -> Rgba {
    Rgba { r, g, b, a }
}

/// Encodes raw RGBA bytes as a PNG stream, for building test fixtures.
fn png_of(w: u32, h: u32, data: Vec<u8>) -> Vec<u8> {
    let img = image::RgbaImage::from_raw(w, h, data).unwrap();
    let mut out = Vec::new();
    img.write_to(
        &mut std::io::Cursor::new(&mut out),
        image::ImageOutputFormat::Png,
    )
    .unwrap();
    out
}

/// An 8x8 offsets cell with one red, green and blue marker, as raw bytes.
fn offsets_cell_bytes() -> Vec<u8> {
    let mut img = Image::new(8, 8);
    img.put_pixel(1, 0, rgba(255, 0, 0, 255));
    img.put_pixel(2, 2, rgba(0, 255, 0, 255));
    img.put_pixel(3, 1, rgba(0, 0, 255, 255));
    img.into_raw()
}

/// An 8x8 shadow cell with one white marker, as raw bytes.
fn shadow_cell_bytes() -> Vec<u8> {
    let mut img = Image::new(8, 8);
    img.put_pixel(4, 4, rgba(255, 255, 255, 255));
    img.into_raw()
}

fn default_offsets() -> FrameOffset {
    FrameOffset {
        head: (1, 1),
        hand_left: (0, 3),
        hand_right: (3, 3),
        center: (2, 2),
        shadow: (2, 0),
    }
}

fn frame_4x4(seed: u8, offsets: FrameOffset, duration: u8) -> Frame {
    let mut data = Vec::new();
    for i in 0..4u8 {
        for j in 0..4u8 {
            data.push(seed.wrapping_add(i));
            data.push(j);
            data.push(seed);
            data.push(255);
        }
    }
    Frame {
        duration,
        image: Image::from_raw(4, 4, data),
        offsets,
    }
}

#[test]
fn round_trip_preserves_model() {
    let sprite = Sprite {
        shadow_size: 2,
        animations: vec![Animation {
            name: "Walk".to_string(),
            index: 3,
            rush_frame: Some(1),
            hit_frame: None,
            return_frame: None,
            images: vec![vec![
                frame_4x4(10, default_offsets(), 5),
                frame_4x4(90, default_offsets(), 7),
            ]],
        }],
    };
    let (animdata, outputs) = sprite.encode().unwrap();
    assert_eq!(animdata.shadow_size, 2);
    assert_eq!(animdata.anims.anim.len(), 1);
    let entry = &animdata.anims.anim[0];
    assert_eq!(entry.name, "Walk");
    assert_eq!(entry.index, 3);
    assert_eq!(entry.rush_frame, Some(1));
    assert_eq!(entry.frame_width, 8);
    assert_eq!(entry.frame_height, 8);
    assert_eq!(entry.durations.duration, vec![5, 7]);

    let sheets = vec![AnimationSheets {
        anim: outputs[0].anim_png.clone(),
        shadow: outputs[0].shadow_png.clone(),
        offsets: outputs[0].offsets_png.clone(),
    }];
    let decoded = Sprite::new(&animdata, &sheets).unwrap();
    assert_eq!(decoded.shadow_size, 2);
    assert_eq!(decoded.animations.len(), 1);
    let anim = &decoded.animations[0];
    assert_eq!(anim.name, "Walk");
    assert_eq!(anim.index, 3);
    assert_eq!(anim.rush_frame, Some(1));
    assert_eq!(anim.hit_frame, None);
    assert_eq!(anim.images.len(), 1);
    assert_eq!(anim.images[0].len(), 2);
    let originals = [
        frame_4x4(10, default_offsets(), 5),
        frame_4x4(90, default_offsets(), 7),
    ];
    for (fr, orig) in anim.images[0].iter().zip(originals.iter()) {
        assert_eq!(fr.offsets, orig.offsets);
        assert_eq!(fr.duration, orig.duration);
        assert_eq!(fr.image.width(), 8);
        assert_eq!(fr.image.height(), 8);
        for y in 0..8u32 {
            for x in 0..8u32 {
                let expect = if x < 4 && y < 4 {
                    orig.image.get_pixel(x, y)
                } else {
                    rgba(0, 0, 0, 0)
                };
                assert_eq!(fr.image.get_pixel(x, y), expect);
            }
        }
    }
}

#[test]
fn round_trip_head_falls_back_to_center() {
    let mut offsets = default_offsets();
    offsets.head = offsets.center;
    let sprite = Sprite {
        shadow_size: 0,
        animations: vec![Animation {
            name: "Idle".to_string(),
            index: 0,
            rush_frame: None,
            hit_frame: None,
            return_frame: None,
            images: vec![vec![frame_4x4(1, offsets, 1)]],
        }],
    };
    let (animdata, outputs) = sprite.encode().unwrap();
    let sheets = vec![AnimationSheets {
        anim: outputs[0].anim_png.clone(),
        shadow: outputs[0].shadow_png.clone(),
        offsets: outputs[0].offsets_png.clone(),
    }];
    let decoded = Sprite::new(&animdata, &sheets).unwrap();
    assert_eq!(decoded.animations[0].images[0][0].offsets, offsets);
}

#[test]
fn grid_slicing_is_exhaustive() {
    let mut data = Vec::new();
    for k in 0..(6 * 4) as u8 {
        data.push(k);
        data.push(k.wrapping_mul(3));
        data.push(200 - k);
        data.push(255);
    }
    let sheet = Image::from_raw(6, 4, data);
    let grid = slice_sheet(&sheet, 3, 2, "a", "Anim").unwrap();
    assert_eq!(grid.len(), 2);
    for (l, row) in grid.iter().enumerate() {
        assert_eq!(row.len(), 2);
        for (f, cell) in row.iter().enumerate() {
            assert_eq!(cell.width(), 3);
            assert_eq!(cell.height(), 2);
            for y in 0..2u32 {
                for x in 0..3u32 {
                    assert_eq!(
                        cell.get_pixel(x, y),
                        sheet.get_pixel(f as u32 * 3 + x, l as u32 * 2 + y)
                    );
                }
            }
        }
    }
}

#[test]
fn slicing_rejects_non_multiple_and_zero() {
    let sheet = Image::new(10, 10);
    let r = slice_sheet(&sheet, 3, 3, "a", "Anim");
    assert!(matches!(
        r,
        Err(SpriteBotStorageError::SpriteSizeNotMultiple(_, _, _))
    ));
    let r = slice_sheet(&sheet, 0, 5, "a", "Anim");
    assert!(matches!(
        r,
        Err(SpriteBotStorageError::SpriteSizeZero(_, _, _))
    ));
}

#[test]
fn axis_component_count() {
    assert!(matches!(
        get_number_of_component_on_axis(12, 4, "width", "a", "Anim"),
        Ok(3)
    ));
    assert!(matches!(
        get_number_of_component_on_axis(12, 0, "width", "a", "Anim"),
        Err(SpriteBotStorageError::SpriteSizeZero(_, _, _))
    ));
    assert!(matches!(
        get_number_of_component_on_axis(10, 3, "height", "a", "Anim"),
        Err(SpriteBotStorageError::SpriteSizeNotMultiple(_, _, _))
    ));
}

#[test]
fn duplicate_red_marker_is_rejected() {
    let mut off = Image::new(8, 8);
    off.put_pixel(1, 1, rgba(255, 0, 0, 255));
    off.put_pixel(2, 2, rgba(255, 0, 0, 255));
    let sh = Image::from_raw(8, 8, shadow_cell_bytes());
    let r = FrameOffset::from_images(&off, &sh, 0, 0, "a");
    match r {
        Err(SpriteBotStorageError::ColorDuplicateInPixelDate(_, _, _, _, color)) => {
            assert_eq!(color, "red");
        }
        other => panic!("expected a duplicate-color error, got {:?}", other),
    }
}

#[test]
fn missing_blue_marker_is_rejected() {
    let mut off = Image::new(8, 8);
    off.put_pixel(1, 0, rgba(255, 0, 0, 255));
    off.put_pixel(2, 2, rgba(0, 255, 0, 255));
    let sh = Image::from_raw(8, 8, shadow_cell_bytes());
    let r = FrameOffset::from_images(&off, &sh, 0, 0, "a");
    match r {
        Err(SpriteBotStorageError::ColorNotFoundInPixelData(_, _, _, _, color)) => {
            assert_eq!(color, "blue");
        }
        other => panic!("expected a color-not-found error, got {:?}", other),
    }
}

#[test]
fn missing_black_marker_falls_back_to_center() {
    let off = Image::from_raw(8, 8, offsets_cell_bytes());
    let sh = Image::from_raw(8, 8, shadow_cell_bytes());
    let fo = FrameOffset::from_images(&off, &sh, 0, 0, "a").unwrap();
    assert_eq!(fo.center, (2, 2));
    assert_eq!(fo.head, (2, 2));
    assert_eq!(fo.hand_left, (1, 0));
    assert_eq!(fo.hand_right, (3, 1));
    assert_eq!(fo.shadow, (4, 4));
}

#[test]
fn far_marker_coordinate_is_rejected() {
    let mut off = Image::new(70000, 1);
    off.put_pixel(65536, 0, rgba(255, 0, 0, 255));
    let sh = Image::new(8, 8);
    let r = FrameOffset::from_images(&off, &sh, 0, 0, "a");
    assert!(matches!(r, Err(SpriteBotStorageError::OffsetTooLarge)));
}

#[test]
fn unreadable_sheet_is_rejected() {
    let r = get_image(&b"this is not a png".to_vec(), "a", "Anim", 8, 8);
    assert!(matches!(
        r,
        Err(SpriteBotStorageError::ErrorImageRead(_, _, _))
    ));
}

fn one_entry_animdata(name: &str, durations: Vec<usize>) -> AnimDataXML {
    AnimDataXML {
        shadow_size: 1,
        anims: AnimsXML {
            anim: vec![AnimXML {
                name: name.to_string(),
                index: 0,
                rush_frame: None,
                hit_frame: None,
                return_frame: None,
                frame_width: 8,
                frame_height: 8,
                durations: DurationsXML { duration: durations },
            }],
        },
    }
}

#[test]
fn differing_grids_across_sheets_are_rejected() {
    let animdata = one_entry_animdata("Idle", vec![1]);
    let sheets = vec![AnimationSheets {
        anim: png_of(8, 16, vec![0; 4 * 8 * 16]),
        shadow: png_of(8, 8, shadow_cell_bytes()),
        offsets: png_of(8, 8, offsets_cell_bytes()),
    }];
    let r = Sprite::new(&animdata, &sheets);
    match r {
        Err(SpriteBotStorageError::SpriteSizeNotIdentical(name)) => {
            assert_eq!(name, "Idle");
        }
        other => panic!("expected a not-identical error, got {:?}", other),
    }
}

#[test]
fn duration_count_mismatch_is_rejected() {
    let animdata = one_entry_animdata("Idle", vec![5, 6]);
    let sheets = vec![AnimationSheets {
        anim: png_of(8, 8, vec![0; 4 * 8 * 8]),
        shadow: png_of(8, 8, shadow_cell_bytes()),
        offsets: png_of(8, 8, offsets_cell_bytes()),
    }];
    let r = Sprite::new(&animdata, &sheets);
    match r {
        Err(SpriteBotStorageError::InconsistantDuration(name, frames, durations)) => {
            assert_eq!(name, "Idle");
            assert_eq!(frames, 1);
            assert_eq!(durations, 2);
        }
        other => panic!("expected a duration-mismatch error, got {:?}", other),
    }
}

#[test]
fn oversized_duration_is_rejected() {
    let animdata = one_entry_animdata("Idle", vec![300]);
    let sheets = vec![AnimationSheets {
        anim: png_of(8, 8, vec![0; 4 * 8 * 8]),
        shadow: png_of(8, 8, shadow_cell_bytes()),
        offsets: png_of(8, 8, offsets_cell_bytes()),
    }];
    let r = Sprite::new(&animdata, &sheets);
    assert!(matches!(r, Err(SpriteBotStorageError::TooLargeDuration)));
}

#[test]
fn packing_respects_format_floor() {
    let offsets = FrameOffset {
        head: (0, 0),
        hand_left: (1, 0),
        hand_right: (0, 1),
        center: (0, 0),
        shadow: (0, 0),
    };
    let animation = Animation {
        name: "Tiny".to_string(),
        index: 0,
        rush_frame: None,
        hit_frame: None,
        return_frame: None,
        images: vec![vec![frame_4x4(0, offsets, 1)]],
    };
    let (cell, anim_img, off_img, sh_img) = animation.generate_sheet().unwrap();
    assert_eq!(cell, (8, 8));
    assert_eq!(anim_img.width(), 8);
    assert_eq!(anim_img.height(), 8);
    assert_eq!(off_img.width(), 8);
    assert_eq!(sh_img.height(), 8);
}

#[test]
fn head_on_hand_is_rejected() {
    let offsets = FrameOffset {
        head: (1, 1),
        hand_left: (1, 1),
        hand_right: (3, 3),
        center: (2, 2),
        shadow: (0, 0),
    };
    let animation = Animation {
        name: "Bad".to_string(),
        index: 0,
        rush_frame: None,
        hit_frame: None,
        return_frame: None,
        images: vec![vec![frame_4x4(0, offsets, 1)]],
    };
    assert!(matches!(
        animation.generate_sheet(),
        Err(SpriteBotStorageError::InvalidHeadPosition)
    ));
    let sprite = Sprite {
        shadow_size: 0,
        animations: vec![animation],
    };
    assert!(matches!(
        sprite.encode(),
        Err(SpriteBotStorageError::InvalidHeadPosition)
    ));
}

#[test]
fn oversized_sheet_is_rejected() {
    let offsets = default_offsets();
    let wide = |_seed: u8| Frame {
        duration: 1,
        image: Image::from_raw(2_000_000_000, 0, Vec::new()),
        offsets,
    };
    let animation = Animation {
        name: "Huge".to_string(),
        index: 0,
        rush_frame: None,
        hit_frame: None,
        return_frame: None,
        images: vec![vec![wide(0), wide(1), wide(2)]],
    };
    assert!(matches!(
        animation.generate_sheet(),
        Err(SpriteBotStorageError::TooLargeGeneratedSheet)
    ));
}

#[test]
fn stamped_markers_survive_png_encoding() {
    let sprite = Sprite {
        shadow_size: 0,
        animations: vec![Animation {
            name: "Check".to_string(),
            index: 1,
            rush_frame: None,
            hit_frame: None,
            return_frame: None,
            images: vec![vec![frame_4x4(7, default_offsets(), 9)]],
        }],
    };
    let (_, outputs) = sprite.encode().unwrap();
    let grid = get_image(&outputs[0].offsets_png, "Check", "Offsets", 8, 8).unwrap();
    let cell = &grid[0][0];
    let off = default_offsets();
    assert_eq!(
        cell.get_pixel(off.head.0 as u32, off.head.1 as u32),
        rgba(0, 0, 0, 255)
    );
    let center = cell.get_pixel(off.center.0 as u32, off.center.1 as u32);
    assert_eq!((center.g, center.a), (255, 255));
    let left = cell.get_pixel(off.hand_left.0 as u32, off.hand_left.1 as u32);
    assert_eq!((left.r, left.a), (255, 255));
    let right = cell.get_pixel(off.hand_right.0 as u32, off.hand_right.1 as u32);
    assert_eq!((right.b, right.a), (255, 255));
}

#[test]
fn animation_without_lines_fails_sheet_write() {
    let sprite = Sprite {
        shadow_size: 0,
        animations: vec![Animation {
            name: "Empty".to_string(),
            index: 0,
            rush_frame: None,
            hit_frame: None,
            return_frame: None,
            images: vec![],
        }],
    };
    assert!(matches!(
        sprite.encode(),
        Err(SpriteBotStorageError::WriteImageError(_, _))
    ));
}

#[test]
fn differing_row_widths_across_sheets_are_rejected() {
    let animdata = one_entry_animdata("Wide", vec![1]);
    let sheets = vec![AnimationSheets {
        anim: png_of(16, 8, vec![0; 4 * 16 * 8]),
        shadow: png_of(8, 8, shadow_cell_bytes()),
        offsets: png_of(8, 8, offsets_cell_bytes()),
    }];
    let r = Sprite::new(&animdata, &sheets);
    assert!(matches!(
        r,
        Err(SpriteBotStorageError::SpriteSizeNotIdentical(_))
    ));
}

#[test]
fn all_empty_lines_fail_sheet_write() {
    let sprite = Sprite {
        shadow_size: 0,
        animations: vec![Animation {
            name: "Blank".to_string(),
            index: 0,
            rush_frame: None,
            hit_frame: None,
            return_frame: None,
            images: vec![vec![], vec![]],
        }],
    };
    assert!(matches!(
        sprite.encode(),
        Err(SpriteBotStorageError::WriteImageError(_, _))
    ));
}

#[test]
fn error_names_the_failing_animation() {
    let mut animdata = one_entry_animdata("First", vec![1]);
    animdata.anims.anim.push(AnimXML {
        name: "Second".to_string(),
        index: 1,
        rush_frame: None,
        hit_frame: None,
        return_frame: None,
        frame_width: 8,
        frame_height: 8,
        durations: DurationsXML { duration: vec![1] },
    });
    let good = AnimationSheets {
        anim: png_of(8, 8, vec![0; 4 * 8 * 8]),
        shadow: png_of(8, 8, shadow_cell_bytes()),
        offsets: png_of(8, 8, offsets_cell_bytes()),
    };
    let bad = AnimationSheets {
        anim: png_of(8, 16, vec![0; 4 * 8 * 16]),
        shadow: png_of(8, 8, shadow_cell_bytes()),
        offsets: png_of(8, 8, offsets_cell_bytes()),
    };
    let r = Sprite::new(&animdata, &vec![good, bad]);
    match r {
        Err(SpriteBotStorageError::SpriteSizeNotIdentical(name)) => {
            assert_eq!(name, "Second");
        }
        other => panic!("expected a not-identical error, got {:?}", other),
    }
}
