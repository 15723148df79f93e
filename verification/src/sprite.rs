use vstd::prelude::*;
use crate::animdata::{AnimDataXML, AnimXML, AnimsXML, DurationsXML};
use crate::error::SpriteBotStorageError;
use crate::grid::{cell_pix_from_raw, get_image};
use crate::image_data::Image;
use crate::offsets::{
    FrameOffset, MarkerKind, decoded_markers, lemma_decodable_same_pixels, lemma_marker_cases,
    lemma_marker_classes_exclusive, offsets_decodable,
};
use crate::pack::{
    frames_wf, has_collision, lemma_cell_floor, lines_min_h, lines_min_w, max_line_len,
    packed_anim_pix, packed_offsets_pix, packed_shadow_pix, sheet_too_large,
};
use crate::png_io::{encode_png, fits_decode_limit, png_encoding, png_pixels};

verus! {

broadcast use crate::image_data::lemma_image_dims;

/// A whole sprite: the global shadow-size byte and its animations.
#[derive(Debug)]
pub struct Sprite {
    pub shadow_size: u8,
    pub animations: Vec<Animation>,
}

/// One animation: its naming, the optional special-frame markers passed
/// through unchanged, and its frames as lines (direction groupings).
#[derive(Debug)]
pub struct Animation {
    pub name: String,
    pub index: u32,
    pub rush_frame: Option<u32>,
    pub hit_frame: Option<u32>,
    pub return_frame: Option<u32>,
    pub images: Vec<Vec<Frame>>,
}

/// One frame: its cropped image, its five anchors, and its duration in ticks.
#[derive(Debug)]
pub struct Frame {
    pub duration: u8,
    pub image: Image,
    pub offsets: FrameOffset,
}

/// The three PNG byte streams of one animation, as read from storage.
pub struct AnimationSheets {
    pub anim: Vec<u8>,
    pub shadow: Vec<u8>,
    pub offsets: Vec<u8>,
}

/// The three PNG byte streams of one animation, ready for storage.
pub struct EncodedAnimation {
    pub name: String,
    pub anim_png: Vec<u8>,
    pub offsets_png: Vec<u8>,
    pub shadow_png: Vec<u8>,
}

/// A decoded animation agrees with its metadata entry: naming and special
/// frames pass through, every line is as long as the duration list, every
/// frame carries its declared duration and a cell-sized well-formed image.
pub open spec fn anim_matches_entry(a: Animation, x: AnimXML) -> bool {
    &&& a.name@ == x.name@
    &&& a.index == x.index
    &&& a.rush_frame == x.rush_frame
    &&& a.hit_frame == x.hit_frame
    &&& a.return_frame == x.return_frame
    &&& forall|l: int|
        0 <= l < a.images@.len() ==> (#[trigger] a.images@[l])@.len()
            == x.durations.duration@.len()
    &&& forall|l: int, f: int|
        0 <= l < a.images@.len() && 0 <= f < a.images@[l]@.len() ==> {
            &&& (#[trigger] a.images@[l]@[f]).duration == x.durations.duration@[f]
            &&& a.images@[l]@[f].image.wf()
            &&& a.images@[l]@[f].image.w() == x.frame_width
            &&& a.images@[l]@[f].image.h() == x.frame_height
        }
}

/// An encoded metadata entry agrees with its animation: naming and special
/// frames pass through, the cell size is the packer's choice, and the
/// durations are those of the animation's first line.
pub open spec fn entry_matches_anim(x: AnimXML, a: Animation) -> bool {
    &&& x.name@ == a.name@
    &&& x.index == a.index
    &&& x.rush_frame == a.rush_frame
    &&& x.hit_frame == a.hit_frame
    &&& x.return_frame == a.return_frame
    &&& x.frame_width == lines_min_w(a.images@)
    &&& x.frame_height == lines_min_h(a.images@)
    &&& x.durations.duration@.len() == (if a.images@.len() > 0 {
        a.images@[0]@.len()
    } else {
        0
    })
    &&& forall|f: int|
        0 <= f < x.durations.duration@.len() ==> #[trigger] x.durations.duration@[f]
            == a.images@[0]@[f].duration
}

/// `bytes` is the PNG stream of the packed color sheet of `lines`.
pub open spec fn encodes_anim_sheet(bytes: Seq<u8>, lines: Seq<Vec<Frame>>) -> bool {
    exists|img: Image|
        {
            let cw = lines_min_w(lines);
            let ch = lines_min_h(lines);
            &&& #[trigger] img.wf()
            &&& img.w() == cw * max_line_len(lines)
            &&& img.h() == ch * lines.len()
            &&& (forall|x: int, y: int|
                0 <= x < img.w() && 0 <= y < img.h() ==> #[trigger] img.pix(x, y)
                    == packed_anim_pix(lines, cw, ch, x, y))
            &&& bytes == png_encoding(img.w() as u32, img.h() as u32, img.raw())
            &&& fits_decode_limit(img.w() as u32, img.h() as u32) ==> png_pixels(bytes)
                == Some((img.w() as u32, img.h() as u32, img.raw()))
        }
}

/// `bytes` is the PNG stream of the packed offsets sheet of `lines`.
pub open spec fn encodes_offsets_sheet(bytes: Seq<u8>, lines: Seq<Vec<Frame>>) -> bool {
    exists|img: Image|
        {
            let cw = lines_min_w(lines);
            let ch = lines_min_h(lines);
            &&& #[trigger] img.wf()
            &&& img.w() == cw * max_line_len(lines)
            &&& img.h() == ch * lines.len()
            &&& (forall|x: int, y: int|
                0 <= x < img.w() && 0 <= y < img.h() ==> #[trigger] img.pix(x, y)
                    == packed_offsets_pix(lines, cw, ch, x, y))
            &&& bytes == png_encoding(img.w() as u32, img.h() as u32, img.raw())
            &&& fits_decode_limit(img.w() as u32, img.h() as u32) ==> png_pixels(bytes)
                == Some((img.w() as u32, img.h() as u32, img.raw()))
        }
}

/// `bytes` is the PNG stream of the packed shadow sheet of `lines`.
pub open spec fn encodes_shadow_sheet(bytes: Seq<u8>, lines: Seq<Vec<Frame>>) -> bool {
    exists|img: Image|
        {
            let cw = lines_min_w(lines);
            let ch = lines_min_h(lines);
            &&& #[trigger] img.wf()
            &&& img.w() == cw * max_line_len(lines)
            &&& img.h() == ch * lines.len()
            &&& (forall|x: int, y: int|
                0 <= x < img.w() && 0 <= y < img.h() ==> #[trigger] img.pix(x, y)
                    == packed_shadow_pix(lines, cw, ch, x, y))
            &&& bytes == png_encoding(img.w() as u32, img.h() as u32, img.raw())
            &&& fits_decode_limit(img.w() as u32, img.h() as u32) ==> png_pixels(bytes)
                == Some((img.w() as u32, img.h() as u32, img.raw()))
        }
}

/// An animation that the encode path serializes without failure: its packed
/// sheets stay within the supported size, no frame's head anchor collides
/// with a hand anchor, and the sheets have no zero dimension (at least one
/// line, and at least one frame in some line), which the PNG writer rejects.
pub open spec fn encodable_animation(a: Animation) -> bool {
    &&& !sheet_too_large(a.images@)
    &&& !has_collision(a.images@)
    &&& a.images@.len() > 0
    &&& max_line_len(a.images@) > 0
}


/// One sheet's byte stream decodes as a PNG and divides evenly into cells
/// of the declared size.
pub open spec fn sheet_grid_ok(bytes: Seq<u8>, fw: u32, fh: u32) -> bool {
    &&& png_pixels(bytes) is Some
    &&& fw != 0
    &&& fh != 0
    &&& (png_pixels(bytes)->Some_0.0 as int) % (fw as int) == 0
    &&& (png_pixels(bytes)->Some_0.1 as int) % (fh as int) == 0
}

/// How many grid lines a decoded sheet holds.
pub open spec fn sheet_lines(bytes: Seq<u8>, fh: u32) -> int {
    (png_pixels(bytes)->Some_0.1 as int) / (fh as int)
}

/// How many frames per line a decoded sheet holds.
pub open spec fn sheet_cols(bytes: Seq<u8>, fw: u32) -> int {
    (png_pixels(bytes)->Some_0.0 as int) / (fw as int)
}

/// `off_img` and `sh_img` are cell-sized images carrying exactly the pixels
/// of grid slot `(l, f)` of the decoded offsets and shadow sheets.
pub open spec fn cell_views(
    off_img: Image,
    sh_img: Image,
    x: AnimXML,
    s: AnimationSheets,
    l: int,
    f: int,
) -> bool {
    let od = png_pixels(s.offsets@)->Some_0;
    let sd = png_pixels(s.shadow@)->Some_0;
    &&& off_img.wf()
    &&& off_img.w() == x.frame_width
    &&& off_img.h() == x.frame_height
    &&& cell_pix_from_raw(off_img, od.0 as int, od.2, x.frame_width as int,
        x.frame_height as int, l, f)
    &&& sh_img.wf()
    &&& sh_img.w() == x.frame_width
    &&& sh_img.h() == x.frame_height
    &&& cell_pix_from_raw(sh_img, sd.0 as int, sd.2, x.frame_width as int,
        x.frame_height as int, l, f)
}

/// The five markers of grid slot `(l, f)` decode.
pub open spec fn slot_decodable(x: AnimXML, s: AnimationSheets, l: int, f: int) -> bool {
    exists|oi: Image, si: Image|
        #[trigger] cell_views(oi, si, x, s, l, f) && offsets_decodable(oi, si)
}

/// `fo` holds exactly the anchors that grid slot `(l, f)` of the decoded
/// offsets and shadow sheets encodes.
pub open spec fn frame_anchors(fo: FrameOffset, x: AnimXML, s: AnimationSheets, l: int, f: int) -> bool {
    exists|oi: Image, si: Image|
        #[trigger] cell_views(oi, si, x, s, l, f) && decoded_markers(oi, si, fo)
}

/// One decoded frame agrees with its sheets: declared duration within a
/// byte, a cell-sized image carrying the color sheet's pixels at its slot,
/// and the anchors its markers encode.
pub open spec fn frame_ok(fr: Frame, x: AnimXML, s: AnimationSheets, l: int, f: int) -> bool {
    let ad = png_pixels(s.anim@)->Some_0;
    &&& fr.duration == x.durations.duration@[f]
    &&& x.durations.duration@[f] <= u8::MAX
    &&& fr.image.wf()
    &&& fr.image.w() == x.frame_width
    &&& fr.image.h() == x.frame_height
    &&& cell_pix_from_raw(fr.image, ad.0 as int, ad.2, x.frame_width as int,
        x.frame_height as int, l, f)
    &&& slot_decodable(x, s, l, f)
    &&& frame_anchors(fr.offsets, x, s, l, f)
}

/// One decoded line: as long as the duration list, every frame agreeing
/// with the sheets.
pub open spec fn decoded_line(line: Seq<Frame>, x: AnimXML, s: AnimationSheets, l: int) -> bool {
    &&& line.len() == x.durations.duration@.len()
    &&& forall|f: int| 0 <= f < line.len() ==> frame_ok(#[trigger] line[f], x, s, l, f)
}

/// The decode path succeeds on this entry: its three sheets decode and
/// divide evenly, the three grids agree (line counts always, frame counts
/// once a line exists), each line is as long as the duration list, every
/// declared duration fits a byte, and every frame's markers decode.
pub open spec fn entry_sheets_ok(x: AnimXML, s: AnimationSheets) -> bool {
    &&& sheet_grid_ok(s.anim@, x.frame_width, x.frame_height)
    &&& sheet_grid_ok(s.shadow@, x.frame_width, x.frame_height)
    &&& sheet_grid_ok(s.offsets@, x.frame_width, x.frame_height)
    &&& sheet_lines(s.anim@, x.frame_height) == sheet_lines(s.shadow@, x.frame_height)
    &&& sheet_lines(s.shadow@, x.frame_height) == sheet_lines(s.offsets@, x.frame_height)
    &&& sheet_lines(s.anim@, x.frame_height) > 0 ==> ({
        &&& sheet_cols(s.anim@, x.frame_width) == sheet_cols(s.shadow@, x.frame_width)
        &&& sheet_cols(s.shadow@, x.frame_width) == sheet_cols(s.offsets@, x.frame_width)
        &&& sheet_cols(s.anim@, x.frame_width) == x.durations.duration@.len()
        &&& forall|f: int|
            0 <= f < x.durations.duration@.len() ==> #[trigger] x.durations.duration@[f]
                <= u8::MAX
    })
    &&& forall|l: int, f: int|
        0 <= l < sheet_lines(s.anim@, x.frame_height) && 0 <= f < sheet_cols(
            s.anim@,
            x.frame_width,
        ) ==> #[trigger] slot_decodable(x, s, l, f)
}

/// A decoded animation carries exactly what the sheets hold: one line per
/// grid line, one frame per grid column, each frame's image being its color
/// cell and its anchors being its decoded markers.
pub open spec fn decoded_content(a: Animation, x: AnimXML, s: AnimationSheets) -> bool {
    &&& a.images@.len() == sheet_lines(s.anim@, x.frame_height)
    &&& forall|l: int|
        0 <= l < a.images@.len() ==> decoded_line((#[trigger] a.images@[l])@, x, s, l)
}

/// Which failed input each decode-path error variant testifies to.
pub open spec fn entry_error_cause(e: SpriteBotStorageError, x: AnimXML, s: AnimationSheets) -> bool {
    match e {
        SpriteBotStorageError::ErrorImageRead(_, n, _) => n@ == x.name@ && (png_pixels(s.anim@)
            is None || png_pixels(s.shadow@) is None || png_pixels(s.offsets@) is None),
        SpriteBotStorageError::SpriteSizeZero(a, _, _) => a@ == x.name@ && (x.frame_width == 0
            || x.frame_height == 0),
        SpriteBotStorageError::SpriteSizeNotMultiple(a, _, _) => a@ == x.name@ && !(
        sheet_grid_ok(s.anim@, x.frame_width, x.frame_height) && sheet_grid_ok(
            s.shadow@,
            x.frame_width,
            x.frame_height,
        ) && sheet_grid_ok(s.offsets@, x.frame_width, x.frame_height)),
        SpriteBotStorageError::SpriteSizeNotIdentical(n) => n@ == x.name@ && !({
            &&& sheet_lines(s.anim@, x.frame_height) == sheet_lines(s.shadow@, x.frame_height)
            &&& sheet_lines(s.shadow@, x.frame_height) == sheet_lines(s.offsets@, x.frame_height)
            &&& sheet_lines(s.anim@, x.frame_height) > 0 ==> ({
                &&& sheet_cols(s.anim@, x.frame_width) == sheet_cols(s.shadow@, x.frame_width)
                &&& sheet_cols(s.shadow@, x.frame_width) == sheet_cols(s.offsets@, x.frame_width)
            })
        }),
        SpriteBotStorageError::InconsistantDuration(n, fr, du) => n@ == x.name@ && du
            == x.durations.duration@.len() && fr == sheet_cols(s.anim@, x.frame_width)
            && sheet_lines(s.anim@, x.frame_height) > 0 && fr != du,
        SpriteBotStorageError::TooLargeDuration => exists|f: int|
            0 <= f < x.durations.duration@.len() && #[trigger] x.durations.duration@[f]
                > u8::MAX,
        SpriteBotStorageError::ColorNotFoundInPixelData(a, c, rw, _, _) => a@ == x.name@ && (
        c as int) < sheet_lines(s.anim@, x.frame_height) && (rw as int) < sheet_cols(
            s.anim@,
            x.frame_width,
        ) && !slot_decodable(x, s, c as int, rw as int),
        SpriteBotStorageError::ColorDuplicateInPixelDate(a, c, rw, _, _) => a@ == x.name@ && (
        c as int) < sheet_lines(s.anim@, x.frame_height) && (rw as int) < sheet_cols(
            s.anim@,
            x.frame_width,
        ) && !slot_decodable(x, s, c as int, rw as int),
        SpriteBotStorageError::OffsetTooLarge => exists|l: int, f: int|
            0 <= l < sheet_lines(s.anim@, x.frame_height) && 0 <= f < sheet_cols(
                s.anim@,
                x.frame_width,
            ) && !#[trigger] slot_decodable(x, s, l, f),
        _ => false,
    }
}

/// Builds one animation from its metadata entry and its three sheets:
/// slices each sheet with the declared cell size, checks that the three
/// grids agree and that each line matches the duration list, and decodes
/// every frame's markers. Succeeds exactly on entries whose sheets pass
/// every one of those checks.
#[verifier::loop_isolation(false)]
#[verifier::rlimit(100)]
fn assemble_animation(entry: &AnimXML, sheets: &AnimationSheets) -> (r: Result<
    Animation,
    SpriteBotStorageError,
>)
    ensures
        r is Ok <==> entry_sheets_ok(*entry, *sheets),
        r matches Ok(a) ==> anim_matches_entry(a, *entry),
        r matches Ok(a) ==> decoded_content(a, *entry, *sheets),
        r matches Err(e) ==> entry_error_cause(e, *entry, *sheets),
{
    let mut anim_grid = match get_image(
        &sheets.anim,
        entry.name.as_str(),
        "Anim",
        entry.frame_height,
        entry.frame_width,
    ) {
        Ok(g) => g,
        Err(e) => {
            proof {
                assert(!sheet_grid_ok(sheets.anim@, entry.frame_width, entry.frame_height));
            }
            return Err(e);
        },
    };
    let shadow_grid = match get_image(
        &sheets.shadow,
        entry.name.as_str(),
        "Shadow",
        entry.frame_height,
        entry.frame_width,
    ) {
        Ok(g) => g,
        Err(e) => {
            proof {
                assert(!sheet_grid_ok(sheets.shadow@, entry.frame_width, entry.frame_height));
            }
            return Err(e);
        },
    };
    let offset_grid = match get_image(
        &sheets.offsets,
        entry.name.as_str(),
        "Offsets",
        entry.frame_height,
        entry.frame_width,
    ) {
        Ok(g) => g,
        Err(e) => {
            proof {
                assert(!sheet_grid_ok(sheets.offsets@, entry.frame_width, entry.frame_height));
            }
            return Err(e);
        },
    };

    if anim_grid.len() != shadow_grid.len() || shadow_grid.len() != offset_grid.len() {
        return Err(SpriteBotStorageError::SpriteSizeNotIdentical(clone_string(&entry.name)));
    }

    let ghost ga0 = anim_grid@;
    let n_lines = shadow_grid.len();
    let mut images: Vec<Vec<Frame>> = Vec::new();
    let mut l: usize = 0;
    while l < n_lines
        invariant
            l <= n_lines,
            images@.len() == l,
            anim_grid@ =~= ga0.skip(l as int),
            forall|l2: int|
                0 <= l2 < l ==> decoded_line((#[trigger] images@[l2])@, *entry, *sheets, l2),
            l > 0 ==> ({
                &&& sheet_cols(sheets.anim@, entry.frame_width) == sheet_cols(
                    sheets.shadow@,
                    entry.frame_width,
                )
                &&& sheet_cols(sheets.shadow@, entry.frame_width) == sheet_cols(
                    sheets.offsets@,
                    entry.frame_width,
                )
                &&& sheet_cols(sheets.anim@, entry.frame_width)
                    == entry.durations.duration@.len()
            }),
        decreases n_lines - l,
    {
        let mut anim_row = anim_grid.remove(0);
        proof {
            assert(anim_grid@ =~= ga0.skip(l as int + 1));
            assert(anim_row@ == ga0[l as int]@);
        }
        let ghost row0 = anim_row@;
        let shadow_row = &shadow_grid[l];
        let offset_row = &offset_grid[l];

        if anim_row.len() != shadow_row.len() || shadow_row.len() != offset_row.len() {
            return Err(SpriteBotStorageError::SpriteSizeNotIdentical(clone_string(&entry.name)));
        }
        if anim_row.len() != entry.durations.duration.len() {
            return Err(SpriteBotStorageError::InconsistantDuration(
                clone_string(&entry.name),
                anim_row.len(),
                entry.durations.duration.len(),
            ));
        }

        let n_frames = entry.durations.duration.len();
        let mut frames: Vec<Frame> = Vec::new();
        let mut f: usize = 0;
        while f < n_frames
            invariant
                f <= n_frames,
                frames@.len() == f,
                anim_row@ =~= row0.skip(f as int),
                forall|f2: int|
                    0 <= f2 < f ==> frame_ok(#[trigger] frames@[f2], *entry, *sheets, l as int, f2),
            decreases n_frames - f,
        {
            let offsets = match FrameOffset::from_images(
                &offset_row[f],
                &shadow_row[f],
                l,
                f,
                entry.name.as_str(),
            ) {
                Ok(o) => o,
                Err(e) => {
                    proof {
                        let oc = offset_grid@[l as int]@[f as int];
                        let sc = shadow_grid@[l as int]@[f as int];
                        lemma_marker_cases(oc, MarkerKind::Head);
                        lemma_marker_cases(oc, MarkerKind::HandLeft);
                        lemma_marker_cases(oc, MarkerKind::Center);
                        lemma_marker_cases(oc, MarkerKind::HandRight);
                        lemma_marker_cases(sc, MarkerKind::Shadow);
                        lemma_marker_classes_exclusive(oc, MarkerKind::Head);
                        lemma_marker_classes_exclusive(oc, MarkerKind::HandLeft);
                        lemma_marker_classes_exclusive(oc, MarkerKind::Center);
                        lemma_marker_classes_exclusive(oc, MarkerKind::HandRight);
                        lemma_marker_classes_exclusive(sc, MarkerKind::Shadow);
                        assert(!offsets_decodable(oc, sc));
                        assert(!slot_decodable(*entry, *sheets, l as int, f as int)) by {
                            if slot_decodable(*entry, *sheets, l as int, f as int) {
                                let (oi, si) = choose|oi: Image, si: Image|
                                    #[trigger] cell_views(
                                        oi,
                                        si,
                                        *entry,
                                        *sheets,
                                        l as int,
                                        f as int,
                                    ) && offsets_decodable(oi, si);
                                assert forall|px: int, py: int|
                                    0 <= px < oc.w() && 0 <= py < oc.h()
                                        implies #[trigger] oc.pix(px, py) == oi.pix(px, py) by {
                                    assert(oc.pix(px, py).r == oi.pix(px, py).r && oc.pix(
                                        px,
                                        py,
                                    ).g == oi.pix(px, py).g && oc.pix(px, py).b == oi.pix(
                                        px,
                                        py,
                                    ).b && oc.pix(px, py).a == oi.pix(px, py).a);
                                }
                                assert forall|px: int, py: int|
                                    0 <= px < sc.w() && 0 <= py < sc.h()
                                        implies #[trigger] sc.pix(px, py) == si.pix(px, py) by {
                                    assert(sc.pix(px, py).r == si.pix(px, py).r && sc.pix(
                                        px,
                                        py,
                                    ).g == si.pix(px, py).g && sc.pix(px, py).b == si.pix(
                                        px,
                                        py,
                                    ).b && sc.pix(px, py).a == si.pix(px, py).a);
                                }
                                lemma_decodable_same_pixels(oc, sc, oi, si);
                            }
                        }
                    }
                    return Err(e);
                },
            };
            let duration_raw = entry.durations.duration[f];
            if duration_raw > u8::MAX as usize {
                return Err(SpriteBotStorageError::TooLargeDuration);
            }
            let image = anim_row.remove(0);
            proof {
                assert(anim_row@ =~= row0.skip(f as int + 1));
                assert(image == row0[f as int]);
            }
            let fr = Frame { duration: duration_raw as u8, image, offsets };
            proof {
                let oc = offset_grid@[l as int]@[f as int];
                let sc = shadow_grid@[l as int]@[f as int];
                assert(cell_views(oc, sc, *entry, *sheets, l as int, f as int));
                assert(offsets_decodable(oc, sc));
                assert(slot_decodable(*entry, *sheets, l as int, f as int));
                assert(decoded_markers(oc, sc, offsets));
                assert(frame_anchors(offsets, *entry, *sheets, l as int, f as int));
                assert(frame_ok(fr, *entry, *sheets, l as int, f as int));
            }
            frames.push(fr);
            f = f + 1;
        }
        images.push(frames);
        l = l + 1;
    }

    proof {
        if n_lines > 0 {
            assert(decoded_line(images@[0]@, *entry, *sheets, 0));
            assert forall|f2: int|
                0 <= f2 < entry.durations.duration@.len()
                    implies #[trigger] entry.durations.duration@[f2] <= u8::MAX by {
                assert(frame_ok(images@[0]@[f2], *entry, *sheets, 0, f2));
            }
        }
        assert forall|l2: int, f2: int|
            0 <= l2 < sheet_lines(sheets.anim@, entry.frame_height) && 0 <= f2 < sheet_cols(
                sheets.anim@,
                entry.frame_width,
            ) implies #[trigger] slot_decodable(*entry, *sheets, l2, f2) by {
            assert(decoded_line(images@[l2]@, *entry, *sheets, l2));
            assert(frame_ok(images@[l2]@[f2], *entry, *sheets, l2, f2));
        }
        assert(entry_sheets_ok(*entry, *sheets));
        assert forall|l2: int|
            0 <= l2 < images@.len() implies (#[trigger] images@[l2])@.len()
            == entry.durations.duration@.len() by {
            assert(decoded_line(images@[l2]@, *entry, *sheets, l2));
        }
        assert forall|l2: int, f2: int|
            0 <= l2 < images@.len() && 0 <= f2 < images@[l2]@.len() implies {
            &&& (#[trigger] images@[l2]@[f2]).duration == entry.durations.duration@[f2]
            &&& images@[l2]@[f2].image.wf()
            &&& images@[l2]@[f2].image.w() == entry.frame_width
            &&& images@[l2]@[f2].image.h() == entry.frame_height
        } by {
            assert(decoded_line(images@[l2]@, *entry, *sheets, l2));
            assert(frame_ok(images@[l2]@[f2], *entry, *sheets, l2, f2));
        }
    }
    Ok(
        Animation {
            name: clone_string(&entry.name),
            index: entry.index,
            rush_frame: entry.rush_frame,
            hit_frame: entry.hit_frame,
            return_frame: entry.return_frame,
            images,
        },
    )
}

/// A copy of a string with the same characters.
fn clone_string(s: &String) -> (r: String)
    ensures
        r@ == s@,
{
    broadcast use vstd::string::to_string_from_display_ensures_for_str;

    s.as_str().to_string()
}

impl Sprite {
    /// A sprite with the given shadow size and no animation.
    pub fn new_empty(shadow_size: u8) -> (r: Self)
        ensures
            r.shadow_size == shadow_size,
            r.animations@.len() == 0,
    {
        Sprite { shadow_size, animations: Vec::new() }
    }

    /// Builds the full in-memory sprite from a metadata document and, for
    /// each of its animation entries in order, that animation's three PNG
    /// sheets. Every validation of the decode path applies: grid slicing
    /// with the declared cell size, cross-sheet agreement, duration-list
    /// agreement, marker decoding, and the one-byte duration range.
    pub fn new(animdata: &AnimDataXML, sheets: &Vec<AnimationSheets>) -> (r: Result<
        Self,
        SpriteBotStorageError,
    >)
        requires
            sheets@.len() == animdata.anims.anim@.len(),
        ensures
            r is Ok <==> (forall|i: int|
                0 <= i < animdata.anims.anim@.len() ==> entry_sheets_ok(
                    #[trigger] animdata.anims.anim@[i],
                    sheets@[i],
                )),
            r matches Ok(s) ==> {
                &&& s.shadow_size == animdata.shadow_size
                &&& s.animations@.len() == animdata.anims.anim@.len()
                &&& forall|i: int|
                    0 <= i < s.animations@.len() ==> anim_matches_entry(
                        #[trigger] s.animations@[i],
                        animdata.anims.anim@[i],
                    )
                &&& forall|i: int|
                    0 <= i < s.animations@.len() ==> decoded_content(
                        #[trigger] s.animations@[i],
                        animdata.anims.anim@[i],
                        sheets@[i],
                    )
            },
            r matches Err(e) ==> (exists|i: int|
                0 <= i < animdata.anims.anim@.len() && #[trigger] entry_error_cause(
                    e,
                    animdata.anims.anim@[i],
                    sheets@[i],
                ) && !entry_sheets_ok(animdata.anims.anim@[i], sheets@[i]) && (forall|j: int|
                    0 <= j < i ==> entry_sheets_ok(
                        #[trigger] animdata.anims.anim@[j],
                        sheets@[j],
                    ))),
    {
        let mut animations: Vec<Animation> = Vec::new();
        let n = animdata.anims.anim.len();
        let mut i: usize = 0;
        while i < n
            invariant
                n == animdata.anims.anim@.len(),
                sheets@.len() == n,
                0 <= i <= n,
                animations@.len() == i,
                forall|j: int|
                    0 <= j < animations@.len() ==> anim_matches_entry(
                        #[trigger] animations@[j],
                        animdata.anims.anim@[j],
                    ),
                forall|j: int|
                    0 <= j < animations@.len() ==> decoded_content(
                        #[trigger] animations@[j],
                        animdata.anims.anim@[j],
                        sheets@[j],
                    ),
                forall|j: int|
                    0 <= j < i ==> entry_sheets_ok(
                        #[trigger] animdata.anims.anim@[j],
                        sheets@[j],
                    ),
            decreases n - i,
        {
            let entry = &animdata.anims.anim[i];
            let animation = match assemble_animation(entry, &sheets[i]) {
                Ok(a) => a,
                Err(e) => {
                    proof {
                        assert(entry_error_cause(
                            e,
                            animdata.anims.anim@[i as int],
                            sheets@[i as int],
                        ));
                        assert(!entry_sheets_ok(animdata.anims.anim@[i as int], sheets@[i as int]));
                    }
                    return Err(e);
                },
            };
            animations.push(animation);
            i = i + 1;
        }
        Ok(Sprite { shadow_size: animdata.shadow_size, animations })
    }

    /// Re-encodes the sprite: packs every animation into its three sheets,
    /// produces their PNG byte streams, and rebuilds the metadata document
    /// with the packer's cell size and the first line's durations.
    pub fn encode(&self) -> (r: Result<
        (AnimDataXML, Vec<EncodedAnimation>),
        SpriteBotStorageError,
    >)
        requires
            forall|i: int|
                0 <= i < self.animations@.len() ==> frames_wf(
                    (#[trigger] self.animations@[i]).images@,
                ),
        ensures
            r matches Ok(out) ==> {
                &&& out.0.shadow_size == self.shadow_size
                &&& out.0.anims.anim@.len() == self.animations@.len()
                &&& out.1@.len() == self.animations@.len()
                &&& forall|i: int|
                    0 <= i < self.animations@.len() ==> entry_matches_anim(
                        #[trigger] out.0.anims.anim@[i],
                        self.animations@[i],
                    )
                &&& forall|i: int|
                    0 <= i < self.animations@.len() ==> {
                        &&& (#[trigger] out.1@[i]).name@ == self.animations@[i].name@
                        &&& encodes_anim_sheet(out.1@[i].anim_png@, self.animations@[i].images@)
                        &&& encodes_offsets_sheet(
                            out.1@[i].offsets_png@,
                            self.animations@[i].images@,
                        )
                        &&& encodes_shadow_sheet(
                            out.1@[i].shadow_png@,
                            self.animations@[i].images@,
                        )
                    }
                &&& forall|i: int|
                    0 <= i < self.animations@.len() ==> !sheet_too_large(
                        (#[trigger] self.animations@[i]).images@,
                    ) && !has_collision(self.animations@[i].images@)
            },
            r is Ok <==> (forall|i: int|
                0 <= i < self.animations@.len() ==> encodable_animation(
                    #[trigger] self.animations@[i],
                )),
            r matches Err(SpriteBotStorageError::TooLargeGeneratedSheet) ==> (exists|i: int|
                0 <= i < self.animations@.len() && sheet_too_large(
                    (#[trigger] self.animations@[i]).images@,
                )),
            r matches Err(SpriteBotStorageError::InvalidHeadPosition) ==> (exists|i: int|
                0 <= i < self.animations@.len() && has_collision(
                    (#[trigger] self.animations@[i]).images@,
                )),
            r matches Err(SpriteBotStorageError::WriteImageError(_, nm)) ==> (exists|i: int|
                0 <= i < self.animations@.len() && nm@ == (
                #[trigger] self.animations@[i]).name@ && !sheet_too_large(
                    self.animations@[i].images@,
                ) && !has_collision(self.animations@[i].images@) && (
                self.animations@[i].images@.len() == 0 || max_line_len(
                    self.animations@[i].images@,
                ) == 0)),
    {
        let mut anim_entries: Vec<AnimXML> = Vec::new();
        let mut outputs: Vec<EncodedAnimation> = Vec::new();
        let n = self.animations.len();
        let mut i: usize = 0;
        while i < n
            invariant
                n == self.animations@.len(),
                forall|j: int|
                    0 <= j < self.animations@.len() ==> frames_wf(
                        (#[trigger] self.animations@[j]).images@,
                    ),
                0 <= i <= n,
                anim_entries@.len() == i,
                outputs@.len() == i,
                forall|j: int|
                    0 <= j < i ==> entry_matches_anim(
                        #[trigger] anim_entries@[j],
                        self.animations@[j],
                    ),
                forall|j: int|
                    0 <= j < i ==> {
                        &&& (#[trigger] outputs@[j]).name@ == self.animations@[j].name@
                        &&& encodes_anim_sheet(outputs@[j].anim_png@, self.animations@[j].images@)
                        &&& encodes_offsets_sheet(
                            outputs@[j].offsets_png@,
                            self.animations@[j].images@,
                        )
                        &&& encodes_shadow_sheet(
                            outputs@[j].shadow_png@,
                            self.animations@[j].images@,
                        )
                    },
                forall|j: int|
                    0 <= j < i ==> !sheet_too_large((#[trigger] self.animations@[j]).images@)
                        && !has_collision(self.animations@[j].images@),
                forall|j: int|
                    0 <= j < i ==> encodable_animation(#[trigger] self.animations@[j]),
            decreases n - i,
        {
            let animation = &self.animations[i];
            let (segment_size, anim_img, offset_img, shadow_img) =
                match animation.generate_sheet() {
                Ok(t) => t,
                Err(e) => {
                    proof {
                        assert(!encodable_animation(self.animations@[i as int]));
                    }
                    return Err(e);
                },
            };
            let ghost g_anim = anim_img;
            let ghost g_off = offset_img;
            let ghost g_sh = shadow_img;

            let sheet_w = anim_img.width();
            let sheet_h = anim_img.height();
            let anim_png = match encode_png(sheet_w, sheet_h, &anim_img.into_raw()) {
                Ok(b) => b,
                Err(e) => {
                    proof {
                        let a = self.animations@[i as int];
                        lemma_cell_floor(a.images@);
                        assert(a.images@.len() == 0 || max_line_len(a.images@) == 0)
                            by (nonlinear_arith)
                            requires
                                lines_min_w(a.images@) * max_line_len(a.images@) == 0
                                    || lines_min_h(a.images@) * (a.images@.len() as int) == 0,
                                lines_min_w(a.images@) >= 8,
                                lines_min_h(a.images@) >= 8,
                                max_line_len(a.images@) >= 0,
                        ;
                        assert(!encodable_animation(a));
                    }
                    return Err(SpriteBotStorageError::WriteImageError(
                        e,
                        clone_string(&animation.name),
                    ));
                },
            };
            let offsets_png = match encode_png(sheet_w, sheet_h, &offset_img.into_raw()) {
                Ok(b) => b,
                Err(e) => {
                    proof {
                        let a = self.animations@[i as int];
                        lemma_cell_floor(a.images@);
                        assert(a.images@.len() == 0 || max_line_len(a.images@) == 0)
                            by (nonlinear_arith)
                            requires
                                lines_min_w(a.images@) * max_line_len(a.images@) == 0
                                    || lines_min_h(a.images@) * (a.images@.len() as int) == 0,
                                lines_min_w(a.images@) >= 8,
                                lines_min_h(a.images@) >= 8,
                                max_line_len(a.images@) >= 0,
                        ;
                        assert(!encodable_animation(a));
                    }
                    return Err(SpriteBotStorageError::WriteImageError(
                        e,
                        clone_string(&animation.name),
                    ));
                },
            };
            let shadow_png = match encode_png(sheet_w, sheet_h, &shadow_img.into_raw()) {
                Ok(b) => b,
                Err(e) => {
                    proof {
                        let a = self.animations@[i as int];
                        lemma_cell_floor(a.images@);
                        assert(a.images@.len() == 0 || max_line_len(a.images@) == 0)
                            by (nonlinear_arith)
                            requires
                                lines_min_w(a.images@) * max_line_len(a.images@) == 0
                                    || lines_min_h(a.images@) * (a.images@.len() as int) == 0,
                                lines_min_w(a.images@) >= 8,
                                lines_min_h(a.images@) >= 8,
                                max_line_len(a.images@) >= 0,
                        ;
                        assert(!encodable_animation(a));
                    }
                    return Err(SpriteBotStorageError::WriteImageError(
                        e,
                        clone_string(&animation.name),
                    ));
                },
            };
            proof {
                assert(encodes_anim_sheet(anim_png@, animation.images@)) by {
                    assert(g_anim.wf() && anim_png@ == png_encoding(
                        g_anim.w() as u32,
                        g_anim.h() as u32,
                        g_anim.raw(),
                    ));
                }
                assert(encodes_offsets_sheet(offsets_png@, animation.images@)) by {
                    assert(g_off.wf() && offsets_png@ == png_encoding(
                        g_off.w() as u32,
                        g_off.h() as u32,
                        g_off.raw(),
                    ));
                }
                assert(encodes_shadow_sheet(shadow_png@, animation.images@)) by {
                    assert(g_sh.wf() && shadow_png@ == png_encoding(
                        g_sh.w() as u32,
                        g_sh.h() as u32,
                        g_sh.raw(),
                    ));
                }
                let a = self.animations@[i as int];
                lemma_cell_floor(a.images@);
                assert(max_line_len(a.images@) > 0 && a.images@.len() > 0) by (nonlinear_arith)
                    requires
                        lines_min_w(a.images@) * max_line_len(a.images@) != 0,
                        lines_min_h(a.images@) * (a.images@.len() as int) != 0,
                        lines_min_w(a.images@) >= 8,
                        lines_min_h(a.images@) >= 8,
                        max_line_len(a.images@) >= 0,
                ;
                assert(encodable_animation(a));
            }

            let mut duration: Vec<usize> = Vec::new();
            if animation.images.len() > 0 {
                let first_line = &animation.images[0];
                let mut f: usize = 0;
                while f < first_line.len()
                    invariant
                        first_line == &animation.images@[0],
                        animation.images@.len() > 0,
                        0 <= f <= first_line@.len(),
                        duration@.len() == f,
                        forall|k: int|
                            0 <= k < duration@.len() ==> #[trigger] duration@[k]
                                == animation.images@[0]@[k].duration,
                    decreases first_line@.len() - f,
                {
                    duration.push(first_line[f].duration as usize);
                    f = f + 1;
                }
            }

            anim_entries.push(
                AnimXML {
                    name: clone_string(&animation.name),
                    index: animation.index,
                    rush_frame: animation.rush_frame,
                    hit_frame: animation.hit_frame,
                    return_frame: animation.return_frame,
                    frame_width: segment_size.0,
                    frame_height: segment_size.1,
                    durations: DurationsXML { duration },
                },
            );
            outputs.push(
                EncodedAnimation {
                    name: clone_string(&animation.name),
                    anim_png,
                    offsets_png,
                    shadow_png,
                },
            );
            i = i + 1;
        }
        Ok((AnimDataXML { shadow_size: self.shadow_size, anims: AnimsXML { anim: anim_entries } }, outputs))
    }
}

} // verus!
