use vstd::prelude::*;
use crate::error::SpriteBotStorageError;
use crate::image_data::{Image, Rgba, transparent};

verus! {

broadcast use vstd::string::to_string_from_display_ensures_for_str,
    crate::image_data::lemma_image_dims;

/// The five anchor markers a frame carries, each encoded as a pixel color.
#[derive(Clone, Copy, Debug, PartialEq, Eq, Structural)]
pub enum MarkerKind {
    Head,
    HandLeft,
    HandRight,
    Center,
    Shadow,
}

/// The five anchor coordinates of one frame, relative to its cell origin.
#[derive(Clone, Copy, Debug, PartialEq, Eq)]
pub struct FrameOffset {
    pub head: (u16, u16),
    pub hand_left: (u16, u16),
    pub hand_right: (u16, u16),
    pub center: (u16, u16),
    pub shadow: (u16, u16),
}

/// The color predicate of each marker: head and shadow ask for one exact
/// color, the other three for channel combinations.
pub open spec fn is_marker(p: Rgba, kind: MarkerKind) -> bool {
    match kind {
        MarkerKind::Head => p == (Rgba { r: 0, g: 0, b: 0, a: 255 }),
        MarkerKind::HandLeft => p.r == 255 && p.a == 255,
        MarkerKind::Center => p.g == 255 && p.a == 255,
        MarkerKind::HandRight => p.b == 255 && p.a == 255,
        MarkerKind::Shadow => p == (Rgba { r: 255, g: 255, b: 255, a: 255 }),
    }
}

/// The pixel at `(x, y)` of `img` satisfies the marker predicate.
pub open spec fn marker_at(img: Image, kind: MarkerKind, x: int, y: int) -> bool {
    &&& 0 <= x < img.w()
    &&& 0 <= y < img.h()
    &&& is_marker(img.pix(x, y), kind)
}

/// No pixel of `img` satisfies the marker predicate.
pub open spec fn no_marker(img: Image, kind: MarkerKind) -> bool {
    forall|x: int, y: int| !#[trigger] marker_at(img, kind, x, y)
}

/// `(x, y)` is the single pixel of `img` satisfying the marker predicate.
pub open spec fn unique_marker_at(img: Image, kind: MarkerKind, x: int, y: int) -> bool {
    &&& marker_at(img, kind, x, y)
    &&& forall|x2: int, y2: int| #[trigger] marker_at(img, kind, x2, y2) ==> x2 == x && y2 == y
}

/// At least two distinct pixels of `img` satisfy the marker predicate.
pub open spec fn duplicate_marker(img: Image, kind: MarkerKind) -> bool {
    exists|x1: int, y1: int, x2: int, y2: int|
        #[trigger] marker_at(img, kind, x1, y1) && #[trigger] marker_at(img, kind, x2, y2) && !(x1
            == x2 && y1 == y2)
}

/// The single marker pixel exists and both its coordinates fit in sixteen
/// unsigned bits.
pub open spec fn unique_fits(img: Image, kind: MarkerKind) -> bool {
    exists|x: int, y: int|
        #[trigger] unique_marker_at(img, kind, x, y) && x <= u16::MAX && y <= u16::MAX
}

/// The single marker pixel exists but a coordinate overflows sixteen bits.
pub open spec fn unique_large(img: Image, kind: MarkerKind) -> bool {
    exists|x: int, y: int|
        #[trigger] unique_marker_at(img, kind, x, y) && (x > u16::MAX || y > u16::MAX)
}

/// Every image falls in one of the four marker classes.
pub proof fn lemma_marker_cases(img: Image, kind: MarkerKind)
    ensures
        no_marker(img, kind) || duplicate_marker(img, kind) || unique_fits(img, kind)
            || unique_large(img, kind),
{
    if !no_marker(img, kind) {
        let (x, y) = choose|x: int, y: int| #[trigger] marker_at(img, kind, x, y);
        if !duplicate_marker(img, kind) {
            assert forall|x2: int, y2: int| #[trigger] marker_at(img, kind, x2, y2) implies x2 == x
                && y2 == y by {
                if !(x2 == x && y2 == y) {
                    assert(marker_at(img, kind, x, y) && marker_at(img, kind, x2, y2) && !(x == x2
                        && y == y2));
                    assert(duplicate_marker(img, kind));
                }
            }
            assert(unique_marker_at(img, kind, x, y));
            if x <= u16::MAX && y <= u16::MAX {
                assert(unique_fits(img, kind));
            } else {
                assert(unique_large(img, kind));
            }
        }
    }
}

/// Whether a pixel satisfies the marker's color predicate.
fn pixel_matches(p: Rgba, kind: MarkerKind) -> (r: bool)
    ensures
        r == is_marker(p, kind),
{
    match kind {
        MarkerKind::Head => p == (Rgba { r: 0, g: 0, b: 0, a: 255 }),
        MarkerKind::HandLeft => p.r == 255 && p.a == 255,
        MarkerKind::Center => p.g == 255 && p.a == 255,
        MarkerKind::HandRight => p.b == 255 && p.a == 255,
        MarkerKind::Shadow => p == (Rgba { r: 255, g: 255, b: 255, a: 255 }),
    }
}

/// `(x, y)` comes strictly before the raster-scan position `(x0, y0)`.
pub open spec fn pos_before(x: int, y: int, x0: int, y0: int) -> bool {
    y < y0 || (y == y0 && x < x0)
}

/// What a partial raster scan up to (but excluding) `(x0, y0)` has settled:
/// either no marker pixel so far, or exactly the one recorded.
spec fn scan_state(img: Image, kind: MarkerKind, found: Option<(u32, u32)>, x0: int, y0: int) -> bool {
    match found {
        None => forall|x: int, y: int|
            0 <= x < img.w() && 0 <= y < img.h() && pos_before(x, y, x0, y0) ==> !is_marker(
                #[trigger] img.pix(x, y),
                kind,
            ),
        Some(p) => {
            &&& pos_before(p.0 as int, p.1 as int, x0, y0)
            &&& marker_at(img, kind, p.0 as int, p.1 as int)
            &&& forall|x: int, y: int|
                0 <= x < img.w() && 0 <= y < img.h() && pos_before(x, y, x0, y0) && !(x == p.0
                    && y == p.1) ==> !is_marker(#[trigger] img.pix(x, y), kind)
        },
    }
}

/// Raster-scans `image` for the single pixel satisfying the marker's color
/// predicate: none found, more than one found, and a coordinate beyond the
/// sixteen-bit range are each rejected with full location context.
pub fn find_pixel_in_image(
    image: &Image,
    kind: MarkerKind,
    anim_name: &str,
    column_nb: usize,
    row_nb: usize,
    image_kind: &str,
    color_text: &str,
) -> (r: Result<(u16, u16), SpriteBotStorageError>)
    requires
        image.wf(),
    ensures
        no_marker(*image, kind) ==> ({
            &&& r matches Err(e)
            &&& e matches SpriteBotStorageError::ColorNotFoundInPixelData(a, c, rw, k, col)
            &&& a@ == anim_name@
            &&& c == column_nb
            &&& rw == row_nb
            &&& k@ == image_kind@
            &&& col@ == color_text@
        }),
        duplicate_marker(*image, kind) ==> ({
            &&& r matches Err(e)
            &&& e matches SpriteBotStorageError::ColorDuplicateInPixelDate(a, c, rw, k, col)
            &&& a@ == anim_name@
            &&& c == column_nb
            &&& rw == row_nb
            &&& k@ == image_kind@
            &&& col@ == color_text@
        }),
        unique_large(*image, kind) ==> r matches Err(SpriteBotStorageError::OffsetTooLarge),
        unique_fits(*image, kind) ==> r is Ok,
        r matches Ok(pos) ==> unique_marker_at(*image, kind, pos.0 as int, pos.1 as int),
        ({
            &&& r matches Err(e)
            &&& e matches SpriteBotStorageError::ColorNotFoundInPixelData(a, c, rw, k, col)
        }) ==> no_marker(*image, kind),
        ({
            &&& r matches Err(e)
            &&& e matches SpriteBotStorageError::ColorDuplicateInPixelDate(a, c, rw, k, col)
        }) ==> duplicate_marker(*image, kind),
        r matches Err(SpriteBotStorageError::OffsetTooLarge) ==> unique_large(*image, kind),
{
    let w = image.width();
    let h = image.height();
    let mut found: Option<(u32, u32)> = None;
    let mut y0: u32 = 0;
    while y0 < h
        invariant
            image.wf(),
            w == image.w(),
            h == image.h(),
            0 <= y0 <= h,
            scan_state(*image, kind, found, 0, y0 as int),
        decreases h - y0,
    {
        let mut x0: u32 = 0;
        while x0 < w
            invariant
                image.wf(),
                w == image.w(),
                h == image.h(),
                0 <= y0 < h,
                0 <= x0 <= w,
                scan_state(*image, kind, found, x0 as int, y0 as int),
            decreases w - x0,
        {
            let p = image.get_pixel(x0, y0);
            if pixel_matches(p, kind) {
                match found {
                    Some(q) => {
                        proof {
                            assert(marker_at(*image, kind, q.0 as int, q.1 as int));
                            assert(marker_at(*image, kind, x0 as int, y0 as int));
                            assert(duplicate_marker(*image, kind));
                            lemma_no_unique_when_duplicate(*image, kind);
                        }
                        return Err(SpriteBotStorageError::ColorDuplicateInPixelDate(
                            anim_name.to_string(),
                            column_nb,
                            row_nb,
                            image_kind.to_string(),
                            color_text.to_string(),
                        ));
                    },
                    None => {
                        found = Some((x0, y0));
                    },
                }
            }
            x0 = x0 + 1;
        }
        y0 = y0 + 1;
    }
    match found {
        None => {
            proof {
                assert forall|x: int, y: int| !#[trigger] marker_at(*image, kind, x, y) by {
                    if 0 <= x < image.w() && 0 <= y < image.h() {
                        assert(pos_before(x, y, 0, image.h()));
                    }
                }
                lemma_marker_cases(*image, kind);
            }
            Err(SpriteBotStorageError::ColorNotFoundInPixelData(
                anim_name.to_string(),
                column_nb,
                row_nb,
                image_kind.to_string(),
                color_text.to_string(),
            ))
        },
        Some(q) => {
            proof {
                assert forall|x2: int, y2: int| #[trigger] marker_at(*image, kind, x2, y2)
                    implies x2 == q.0 && y2 == q.1 by {
                    if !(x2 == q.0 && y2 == q.1) {
                        assert(pos_before(x2, y2, 0, image.h()));
                        assert(!is_marker(image.pix(x2, y2), kind));
                    }
                }
                assert(unique_marker_at(*image, kind, q.0 as int, q.1 as int));
                lemma_no_duplicate_when_unique(*image, kind, q.0 as int, q.1 as int);
            }
            if q.0 > 0xFFFF || q.1 > 0xFFFF {
                proof {
                    assert(unique_large(*image, kind));
                }
                Err(SpriteBotStorageError::OffsetTooLarge)
            } else {
                proof {
                    assert(unique_fits(*image, kind));
                }
                Ok((q.0 as u16, q.1 as u16))
            }
        },
    }
}

/// `r` is the color-not-found failure carrying exactly this location context.
pub open spec fn fails_not_found(
    r: Result<FrameOffset, SpriteBotStorageError>,
    a: Seq<char>,
    c: usize,
    rw: usize,
    k: Seq<char>,
    col: Seq<char>,
) -> bool {
    &&& r matches Err(e)
    &&& e matches SpriteBotStorageError::ColorNotFoundInPixelData(a2, c2, rw2, k2, col2)
    &&& a2@ == a
    &&& c2 == c
    &&& rw2 == rw
    &&& k2@ == k
    &&& col2@ == col
}

/// `r` is the duplicated-color failure carrying exactly this location context.
pub open spec fn fails_duplicate(
    r: Result<FrameOffset, SpriteBotStorageError>,
    a: Seq<char>,
    c: usize,
    rw: usize,
    k: Seq<char>,
    col: Seq<char>,
) -> bool {
    &&& r matches Err(e)
    &&& e matches SpriteBotStorageError::ColorDuplicateInPixelDate(a2, c2, rw2, k2, col2)
    &&& a2@ == a
    &&& c2 == c
    &&& rw2 == rw
    &&& k2@ == k
    &&& col2@ == col
}

/// The four marker classes are mutually exclusive.
pub proof fn lemma_marker_classes_exclusive(img: Image, kind: MarkerKind)
    ensures
        no_marker(img, kind) ==> !duplicate_marker(img, kind) && !unique_fits(img, kind)
            && !unique_large(img, kind),
        duplicate_marker(img, kind) ==> !unique_fits(img, kind) && !unique_large(img, kind),
        unique_fits(img, kind) ==> !unique_large(img, kind),
{
    if no_marker(img, kind) {
        if duplicate_marker(img, kind) {
            let (x1, y1, x2, y2) = choose|x1: int, y1: int, x2: int, y2: int|
                #[trigger] marker_at(img, kind, x1, y1) && #[trigger] marker_at(img, kind, x2, y2)
                    && !(x1 == x2 && y1 == y2);
            assert(false);
        }
        if unique_fits(img, kind) {
            let (x, y) = choose|x: int, y: int|
                #[trigger] unique_marker_at(img, kind, x, y) && x <= u16::MAX && y <= u16::MAX;
            assert(false);
        }
        if unique_large(img, kind) {
            let (x, y) = choose|x: int, y: int|
                #[trigger] unique_marker_at(img, kind, x, y) && (x > u16::MAX || y > u16::MAX);
            assert(false);
        }
    }
    if duplicate_marker(img, kind) {
        lemma_no_unique_when_duplicate(img, kind);
    }
    if unique_fits(img, kind) && unique_large(img, kind) {
        let (x1, y1) = choose|x: int, y: int|
            #[trigger] unique_marker_at(img, kind, x, y) && x <= u16::MAX && y <= u16::MAX;
        let (x2, y2) = choose|x: int, y: int|
            #[trigger] unique_marker_at(img, kind, x, y) && (x > u16::MAX || y > u16::MAX);
        assert(marker_at(img, kind, x1, y1));
        assert(marker_at(img, kind, x2, y2));
        assert(x1 == x2 && y1 == y2);
        assert(false);
    }
}

/// What a successful marker decode pins down: each returned coordinate is
/// the unique pixel of its marker, and the head either stands on its own
/// black pixel or, with no black pixel anywhere, equals the center.
pub open spec fn decoded_markers(off: Image, sh: Image, fo: FrameOffset) -> bool {
    &&& unique_marker_at(off, MarkerKind::HandLeft, fo.hand_left.0 as int, fo.hand_left.1 as int)
    &&& unique_marker_at(off, MarkerKind::Center, fo.center.0 as int, fo.center.1 as int)
    &&& unique_marker_at(off, MarkerKind::HandRight, fo.hand_right.0 as int, fo.hand_right.1 as int)
    &&& unique_marker_at(sh, MarkerKind::Shadow, fo.shadow.0 as int, fo.shadow.1 as int)
    &&& no_marker(off, MarkerKind::Head) ==> fo.head == fo.center
    &&& !no_marker(off, MarkerKind::Head) ==> unique_marker_at(
        off,
        MarkerKind::Head,
        fo.head.0 as int,
        fo.head.1 as int,
    )
}

/// The marker classes carry over to an image with the same size and pixels.
proof fn lemma_classes_transfer(a: Image, b: Image, kind: MarkerKind)
    requires
        a.w() == b.w(),
        a.h() == b.h(),
        forall|x: int, y: int|
            0 <= x < a.w() && 0 <= y < a.h() ==> #[trigger] a.pix(x, y) == b.pix(x, y),
    ensures
        no_marker(a, kind) ==> no_marker(b, kind),
        duplicate_marker(a, kind) ==> duplicate_marker(b, kind),
        unique_fits(a, kind) ==> unique_fits(b, kind),
        unique_large(a, kind) ==> unique_large(b, kind),
{
    if no_marker(a, kind) {
        assert forall|x: int, y: int| !#[trigger] marker_at(b, kind, x, y) by {
            if 0 <= x < b.w() && 0 <= y < b.h() {
                assert(a.pix(x, y) == b.pix(x, y));
                assert(!marker_at(a, kind, x, y));
            }
        }
    }
    if duplicate_marker(a, kind) {
        let (x1, y1, x2, y2) = choose|x1: int, y1: int, x2: int, y2: int|
            #[trigger] marker_at(a, kind, x1, y1) && #[trigger] marker_at(a, kind, x2, y2) && !(x1
                == x2 && y1 == y2);
        assert(a.pix(x1, y1) == b.pix(x1, y1));
        assert(a.pix(x2, y2) == b.pix(x2, y2));
        assert(marker_at(b, kind, x1, y1) && marker_at(b, kind, x2, y2) && !(x1 == x2 && y1
            == y2));
    }
    if unique_fits(a, kind) || unique_large(a, kind) {
        let (x, y) = choose|x: int, y: int| #[trigger] unique_marker_at(a, kind, x, y);
        assert(a.pix(x, y) == b.pix(x, y));
        assert(marker_at(b, kind, x, y));
        assert forall|x2: int, y2: int| #[trigger] marker_at(b, kind, x2, y2) implies x2 == x && y2
            == y by {
            assert(a.pix(x2, y2) == b.pix(x2, y2));
            assert(marker_at(a, kind, x2, y2));
        }
        assert(unique_marker_at(b, kind, x, y));
        if unique_fits(a, kind) {
            let (xf, yf) = choose|xf: int, yf: int|
                #[trigger] unique_marker_at(a, kind, xf, yf) && xf <= u16::MAX && yf <= u16::MAX;
            assert(marker_at(a, kind, xf, yf));
            assert(xf == x && yf == y);
            assert(unique_marker_at(b, kind, x, y) && x <= u16::MAX && y <= u16::MAX);
        }
        if unique_large(a, kind) {
            let (xl, yl) = choose|xl: int, yl: int|
                #[trigger] unique_marker_at(a, kind, xl, yl) && (xl > u16::MAX || yl > u16::MAX);
            assert(marker_at(a, kind, xl, yl));
            assert(xl == x && yl == y);
            assert(unique_marker_at(b, kind, x, y) && (x > u16::MAX || y > u16::MAX));
        }
    }
}

/// Whether a frame's markers decode depends only on the sizes and pixels of
/// its two sub-images.
pub proof fn lemma_decodable_same_pixels(off1: Image, sh1: Image, off2: Image, sh2: Image)
    requires
        off1.w() == off2.w(),
        off1.h() == off2.h(),
        sh1.w() == sh2.w(),
        sh1.h() == sh2.h(),
        forall|x: int, y: int|
            0 <= x < off1.w() && 0 <= y < off1.h() ==> #[trigger] off1.pix(x, y) == off2.pix(x, y),
        forall|x: int, y: int|
            0 <= x < sh1.w() && 0 <= y < sh1.h() ==> #[trigger] sh1.pix(x, y) == sh2.pix(x, y),
    ensures
        offsets_decodable(off1, sh1) == offsets_decodable(off2, sh2),
{
    assert forall|x: int, y: int|
        0 <= x < off2.w() && 0 <= y < off2.h() implies #[trigger] off2.pix(x, y) == off1.pix(
        x,
        y,
    ) by {
        assert(off1.pix(x, y) == off2.pix(x, y));
    }
    assert forall|x: int, y: int|
        0 <= x < sh2.w() && 0 <= y < sh2.h() implies #[trigger] sh2.pix(x, y) == sh1.pix(x, y) by {
        assert(sh1.pix(x, y) == sh2.pix(x, y));
    }
    lemma_classes_transfer(off1, off2, MarkerKind::Head);
    lemma_classes_transfer(off2, off1, MarkerKind::Head);
    lemma_classes_transfer(off1, off2, MarkerKind::HandLeft);
    lemma_classes_transfer(off2, off1, MarkerKind::HandLeft);
    lemma_classes_transfer(off1, off2, MarkerKind::Center);
    lemma_classes_transfer(off2, off1, MarkerKind::Center);
    lemma_classes_transfer(off1, off2, MarkerKind::HandRight);
    lemma_classes_transfer(off2, off1, MarkerKind::HandRight);
    lemma_classes_transfer(sh1, sh2, MarkerKind::Shadow);
    lemma_classes_transfer(sh2, sh1, MarkerKind::Shadow);
}

/// The head marker lets decoding proceed: either absent (head falls back to
/// the center coordinate) or present exactly once within coordinate range.
pub open spec fn head_passes(off: Image) -> bool {
    no_marker(off, MarkerKind::Head) || unique_fits(off, MarkerKind::Head)
}

/// All five markers decode: the head passes, and red, green, blue and the
/// shadow's white each stand on exactly one in-range pixel.
pub open spec fn offsets_decodable(off: Image, sh: Image) -> bool {
    &&& head_passes(off)
    &&& unique_fits(off, MarkerKind::HandLeft)
    &&& unique_fits(off, MarkerKind::Center)
    &&& unique_fits(off, MarkerKind::HandRight)
    &&& unique_fits(sh, MarkerKind::Shadow)
}

impl FrameOffset {
    /// Decodes the five anchors of one frame from its offsets sub-image and
    /// its shadow sub-image, locating each marker's unique pixel. The black
    /// head marker may be absent, in which case the head takes the center
    /// coordinate; every other marker is required. Markers are searched in
    /// the order black, red, green, blue, white, and the first failure wins.
    pub fn from_images(
        offset_image: &Image,
        shadow_image: &Image,
        column_nb: usize,
        row_nb: usize,
        animation_name: &str,
    ) -> (r: Result<FrameOffset, SpriteBotStorageError>)
        requires
            offset_image.wf(),
            shadow_image.wf(),
        ensures
            r is Ok <==> offsets_decodable(*offset_image, *shadow_image),
            r matches Ok(fo) ==> decoded_markers(*offset_image, *shadow_image, fo),
            duplicate_marker(*offset_image, MarkerKind::Head) ==> fails_duplicate(
                r,
                animation_name@,
                column_nb,
                row_nb,
                "offsets"@,
                "black"@,
            ),
            !duplicate_marker(*offset_image, MarkerKind::Head) && unique_large(
                *offset_image,
                MarkerKind::Head,
            ) ==> r matches Err(SpriteBotStorageError::OffsetTooLarge),
            head_passes(*offset_image) && no_marker(*offset_image, MarkerKind::HandLeft)
                ==> fails_not_found(r, animation_name@, column_nb, row_nb, "offsets"@, "red"@),
            head_passes(*offset_image) && duplicate_marker(*offset_image, MarkerKind::HandLeft)
                ==> fails_duplicate(r, animation_name@, column_nb, row_nb, "offsets"@, "red"@),
            head_passes(*offset_image) && unique_large(*offset_image, MarkerKind::HandLeft)
                ==> r matches Err(SpriteBotStorageError::OffsetTooLarge),
            head_passes(*offset_image) && unique_fits(*offset_image, MarkerKind::HandLeft)
                && no_marker(*offset_image, MarkerKind::Center) ==> fails_not_found(
                r,
                animation_name@,
                column_nb,
                row_nb,
                "offsets"@,
                "green"@,
            ),
            head_passes(*offset_image) && unique_fits(*offset_image, MarkerKind::HandLeft)
                && duplicate_marker(*offset_image, MarkerKind::Center) ==> fails_duplicate(
                r,
                animation_name@,
                column_nb,
                row_nb,
                "offsets"@,
                "green"@,
            ),
            head_passes(*offset_image) && unique_fits(*offset_image, MarkerKind::HandLeft)
                && unique_large(*offset_image, MarkerKind::Center) ==> r matches Err(
                SpriteBotStorageError::OffsetTooLarge,
            ),
            head_passes(*offset_image) && unique_fits(*offset_image, MarkerKind::HandLeft)
                && unique_fits(*offset_image, MarkerKind::Center) && no_marker(
                *offset_image,
                MarkerKind::HandRight,
            ) ==> fails_not_found(r, animation_name@, column_nb, row_nb, "offsets"@, "blue"@),
            head_passes(*offset_image) && unique_fits(*offset_image, MarkerKind::HandLeft)
                && unique_fits(*offset_image, MarkerKind::Center) && duplicate_marker(
                *offset_image,
                MarkerKind::HandRight,
            ) ==> fails_duplicate(r, animation_name@, column_nb, row_nb, "offsets"@, "blue"@),
            head_passes(*offset_image) && unique_fits(*offset_image, MarkerKind::HandLeft)
                && unique_fits(*offset_image, MarkerKind::Center) && unique_large(
                *offset_image,
                MarkerKind::HandRight,
            ) ==> r matches Err(SpriteBotStorageError::OffsetTooLarge),
            head_passes(*offset_image) && unique_fits(*offset_image, MarkerKind::HandLeft)
                && unique_fits(*offset_image, MarkerKind::Center) && unique_fits(
                *offset_image,
                MarkerKind::HandRight,
            ) && no_marker(*shadow_image, MarkerKind::Shadow) ==> fails_not_found(
                r,
                animation_name@,
                column_nb,
                row_nb,
                "shadows"@,
                "white"@,
            ),
            head_passes(*offset_image) && unique_fits(*offset_image, MarkerKind::HandLeft)
                && unique_fits(*offset_image, MarkerKind::Center) && unique_fits(
                *offset_image,
                MarkerKind::HandRight,
            ) && duplicate_marker(*shadow_image, MarkerKind::Shadow) ==> fails_duplicate(
                r,
                animation_name@,
                column_nb,
                row_nb,
                "shadows"@,
                "white"@,
            ),
            head_passes(*offset_image) && unique_fits(*offset_image, MarkerKind::HandLeft)
                && unique_fits(*offset_image, MarkerKind::Center) && unique_fits(
                *offset_image,
                MarkerKind::HandRight,
            ) && unique_large(*shadow_image, MarkerKind::Shadow) ==> r matches Err(
                SpriteBotStorageError::OffsetTooLarge,
            ),
    {
        let black_offset = match find_pixel_in_image(
            offset_image,
            MarkerKind::Head,
            animation_name,
            column_nb,
            row_nb,
            "offsets",
            "black",
        ) {
            Ok(p) => Some(p),
            Err(e) => {
                match e {
                    SpriteBotStorageError::ColorNotFoundInPixelData(_, _, _, _, _) => None,
                    _ => {
                        proof {
                            lemma_marker_cases(*offset_image, MarkerKind::Head);
                            lemma_marker_classes_exclusive(*offset_image, MarkerKind::Head);
                            assert(duplicate_marker(*offset_image, MarkerKind::Head)
                                || unique_large(*offset_image, MarkerKind::Head));
                            assert(!head_passes(*offset_image));
                        }
                        return Err(e);
                    },
                }
            },
        };
        proof {
            if black_offset is Some {
                let p = black_offset->Some_0;
                assert(unique_marker_at(*offset_image, MarkerKind::Head, p.0 as int, p.1 as int));
                assert(unique_fits(*offset_image, MarkerKind::Head));
            }
            assert(head_passes(*offset_image));
        }
        let red_offset = match find_pixel_in_image(
            offset_image,
            MarkerKind::HandLeft,
            animation_name,
            column_nb,
            row_nb,
            "offsets",
            "red",
        ) {
            Ok(p) => p,
            Err(e) => {
                proof {
                    lemma_marker_cases(*offset_image, MarkerKind::HandLeft);
                    lemma_marker_classes_exclusive(*offset_image, MarkerKind::HandLeft);
                    lemma_marker_classes_exclusive(*offset_image, MarkerKind::Head);
                }
                return Err(e);
            },
        };
        let green_offset = match find_pixel_in_image(
            offset_image,
            MarkerKind::Center,
            animation_name,
            column_nb,
            row_nb,
            "offsets",
            "green",
        ) {
            Ok(p) => p,
            Err(e) => {
                proof {
                    lemma_marker_cases(*offset_image, MarkerKind::Center);
                    lemma_marker_classes_exclusive(*offset_image, MarkerKind::Center);
                    lemma_marker_classes_exclusive(*offset_image, MarkerKind::Head);
                    lemma_marker_classes_exclusive(*offset_image, MarkerKind::HandLeft);
                }
                return Err(e);
            },
        };
        let blue_offset = match find_pixel_in_image(
            offset_image,
            MarkerKind::HandRight,
            animation_name,
            column_nb,
            row_nb,
            "offsets",
            "blue",
        ) {
            Ok(p) => p,
            Err(e) => {
                proof {
                    lemma_marker_cases(*offset_image, MarkerKind::HandRight);
                    lemma_marker_classes_exclusive(*offset_image, MarkerKind::HandRight);
                    lemma_marker_classes_exclusive(*offset_image, MarkerKind::Head);
                    lemma_marker_classes_exclusive(*offset_image, MarkerKind::HandLeft);
                    lemma_marker_classes_exclusive(*offset_image, MarkerKind::Center);
                }
                return Err(e);
            },
        };
        let shadow_center = match find_pixel_in_image(
            shadow_image,
            MarkerKind::Shadow,
            animation_name,
            column_nb,
            row_nb,
            "shadows",
            "white",
        ) {
            Ok(p) => p,
            Err(e) => {
                proof {
                    lemma_marker_cases(*shadow_image, MarkerKind::Shadow);
                    lemma_marker_classes_exclusive(*shadow_image, MarkerKind::Shadow);
                    lemma_marker_classes_exclusive(*offset_image, MarkerKind::Head);
                    lemma_marker_classes_exclusive(*offset_image, MarkerKind::HandLeft);
                    lemma_marker_classes_exclusive(*offset_image, MarkerKind::Center);
                    lemma_marker_classes_exclusive(*offset_image, MarkerKind::HandRight);
                }
                return Err(e);
            },
        };
        proof {
            assert(unique_marker_at(*offset_image, MarkerKind::HandLeft, red_offset.0 as int,
                red_offset.1 as int));
            assert(unique_fits(*offset_image, MarkerKind::HandLeft));
            assert(unique_marker_at(*offset_image, MarkerKind::Center, green_offset.0 as int,
                green_offset.1 as int));
            assert(unique_fits(*offset_image, MarkerKind::Center));
            assert(unique_marker_at(*offset_image, MarkerKind::HandRight, blue_offset.0 as int,
                blue_offset.1 as int));
            assert(unique_fits(*offset_image, MarkerKind::HandRight));
            assert(unique_marker_at(*shadow_image, MarkerKind::Shadow, shadow_center.0 as int,
                shadow_center.1 as int));
            assert(unique_fits(*shadow_image, MarkerKind::Shadow));
            lemma_marker_classes_exclusive(*offset_image, MarkerKind::Head);
            lemma_marker_classes_exclusive(*offset_image, MarkerKind::HandLeft);
            lemma_marker_classes_exclusive(*offset_image, MarkerKind::Center);
            lemma_marker_classes_exclusive(*offset_image, MarkerKind::HandRight);
            lemma_marker_classes_exclusive(*shadow_image, MarkerKind::Shadow);
        }
        Ok(
            FrameOffset {
                head: match black_offset {
                    Some(b) => b,
                    None => green_offset,
                },
                center: green_offset,
                hand_left: red_offset,
                hand_right: blue_offset,
                shadow: shadow_center,
            },
        )
    }
}

/// The cell-local pixel an offsets canvas holds after stamping the four
/// colored markers, in write order, onto a transparent cell: black overwrites
/// the head pixel, then the center, hand-right and hand-left writes each
/// force their channels and leave the other channels as previously written.
pub open spec fn stamped_offsets_pix(fo: FrameOffset, x: int, y: int) -> Rgba {
    let p1 = if x == fo.head.0 && y == fo.head.1 {
        Rgba { r: 0, g: 0, b: 0, a: 255 }
    } else {
        transparent()
    };
    let p2 = if x == fo.center.0 && y == fo.center.1 {
        Rgba { r: p1.r, g: 255, b: p1.b, a: 255 }
    } else {
        p1
    };
    let p3 = if x == fo.hand_right.0 && y == fo.hand_right.1 {
        Rgba { r: p2.r, g: p2.g, b: 255, a: 255 }
    } else {
        p2
    };
    if x == fo.hand_left.0 && y == fo.hand_left.1 {
        Rgba { r: 255, g: p3.g, b: p3.b, a: 255 }
    } else {
        p3
    }
}

/// The cell-local pixel a shadow canvas holds after stamping: one opaque
/// white pixel at the shadow anchor, the rest transparent.
pub open spec fn stamped_shadow_pix(fo: FrameOffset, x: int, y: int) -> Rgba {
    if x == fo.shadow.0 && y == fo.shadow.1 {
        Rgba { r: 255, g: 255, b: 255, a: 255 }
    } else {
        transparent()
    }
}

/// All five anchor coordinates lie inside a `cw`-by-`ch` cell.
pub open spec fn offsets_within(fo: FrameOffset, cw: int, ch: int) -> bool {
    &&& fo.head.0 < cw && fo.head.1 < ch
    &&& fo.hand_left.0 < cw && fo.hand_left.1 < ch
    &&& fo.hand_right.0 < cw && fo.hand_right.1 < ch
    &&& fo.center.0 < cw && fo.center.1 < ch
    &&& fo.shadow.0 < cw && fo.shadow.1 < ch
}

/// Stamps one frame's five markers into the two canvases, at the cell whose
/// top-left corner is `(start_x, start_y)`. The cell must still be fully
/// transparent in both canvases; every pixel outside the cell is left as it
/// was.
pub fn stamp_offsets(
    offsets_canvas: &mut Image,
    shadow_canvas: &mut Image,
    start_x: u32,
    start_y: u32,
    cell_w: u32,
    cell_h: u32,
    fo: &FrameOffset,
)
    requires
        old(offsets_canvas).wf(),
        old(shadow_canvas).wf(),
        start_x + cell_w <= old(offsets_canvas).w(),
        start_y + cell_h <= old(offsets_canvas).h(),
        start_x + cell_w <= old(shadow_canvas).w(),
        start_y + cell_h <= old(shadow_canvas).h(),
        offsets_within(*fo, cell_w as int, cell_h as int),
        forall|x: int, y: int|
            0 <= x < cell_w && 0 <= y < cell_h ==> #[trigger] old(offsets_canvas).pix(
                start_x + x,
                start_y + y,
            ) == transparent(),
        forall|x: int, y: int|
            0 <= x < cell_w && 0 <= y < cell_h ==> #[trigger] old(shadow_canvas).pix(
                start_x + x,
                start_y + y,
            ) == transparent(),
    ensures
        final(offsets_canvas).wf(),
        final(offsets_canvas).w() == old(offsets_canvas).w(),
        final(offsets_canvas).h() == old(offsets_canvas).h(),
        final(shadow_canvas).wf(),
        final(shadow_canvas).w() == old(shadow_canvas).w(),
        final(shadow_canvas).h() == old(shadow_canvas).h(),
        forall|x: int, y: int|
            0 <= x < cell_w && 0 <= y < cell_h ==> #[trigger] final(offsets_canvas).pix(
                start_x + x,
                start_y + y,
            ) == stamped_offsets_pix(*fo, x, y),
        forall|x: int, y: int|
            0 <= x < old(offsets_canvas).w() && 0 <= y < old(offsets_canvas).h() && !(start_x <= x
                < start_x + cell_w && start_y <= y < start_y + cell_h)
                ==> #[trigger] final(offsets_canvas).pix(x, y) == old(offsets_canvas).pix(x, y),
        forall|x: int, y: int|
            0 <= x < cell_w && 0 <= y < cell_h ==> #[trigger] final(shadow_canvas).pix(
                start_x + x,
                start_y + y,
            ) == stamped_shadow_pix(*fo, x, y),
        forall|x: int, y: int|
            0 <= x < old(shadow_canvas).w() && 0 <= y < old(shadow_canvas).h() && !(start_x <= x
                < start_x + cell_w && start_y <= y < start_y + cell_h)
                ==> #[trigger] final(shadow_canvas).pix(x, y) == old(shadow_canvas).pix(x, y),
{
    shadow_canvas.put_pixel(
        start_x + fo.shadow.0 as u32,
        start_y + fo.shadow.1 as u32,
        Rgba { r: 255, g: 255, b: 255, a: 255 },
    );
    offsets_canvas.put_pixel(
        start_x + fo.head.0 as u32,
        start_y + fo.head.1 as u32,
        Rgba { r: 0, g: 0, b: 0, a: 255 },
    );
    let cx = start_x + fo.center.0 as u32;
    let cy = start_y + fo.center.1 as u32;
    let cp = offsets_canvas.get_pixel(cx, cy);
    offsets_canvas.put_pixel(cx, cy, Rgba { r: cp.r, g: 255, b: cp.b, a: 255 });
    let rx = start_x + fo.hand_right.0 as u32;
    let ry = start_y + fo.hand_right.1 as u32;
    let rp = offsets_canvas.get_pixel(rx, ry);
    offsets_canvas.put_pixel(rx, ry, Rgba { r: rp.r, g: rp.g, b: 255, a: 255 });
    let lx = start_x + fo.hand_left.0 as u32;
    let ly = start_y + fo.hand_left.1 as u32;
    let lp = offsets_canvas.get_pixel(lx, ly);
    offsets_canvas.put_pixel(lx, ly, Rgba { r: 255, g: lp.g, b: lp.b, a: 255 });
}

/// A stamped cell decodes: when the head anchor collides with neither hand
/// anchor, each of the four colored markers and the shadow's white stand on
/// exactly one pixel of the stamped cell, the black head marker standing on
/// the head anchor unless it coincides with the center (then no black pixel
/// is left and decoding falls back to the center).
pub proof fn lemma_stamped_cell_decodes(off: Image, sh: Image, fo: FrameOffset, cw: int, ch: int)
    requires
        off.wf(),
        off.w() == cw,
        off.h() == ch,
        sh.wf(),
        sh.w() == cw,
        sh.h() == ch,
        offsets_within(fo, cw, ch),
        fo.head != fo.hand_left,
        fo.head != fo.hand_right,
        forall|x: int, y: int|
            0 <= x < cw && 0 <= y < ch ==> #[trigger] off.pix(x, y) == stamped_offsets_pix(
                fo,
                x,
                y,
            ),
        forall|x: int, y: int|
            0 <= x < cw && 0 <= y < ch ==> #[trigger] sh.pix(x, y) == stamped_shadow_pix(fo, x, y),
    ensures
        unique_marker_at(off, MarkerKind::HandLeft, fo.hand_left.0 as int, fo.hand_left.1 as int),
        unique_marker_at(off, MarkerKind::Center, fo.center.0 as int, fo.center.1 as int),
        unique_marker_at(
            off,
            MarkerKind::HandRight,
            fo.hand_right.0 as int,
            fo.hand_right.1 as int,
        ),
        unique_marker_at(sh, MarkerKind::Shadow, fo.shadow.0 as int, fo.shadow.1 as int),
        fo.head == fo.center ==> no_marker(off, MarkerKind::Head),
        fo.head != fo.center ==> unique_marker_at(off, MarkerKind::Head, fo.head.0 as int,
            fo.head.1 as int),
        offsets_decodable(off, sh),
{
    assert(off.pix(fo.hand_left.0 as int, fo.hand_left.1 as int) == stamped_offsets_pix(
        fo,
        fo.hand_left.0 as int,
        fo.hand_left.1 as int,
    ));
    assert(off.pix(fo.center.0 as int, fo.center.1 as int) == stamped_offsets_pix(
        fo,
        fo.center.0 as int,
        fo.center.1 as int,
    ));
    assert(off.pix(fo.hand_right.0 as int, fo.hand_right.1 as int) == stamped_offsets_pix(
        fo,
        fo.hand_right.0 as int,
        fo.hand_right.1 as int,
    ));
    assert(sh.pix(fo.shadow.0 as int, fo.shadow.1 as int) == stamped_shadow_pix(
        fo,
        fo.shadow.0 as int,
        fo.shadow.1 as int,
    ));
    assert forall|x2: int, y2: int| #[trigger] marker_at(off, MarkerKind::HandLeft, x2, y2)
        implies x2 == fo.hand_left.0 && y2 == fo.hand_left.1 by {
        assert(off.pix(x2, y2) == stamped_offsets_pix(fo, x2, y2));
    }
    assert forall|x2: int, y2: int| #[trigger] marker_at(off, MarkerKind::Center, x2, y2)
        implies x2 == fo.center.0 && y2 == fo.center.1 by {
        assert(off.pix(x2, y2) == stamped_offsets_pix(fo, x2, y2));
    }
    assert forall|x2: int, y2: int| #[trigger] marker_at(off, MarkerKind::HandRight, x2, y2)
        implies x2 == fo.hand_right.0 && y2 == fo.hand_right.1 by {
        assert(off.pix(x2, y2) == stamped_offsets_pix(fo, x2, y2));
    }
    assert forall|x2: int, y2: int| #[trigger] marker_at(sh, MarkerKind::Shadow, x2, y2)
        implies x2 == fo.shadow.0 && y2 == fo.shadow.1 by {
        assert(sh.pix(x2, y2) == stamped_shadow_pix(fo, x2, y2));
    }
    if fo.head == fo.center {
        assert forall|x2: int, y2: int| !#[trigger] marker_at(off, MarkerKind::Head, x2, y2) by {
            if 0 <= x2 < cw && 0 <= y2 < ch {
                assert(off.pix(x2, y2) == stamped_offsets_pix(fo, x2, y2));
            }
        }
    } else {
        assert(off.pix(fo.head.0 as int, fo.head.1 as int) == stamped_offsets_pix(
            fo,
            fo.head.0 as int,
            fo.head.1 as int,
        ));
        assert forall|x2: int, y2: int| #[trigger] marker_at(off, MarkerKind::Head, x2, y2)
            implies x2 == fo.head.0 && y2 == fo.head.1 by {
            assert(off.pix(x2, y2) == stamped_offsets_pix(fo, x2, y2));
        }
        assert(unique_marker_at(off, MarkerKind::Head, fo.head.0 as int, fo.head.1 as int));
        assert(unique_fits(off, MarkerKind::Head));
    }
    assert(unique_marker_at(off, MarkerKind::HandLeft, fo.hand_left.0 as int,
        fo.hand_left.1 as int));
    assert(unique_marker_at(off, MarkerKind::Center, fo.center.0 as int, fo.center.1 as int));
    assert(unique_marker_at(off, MarkerKind::HandRight, fo.hand_right.0 as int,
        fo.hand_right.1 as int));
    assert(unique_marker_at(sh, MarkerKind::Shadow, fo.shadow.0 as int, fo.shadow.1 as int));
    assert(unique_fits(off, MarkerKind::HandLeft));
    assert(unique_fits(off, MarkerKind::Center));
    assert(unique_fits(off, MarkerKind::HandRight));
    assert(unique_fits(sh, MarkerKind::Shadow));
}

/// Round trip of the marker codec: whatever decoding returns for a stamped
/// cell carries exactly the anchor coordinates that were stamped, including
/// the head when it fell back to the center coordinate.
pub proof fn lemma_stamped_cell_round_trip(
    off: Image,
    sh: Image,
    fo: FrameOffset,
    cw: int,
    ch: int,
    decoded: FrameOffset,
)
    requires
        off.wf(),
        off.w() == cw,
        off.h() == ch,
        sh.wf(),
        sh.w() == cw,
        sh.h() == ch,
        offsets_within(fo, cw, ch),
        fo.head != fo.hand_left,
        fo.head != fo.hand_right,
        forall|x: int, y: int|
            0 <= x < cw && 0 <= y < ch ==> #[trigger] off.pix(x, y) == stamped_offsets_pix(
                fo,
                x,
                y,
            ),
        forall|x: int, y: int|
            0 <= x < cw && 0 <= y < ch ==> #[trigger] sh.pix(x, y) == stamped_shadow_pix(fo, x, y),
        decoded_markers(off, sh, decoded),
    ensures
        decoded == fo,
{
    lemma_stamped_cell_decodes(off, sh, fo, cw, ch);
    assert(decoded.hand_left == fo.hand_left);
    assert(decoded.center == fo.center);
    assert(decoded.hand_right == fo.hand_right);
    assert(decoded.shadow == fo.shadow);
    if fo.head == fo.center {
        assert(marker_at(off, MarkerKind::Center, fo.center.0 as int, fo.center.1 as int));
        assert(no_marker(off, MarkerKind::Head));
        assert(decoded.head == fo.head);
    } else {
        assert(marker_at(off, MarkerKind::Head, fo.head.0 as int, fo.head.1 as int));
        assert(!no_marker(off, MarkerKind::Head));
        assert(decoded.head == fo.head);
    }
}

/// A duplicated marker rules the single-marker classes out.
proof fn lemma_no_unique_when_duplicate(img: Image, kind: MarkerKind)
    requires
        duplicate_marker(img, kind),
    ensures
        !unique_fits(img, kind),
        !unique_large(img, kind),
        !no_marker(img, kind),
{
    let (x1, y1, x2, y2) = choose|x1: int, y1: int, x2: int, y2: int|
        #[trigger] marker_at(img, kind, x1, y1) && #[trigger] marker_at(img, kind, x2, y2) && !(x1
            == x2 && y1 == y2);
    if unique_fits(img, kind) {
        let (x, y) = choose|x: int, y: int|
            #[trigger] unique_marker_at(img, kind, x, y) && x <= u16::MAX && y <= u16::MAX;
        assert(x1 == x && y1 == y);
        assert(x2 == x && y2 == y);
    }
    if unique_large(img, kind) {
        let (x, y) = choose|x: int, y: int|
            #[trigger] unique_marker_at(img, kind, x, y) && (x > u16::MAX || y > u16::MAX);
        assert(x1 == x && y1 == y);
        assert(x2 == x && y2 == y);
    }
}

/// A single marker rules duplication out.
proof fn lemma_no_duplicate_when_unique(img: Image, kind: MarkerKind, x: int, y: int)
    requires
        unique_marker_at(img, kind, x, y),
    ensures
        !duplicate_marker(img, kind),
        !no_marker(img, kind),
{
    if duplicate_marker(img, kind) {
        let (x1, y1, x2, y2) = choose|x1: int, y1: int, x2: int, y2: int|
            #[trigger] marker_at(img, kind, x1, y1) && #[trigger] marker_at(img, kind, x2, y2)
                && !(x1 == x2 && y1 == y2);
        assert(x1 == x && y1 == y);
        assert(x2 == x && y2 == y);
    }
}

} // verus!
