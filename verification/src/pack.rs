use vstd::prelude::*;
use crate::error::SpriteBotStorageError;
use crate::image_data::{Image, Rgba, transparent};
use crate::offsets::{
    FrameOffset, offsets_within, stamp_offsets, stamped_offsets_pix, stamped_shadow_pix,
};
use crate::sprite::{Animation, Frame};

verus! {

broadcast use crate::image_data::lemma_image_dims;

/// The larger of two integers.
pub open spec fn max2(a: int, b: int) -> int {
    if a >= b {
        a
    } else {
        b
    }
}

/// The narrowest cell width that holds this frame's image and keeps every
/// anchor's column inside the cell.
pub open spec fn frame_min_w(fr: Frame) -> int {
    max2(
        fr.image.w(),
        max2(
            fr.offsets.center.0 + 1,
            max2(
                fr.offsets.hand_left.0 + 1,
                max2(fr.offsets.hand_right.0 + 1, max2(fr.offsets.head.0 + 1, fr.offsets.shadow.0 + 1)),
            ),
        ),
    )
}

/// The narrowest cell height that holds this frame's image and keeps every
/// anchor's row inside the cell.
pub open spec fn frame_min_h(fr: Frame) -> int {
    max2(
        fr.image.h(),
        max2(
            fr.offsets.center.1 + 1,
            max2(
                fr.offsets.hand_left.1 + 1,
                max2(fr.offsets.hand_right.1 + 1, max2(fr.offsets.head.1 + 1, fr.offsets.shadow.1 + 1)),
            ),
        ),
    )
}

/// The narrowest cell width over a line of frames.
pub open spec fn frames_min_w(line: Seq<Frame>) -> int
    decreases line.len(),
{
    if line.len() == 0 {
        0
    } else {
        max2(frames_min_w(line.drop_last()), frame_min_w(line.last()))
    }
}

/// The narrowest cell height over a line of frames.
pub open spec fn frames_min_h(line: Seq<Frame>) -> int
    decreases line.len(),
{
    if line.len() == 0 {
        0
    } else {
        max2(frames_min_h(line.drop_last()), frame_min_h(line.last()))
    }
}

/// The cell width the packer chooses: the format floor of eight, widened to
/// hold every frame and every anchor of the animation.
pub open spec fn lines_min_w(lines: Seq<Vec<Frame>>) -> int
    decreases lines.len(),
{
    if lines.len() == 0 {
        8
    } else {
        max2(lines_min_w(lines.drop_last()), frames_min_w(lines.last()@))
    }
}

/// The cell height the packer chooses, with the same floor of eight.
pub open spec fn lines_min_h(lines: Seq<Vec<Frame>>) -> int
    decreases lines.len(),
{
    if lines.len() == 0 {
        8
    } else {
        max2(lines_min_h(lines.drop_last()), frames_min_h(lines.last()@))
    }
}

/// The widest line's frame count: the maximum over the lines, zero when
/// there is no frame at all.
pub open spec fn max_line_len(lines: Seq<Vec<Frame>>) -> int
    decreases lines.len(),
{
    if lines.len() == 0 {
        0
    } else {
        max2(max_line_len(lines.drop_last()), lines.last()@.len() as int)
    }
}

/// Every frame image of the animation is well-formed.
pub open spec fn frames_wf(lines: Seq<Vec<Frame>>) -> bool {
    forall|l: int, f: int|
        0 <= l < lines.len() && 0 <= f < lines[l]@.len() ==> (#[trigger] lines[l]@[f]).image.wf()
}

/// The head anchor coincides with a hand anchor, which encoding rejects.
pub open spec fn frame_collides(fr: Frame) -> bool {
    fr.offsets.head == fr.offsets.hand_left || fr.offsets.head == fr.offsets.hand_right
}

/// Some frame of the animation has a head-hand collision.
pub open spec fn has_collision(lines: Seq<Vec<Frame>>) -> bool {
    exists|l: int, f: int|
        0 <= l < lines.len() && 0 <= f < lines[l]@.len() && frame_collides(#[trigger] lines[l]@[f])
}

/// A packed sheet would overflow the supported coordinate range, either a
/// side beyond a `u32` or a pixel buffer beyond `usize`.
pub open spec fn sheet_too_large(lines: Seq<Vec<Frame>>) -> bool {
    let cw = lines_min_w(lines);
    let ch = lines_min_h(lines);
    let mr = max_line_len(lines);
    let nl = lines.len() as int;
    ||| mr > u32::MAX
    ||| nl > u32::MAX
    ||| cw * mr > u32::MAX
    ||| ch * nl > u32::MAX
    ||| 4 * ((cw * mr) * (ch * nl)) > usize::MAX
}

/// A frame's pixel padded with transparency up to the cell size.
pub open spec fn frame_pix(fr: Frame, x: int, y: int) -> Rgba {
    if 0 <= x < fr.image.w() && 0 <= y < fr.image.h() {
        fr.image.pix(x, y)
    } else {
        transparent()
    }
}

/// The color sheet's content at cell `(cl, cf)`, local position `(dx, dy)`:
/// the frame's own pixels, transparent in blank trailing cells.
pub open spec fn cell_anim_pix(lines: Seq<Vec<Frame>>, cl: int, cf: int, dx: int, dy: int) -> Rgba {
    if cf < lines[cl]@.len() {
        frame_pix(lines[cl]@[cf], dx, dy)
    } else {
        transparent()
    }
}

/// The offsets sheet's content at cell `(cl, cf)`, local `(dx, dy)`.
pub open spec fn cell_offsets_pix(lines: Seq<Vec<Frame>>, cl: int, cf: int, dx: int, dy: int) -> Rgba {
    if cf < lines[cl]@.len() {
        stamped_offsets_pix(lines[cl]@[cf].offsets, dx, dy)
    } else {
        transparent()
    }
}

/// The shadow sheet's content at cell `(cl, cf)`, local `(dx, dy)`.
pub open spec fn cell_shadow_pix(lines: Seq<Vec<Frame>>, cl: int, cf: int, dx: int, dy: int) -> Rgba {
    if cf < lines[cl]@.len() {
        stamped_shadow_pix(lines[cl]@[cf].offsets, dx, dy)
    } else {
        transparent()
    }
}

/// The color sheet's pixel at an absolute position, through the grid layout.
pub open spec fn packed_anim_pix(lines: Seq<Vec<Frame>>, cw: int, ch: int, x: int, y: int) -> Rgba {
    cell_anim_pix(lines, y / ch, x / cw, x % cw, y % ch)
}

/// The offsets sheet's pixel at an absolute position.
pub open spec fn packed_offsets_pix(lines: Seq<Vec<Frame>>, cw: int, ch: int, x: int, y: int) -> Rgba {
    cell_offsets_pix(lines, y / ch, x / cw, x % cw, y % ch)
}

/// The shadow sheet's pixel at an absolute position.
pub open spec fn packed_shadow_pix(lines: Seq<Vec<Frame>>, cw: int, ch: int, x: int, y: int) -> Rgba {
    cell_shadow_pix(lines, y / ch, x / cw, x % cw, y % ch)
}

/// A frame's own minimum never exceeds its line's minimum.
proof fn lemma_frames_min_bound(line: Seq<Frame>, f: int)
    requires
        0 <= f < line.len(),
    ensures
        frame_min_w(line[f]) <= frames_min_w(line),
        frame_min_h(line[f]) <= frames_min_h(line),
    decreases line.len(),
{
    if f == line.len() - 1 {
    } else {
        lemma_frames_min_bound(line.drop_last(), f);
        assert(line.drop_last()[f] == line[f]);
    }
}

/// A line's minimum never exceeds the animation's chosen cell size, and no
/// line is longer than the widest.
proof fn lemma_line_bound(lines: Seq<Vec<Frame>>, l: int)
    requires
        0 <= l < lines.len(),
    ensures
        frames_min_w(lines[l]@) <= lines_min_w(lines),
        frames_min_h(lines[l]@) <= lines_min_h(lines),
        lines[l]@.len() <= max_line_len(lines),
    decreases lines.len(),
{
    if l == lines.len() - 1 {
    } else {
        lemma_line_bound(lines.drop_last(), l);
        assert(lines.drop_last()[l] == lines[l]);
    }
}

/// The chosen cell never falls under the format floor of eight by eight.
pub proof fn lemma_cell_floor(lines: Seq<Vec<Frame>>)
    ensures
        lines_min_w(lines) >= 8,
        lines_min_h(lines) >= 8,
        max_line_len(lines) >= 0,
    decreases lines.len(),
{
    if lines.len() > 0 {
        lemma_cell_floor(lines.drop_last());
    }
}

/// Every frame of the animation fits the chosen cell: its image and all five
/// of its anchors lie inside a `lines_min_w`-by-`lines_min_h` cell.
pub proof fn lemma_frame_fits(lines: Seq<Vec<Frame>>, l: int, f: int)
    requires
        0 <= l < lines.len(),
        0 <= f < lines[l]@.len(),
    ensures
        lines[l]@[f].image.w() <= lines_min_w(lines),
        lines[l]@[f].image.h() <= lines_min_h(lines),
        offsets_within(lines[l]@[f].offsets, lines_min_w(lines), lines_min_h(lines)),
        f < max_line_len(lines),
{
    lemma_line_bound(lines, l);
    lemma_frames_min_bound(lines[l]@, f);
}

/// An earlier cell's columns end before a later cell's columns begin.
proof fn lemma_cell_col_disjoint(cw: int, a: int, b: int, dx: int)
    requires
        0 < cw,
        0 <= dx < cw,
        0 <= a < b,
    ensures
        a * cw + dx < b * cw,
{
    vstd::arithmetic::mul::lemma_mul_inequality(a + 1, b, cw);
    assert((a + 1) * cw == a * cw + cw) by (nonlinear_arith);
}

/// Cell `(cl, cf)` lies strictly before `(l, f)` in raster order.
spec fn cell_before(cl: int, cf: int, l: int, f: int) -> bool {
    cl < l || (cl == l && cf < f)
}

/// The painting state after the cells before `(l, f)` have been filled:
/// those cells carry their frame's pixels and markers, every later cell is
/// still fully transparent in all three canvases.
spec fn painted(
    anim: Image,
    off: Image,
    sh: Image,
    lines: Seq<Vec<Frame>>,
    cw: int,
    ch: int,
    mr: int,
    nl: int,
    l: int,
    f: int,
) -> bool {
    &&& forall|cl: int, cf: int, dx: int, dy: int|
        0 <= cl < nl && 0 <= cf < mr && 0 <= dx < cw && 0 <= dy < ch && cell_before(cl, cf, l, f)
            ==> #[trigger] anim.pix(cf * cw + dx, cl * ch + dy) == cell_anim_pix(
            lines,
            cl,
            cf,
            dx,
            dy,
        )
    &&& forall|cl: int, cf: int, dx: int, dy: int|
        0 <= cl < nl && 0 <= cf < mr && 0 <= dx < cw && 0 <= dy < ch && !cell_before(cl, cf, l, f)
            ==> #[trigger] anim.pix(cf * cw + dx, cl * ch + dy) == transparent()
    &&& forall|cl: int, cf: int, dx: int, dy: int|
        0 <= cl < nl && 0 <= cf < mr && 0 <= dx < cw && 0 <= dy < ch && cell_before(cl, cf, l, f)
            ==> #[trigger] off.pix(cf * cw + dx, cl * ch + dy) == cell_offsets_pix(
            lines,
            cl,
            cf,
            dx,
            dy,
        )
    &&& forall|cl: int, cf: int, dx: int, dy: int|
        0 <= cl < nl && 0 <= cf < mr && 0 <= dx < cw && 0 <= dy < ch && !cell_before(cl, cf, l, f)
            ==> #[trigger] off.pix(cf * cw + dx, cl * ch + dy) == transparent()
    &&& forall|cl: int, cf: int, dx: int, dy: int|
        0 <= cl < nl && 0 <= cf < mr && 0 <= dx < cw && 0 <= dy < ch && cell_before(cl, cf, l, f)
            ==> #[trigger] sh.pix(cf * cw + dx, cl * ch + dy) == cell_shadow_pix(
            lines,
            cl,
            cf,
            dx,
            dy,
        )
    &&& forall|cl: int, cf: int, dx: int, dy: int|
        0 <= cl < nl && 0 <= cf < mr && 0 <= dx < cw && 0 <= dy < ch && !cell_before(cl, cf, l, f)
            ==> #[trigger] sh.pix(cf * cw + dx, cl * ch + dy) == transparent()
}

/// The larger of two `u32` values.
fn max_u32(a: u32, b: u32) -> (r: u32)
    ensures
        r == max2(a as int, b as int),
{
    if a >= b {
        a
    } else {
        b
    }
}

/// The narrowest cell that holds one frame: its image size, widened so that
/// every anchor coordinate lies strictly inside.
fn frame_min_dims(fr: &Frame) -> (r: (u32, u32))
    ensures
        r.0 == frame_min_w(*fr),
        r.1 == frame_min_h(*fr),
{
    let w = max_u32(
        fr.image.width(),
        max_u32(
            fr.offsets.center.0 as u32 + 1,
            max_u32(
                fr.offsets.hand_left.0 as u32 + 1,
                max_u32(
                    fr.offsets.hand_right.0 as u32 + 1,
                    max_u32(fr.offsets.head.0 as u32 + 1, fr.offsets.shadow.0 as u32 + 1),
                ),
            ),
        ),
    );
    let h = max_u32(
        fr.image.height(),
        max_u32(
            fr.offsets.center.1 as u32 + 1,
            max_u32(
                fr.offsets.hand_left.1 as u32 + 1,
                max_u32(
                    fr.offsets.hand_right.1 as u32 + 1,
                    max_u32(fr.offsets.head.1 as u32 + 1, fr.offsets.shadow.1 as u32 + 1),
                ),
            ),
        ),
    );
    (w, h)
}

/// A local position of cell `(cl, cf)` lies outside the box of cell `(l, f)`.
proof fn lemma_outside_cell(cw: int, ch: int, cl: int, cf: int, dx: int, dy: int, l: int, f: int)
    requires
        0 < cw,
        0 < ch,
        0 <= dx < cw,
        0 <= dy < ch,
        0 <= cl,
        0 <= cf,
        0 <= l,
        0 <= f,
        !(cl == l && cf == f),
    ensures
        !(f * cw <= cf * cw + dx < f * cw + cw && l * ch <= cl * ch + dy < l * ch + ch),
{
    if cf < f {
        lemma_cell_col_disjoint(cw, cf, f, dx);
    } else if cf > f {
        vstd::arithmetic::mul::lemma_mul_inequality(f + 1, cf, cw);
        assert((f + 1) * cw == f * cw + cw) by (nonlinear_arith);
        vstd::arithmetic::mul::lemma_mul_nonnegative(cf, cw);
        assert(cf * cw + dx >= f * cw + cw);
    } else {
        if cl < l {
            lemma_cell_col_disjoint(ch, cl, l, dy);
        } else {
            vstd::arithmetic::mul::lemma_mul_inequality(l + 1, cl, ch);
            assert((l + 1) * ch == l * ch + ch) by (nonlinear_arith);
        }
    }
}

/// A local position of a grid cell lies inside the whole sheet.
proof fn lemma_cell_in_sheet(cw: int, ch: int, mr: int, nl: int, cl: int, cf: int, dx: int, dy: int)
    requires
        0 < cw,
        0 < ch,
        0 <= cf < mr,
        0 <= cl < nl,
        0 <= dx < cw,
        0 <= dy < ch,
    ensures
        0 <= cf * cw + dx < cw * mr,
        0 <= cl * ch + dy < ch * nl,
{
    vstd::arithmetic::mul::lemma_mul_inequality(cf + 1, mr, cw);
    assert((cf + 1) * cw == cf * cw + cw) by (nonlinear_arith);
    assert(mr * cw == cw * mr) by (nonlinear_arith);
    vstd::arithmetic::mul::lemma_mul_nonnegative(cf, cw);
    vstd::arithmetic::mul::lemma_mul_inequality(cl + 1, nl, ch);
    assert((cl + 1) * ch == cl * ch + ch) by (nonlinear_arith);
    assert(nl * ch == ch * nl) by (nonlinear_arith);
    vstd::arithmetic::mul::lemma_mul_nonnegative(cl, ch);
}

/// Round trip of the color sheet: slicing the packed color sheet with the
/// packer's cell size hands back, for every frame slot, a cell holding the
/// frame's own pixels at its top-left corner and transparency beyond them —
/// every frame image pixel survives packing unchanged.
pub proof fn lemma_sliced_anim_cell_is_frame(
    lines: Seq<Vec<Frame>>,
    anim_sheet: Image,
    cell: Image,
    l: int,
    f: int,
)
    requires
        0 <= l < lines.len(),
        0 <= f < lines[l]@.len(),
        anim_sheet.wf(),
        anim_sheet.w() == lines_min_w(lines) * max_line_len(lines),
        anim_sheet.h() == lines_min_h(lines) * lines.len(),
        forall|x: int, y: int|
            0 <= x < anim_sheet.w() && 0 <= y < anim_sheet.h() ==> #[trigger] anim_sheet.pix(x, y)
                == packed_anim_pix(lines, lines_min_w(lines), lines_min_h(lines), x, y),
        crate::grid::cell_matches(cell, anim_sheet, lines_min_w(lines), lines_min_h(lines), l, f),
    ensures
        forall|x: int, y: int|
            0 <= x < lines_min_w(lines) && 0 <= y < lines_min_h(lines) ==> #[trigger] cell.pix(
                x,
                y,
            ) == frame_pix(lines[l]@[f], x, y),
{
    let cw = lines_min_w(lines);
    let ch = lines_min_h(lines);
    let mr = max_line_len(lines);
    let nl = lines.len() as int;
    lemma_cell_floor(lines);
    lemma_line_bound(lines, l);
    assert forall|x: int, y: int|
        0 <= x < cw && 0 <= y < ch implies #[trigger] cell.pix(x, y) == frame_pix(
        lines[l]@[f],
        x,
        y,
    ) by {
        lemma_cell_in_sheet(cw, ch, mr, nl, l, f, x, y);
        assert(cell.pix(x, y) == anim_sheet.pix(f * cw + x, l * ch + y));
        crate::grid::lemma_grid_slot_unique(cw, ch, f * cw + x, l * ch + y, l, f, x, y);
        assert(anim_sheet.pix(f * cw + x, l * ch + y) == packed_anim_pix(
            lines,
            cw,
            ch,
            f * cw + x,
            l * ch + y,
        ));
    }
}

/// Round trip of the sheet layout: slicing the packed offsets and shadow
/// sheets with the packer's cell size hands back, for every frame slot,
/// exactly the stamped marker cells of that frame — so marker decoding (see
/// the stamped-cell lemmas of the marker codec) recovers the frame's anchors.
pub proof fn lemma_sliced_cells_are_stamped(
    lines: Seq<Vec<Frame>>,
    off_sheet: Image,
    sh_sheet: Image,
    off_cell: Image,
    sh_cell: Image,
    l: int,
    f: int,
)
    requires
        0 <= l < lines.len(),
        0 <= f < lines[l]@.len(),
        off_sheet.wf(),
        off_sheet.w() == lines_min_w(lines) * max_line_len(lines),
        off_sheet.h() == lines_min_h(lines) * lines.len(),
        sh_sheet.wf(),
        sh_sheet.w() == lines_min_w(lines) * max_line_len(lines),
        sh_sheet.h() == lines_min_h(lines) * lines.len(),
        forall|x: int, y: int|
            0 <= x < off_sheet.w() && 0 <= y < off_sheet.h() ==> #[trigger] off_sheet.pix(x, y)
                == packed_offsets_pix(lines, lines_min_w(lines), lines_min_h(lines), x, y),
        forall|x: int, y: int|
            0 <= x < sh_sheet.w() && 0 <= y < sh_sheet.h() ==> #[trigger] sh_sheet.pix(x, y)
                == packed_shadow_pix(lines, lines_min_w(lines), lines_min_h(lines), x, y),
        crate::grid::cell_matches(off_cell, off_sheet, lines_min_w(lines), lines_min_h(lines), l, f),
        crate::grid::cell_matches(sh_cell, sh_sheet, lines_min_w(lines), lines_min_h(lines), l, f),
    ensures
        forall|x: int, y: int|
            0 <= x < lines_min_w(lines) && 0 <= y < lines_min_h(lines)
                ==> #[trigger] off_cell.pix(x, y) == stamped_offsets_pix(
                lines[l]@[f].offsets,
                x,
                y,
            ),
        forall|x: int, y: int|
            0 <= x < lines_min_w(lines) && 0 <= y < lines_min_h(lines)
                ==> #[trigger] sh_cell.pix(x, y) == stamped_shadow_pix(lines[l]@[f].offsets, x, y),
{
    let cw = lines_min_w(lines);
    let ch = lines_min_h(lines);
    let mr = max_line_len(lines);
    let nl = lines.len() as int;
    lemma_cell_floor(lines);
    lemma_line_bound(lines, l);
    assert forall|x: int, y: int|
        0 <= x < cw && 0 <= y < ch implies #[trigger] off_cell.pix(x, y) == stamped_offsets_pix(
        lines[l]@[f].offsets,
        x,
        y,
    ) by {
        lemma_cell_in_sheet(cw, ch, mr, nl, l, f, x, y);
        assert(off_cell.pix(x, y) == off_sheet.pix(f * cw + x, l * ch + y));
        crate::grid::lemma_grid_slot_unique(cw, ch, f * cw + x, l * ch + y, l, f, x, y);
        assert(off_sheet.pix(f * cw + x, l * ch + y) == packed_offsets_pix(
            lines,
            cw,
            ch,
            f * cw + x,
            l * ch + y,
        ));
    }
    assert forall|x: int, y: int|
        0 <= x < cw && 0 <= y < ch implies #[trigger] sh_cell.pix(x, y) == stamped_shadow_pix(
        lines[l]@[f].offsets,
        x,
        y,
    ) by {
        lemma_cell_in_sheet(cw, ch, mr, nl, l, f, x, y);
        assert(sh_cell.pix(x, y) == sh_sheet.pix(f * cw + x, l * ch + y));
        crate::grid::lemma_grid_slot_unique(cw, ch, f * cw + x, l * ch + y, l, f, x, y);
        assert(sh_sheet.pix(f * cw + x, l * ch + y) == packed_shadow_pix(
            lines,
            cw,
            ch,
            f * cw + x,
            l * ch + y,
        ));
    }
}

/// Round trip of the marker leg of the codec, composed: slice the packed
/// offsets and shadow sheets of an animation whose frame has no head-hand
/// collision, and the two cells at that frame's slot decode — and whatever
/// the marker decoder returns for them carries exactly the frame's own five
/// anchors.
pub proof fn lemma_pack_marker_round_trip(
    lines: Seq<Vec<Frame>>,
    off_sheet: Image,
    sh_sheet: Image,
    off_cell: Image,
    sh_cell: Image,
    l: int,
    f: int,
    decoded: FrameOffset,
)
    requires
        0 <= l < lines.len(),
        0 <= f < lines[l]@.len(),
        !frame_collides(lines[l]@[f]),
        off_sheet.wf(),
        off_sheet.w() == lines_min_w(lines) * max_line_len(lines),
        off_sheet.h() == lines_min_h(lines) * lines.len(),
        sh_sheet.wf(),
        sh_sheet.w() == lines_min_w(lines) * max_line_len(lines),
        sh_sheet.h() == lines_min_h(lines) * lines.len(),
        forall|x: int, y: int|
            0 <= x < off_sheet.w() && 0 <= y < off_sheet.h() ==> #[trigger] off_sheet.pix(x, y)
                == packed_offsets_pix(lines, lines_min_w(lines), lines_min_h(lines), x, y),
        forall|x: int, y: int|
            0 <= x < sh_sheet.w() && 0 <= y < sh_sheet.h() ==> #[trigger] sh_sheet.pix(x, y)
                == packed_shadow_pix(lines, lines_min_w(lines), lines_min_h(lines), x, y),
        crate::grid::cell_matches(off_cell, off_sheet, lines_min_w(lines), lines_min_h(lines), l, f),
        crate::grid::cell_matches(sh_cell, sh_sheet, lines_min_w(lines), lines_min_h(lines), l, f),
        crate::offsets::decoded_markers(off_cell, sh_cell, decoded),
    ensures
        crate::offsets::offsets_decodable(off_cell, sh_cell),
        decoded == lines[l]@[f].offsets,
{
    let cw = lines_min_w(lines);
    let ch = lines_min_h(lines);
    let fo = lines[l]@[f].offsets;
    lemma_sliced_cells_are_stamped(lines, off_sheet, sh_sheet, off_cell, sh_cell, l, f);
    lemma_frame_fits(lines, l, f);
    crate::offsets::lemma_stamped_cell_decodes(off_cell, sh_cell, fo, cw, ch);
    crate::offsets::lemma_stamped_cell_round_trip(off_cell, sh_cell, fo, cw, ch, decoded);
}

/// An absolute sheet position splits into its cell and local offset, and the
/// cell indices lie inside the grid.
proof fn lemma_whole_sheet(cw: int, ch: int, mr: int, nl: int, x: int, y: int)
    requires
        0 < cw,
        0 < ch,
        0 < mr,
        0 <= nl,
        0 <= x < cw * mr,
        0 <= y < ch * nl,
    ensures
        0 <= x / cw < mr,
        0 <= y / ch < nl,
        0 <= x % cw < cw,
        0 <= y % ch < ch,
        (x / cw) * cw + x % cw == x,
        (y / ch) * ch + y % ch == y,
{
    assert(cw * mr == mr * cw) by (nonlinear_arith);
    assert(ch * nl == nl * ch) by (nonlinear_arith);
    vstd::arithmetic::div_mod::lemma_fundamental_div_mod_converse(cw * mr, cw, mr, 0);
    vstd::arithmetic::div_mod::lemma_fundamental_div_mod_converse(ch * nl, ch, nl, 0);
    crate::grid::lemma_grid_covers(cw * mr, ch * nl, cw, ch, x, y);
}

impl Animation {
    /// Packs the animation into its three sheets: chooses the smallest cell
    /// that holds every frame and anchor (floor eight by eight), lays the
    /// frames out line-major, copies each frame's image and stamps its
    /// markers. Rejects oversized sheets and head-hand collisions. The
    /// returned images are, in order, the color, offsets and shadow sheets.
    #[verifier::rlimit(100)]
    pub fn generate_sheet(&self) -> (r: Result<
        ((u32, u32), Image, Image, Image),
        SpriteBotStorageError,
    >)
        requires
            frames_wf(self.images@),
        ensures
            r matches Err(SpriteBotStorageError::TooLargeGeneratedSheet) <==> sheet_too_large(
                self.images@,
            ),
            !sheet_too_large(self.images@) ==> (
            r matches Err(SpriteBotStorageError::InvalidHeadPosition) <==> has_collision(
                self.images@,
            )),
            r is Ok <==> !sheet_too_large(self.images@) && !has_collision(self.images@),
            r matches Ok(t) ==> {
                let cw = lines_min_w(self.images@);
                let ch = lines_min_h(self.images@);
                let mr = max_line_len(self.images@);
                let nl = self.images@.len() as int;
                &&& t.0.0 == cw
                &&& t.0.1 == ch
                &&& t.1.wf() && t.1.w() == cw * mr && t.1.h() == ch * nl
                &&& t.2.wf() && t.2.w() == cw * mr && t.2.h() == ch * nl
                &&& t.3.wf() && t.3.w() == cw * mr && t.3.h() == ch * nl
                &&& forall|x: int, y: int|
                    0 <= x < cw * mr && 0 <= y < ch * nl ==> #[trigger] t.1.pix(x, y)
                        == packed_anim_pix(self.images@, cw, ch, x, y)
                &&& forall|x: int, y: int|
                    0 <= x < cw * mr && 0 <= y < ch * nl ==> #[trigger] t.2.pix(x, y)
                        == packed_offsets_pix(self.images@, cw, ch, x, y)
                &&& forall|x: int, y: int|
                    0 <= x < cw * mr && 0 <= y < ch * nl ==> #[trigger] t.3.pix(x, y)
                        == packed_shadow_pix(self.images@, cw, ch, x, y)
            },
    {
        let ghost lines = self.images@;
        let mut cell_w: u32 = 8;
        let mut cell_h: u32 = 8;
        let mut max_row: usize = 0;
        let mut l: usize = 0;
        while l < self.images.len()
            invariant
                l <= self.images@.len(),
                cell_w == lines_min_w(self.images@.take(l as int)),
                cell_h == lines_min_h(self.images@.take(l as int)),
                max_row == max_line_len(self.images@.take(l as int)),
            decreases self.images@.len() - l,
        {
            let line = &self.images[l];
            if line.len() > max_row {
                max_row = line.len();
            }
            let ghost entry_w = cell_w as int;
            let ghost entry_h = cell_h as int;
            let mut f: usize = 0;
            while f < line.len()
                invariant
                    f <= line@.len(),
                    entry_w == lines_min_w(self.images@.take(l as int)),
                    entry_h == lines_min_h(self.images@.take(l as int)),
                    cell_w == max2(entry_w, frames_min_w(line@.take(f as int))),
                    cell_h == max2(entry_h, frames_min_h(line@.take(f as int))),
                decreases line@.len() - f,
            {
                let d = frame_min_dims(&line[f]);
                if d.0 > cell_w {
                    cell_w = d.0;
                }
                if d.1 > cell_h {
                    cell_h = d.1;
                }
                proof {
                    assert(line@.take(f as int + 1).drop_last() =~= line@.take(f as int));
                    assert(line@.take(f as int + 1).last() == line@[f as int]);
                }
                f = f + 1;
            }
            proof {
                assert(line@.take(line@.len() as int) =~= line@);
                assert(self.images@.take(l as int + 1).drop_last() =~= self.images@.take(
                    l as int,
                ));
                assert(self.images@.take(l as int + 1).last() == self.images@[l as int]);
            }
            l = l + 1;
        }
        proof {
            assert(self.images@.take(self.images@.len() as int) =~= self.images@);
        }
        let ghost cw = lines_min_w(lines);
        let ghost ch = lines_min_h(lines);
        let ghost mr = max_line_len(lines);
        let ghost nl = lines.len() as int;
        proof {
            lemma_cell_floor(lines);
        }

        if max_row > u32::MAX as usize {
            return Err(SpriteBotStorageError::TooLargeGeneratedSheet);
        }
        let rows: u32 = max_row as u32;
        if self.images.len() > u32::MAX as usize {
            return Err(SpriteBotStorageError::TooLargeGeneratedSheet);
        }
        let n_lines: u32 = self.images.len() as u32;
        proof {
            vstd::arithmetic::mul::lemma_mul_upper_bound(
                cell_w as int,
                u32::MAX as int,
                rows as int,
                u32::MAX as int,
            );
            vstd::arithmetic::mul::lemma_mul_upper_bound(
                cell_h as int,
                u32::MAX as int,
                n_lines as int,
                u32::MAX as int,
            );
        }
        let w64: u64 = (cell_w as u64) * (rows as u64);
        if w64 > u32::MAX as u64 {
            return Err(SpriteBotStorageError::TooLargeGeneratedSheet);
        }
        let width: u32 = w64 as u32;
        let h64: u64 = (cell_h as u64) * (n_lines as u64);
        if h64 > u32::MAX as u64 {
            return Err(SpriteBotStorageError::TooLargeGeneratedSheet);
        }
        let height: u32 = h64 as u32;
        proof {
            assert(width == cw * mr && height == ch * nl);
        }
        let total_w: u64 = 4u64 * (width as u64);
        proof {
            vstd::arithmetic::mul::lemma_mul_upper_bound(
                total_w as int,
                4 * (u32::MAX as int),
                height as int,
                u32::MAX as int,
            );
        }
        let total: u128 = (total_w as u128) * (height as u128);
        if total > usize::MAX as u128 {
            proof {
                assert(4 * ((cw * mr) * (ch * nl)) > usize::MAX) by (nonlinear_arith)
                    requires
                        cw * mr == width as int,
                        ch * nl == height as int,
                        4 * (width as int) * (height as int) > usize::MAX,
                ;
            }
            return Err(SpriteBotStorageError::TooLargeGeneratedSheet);
        }
        proof {
            assert(4 * ((cw * mr) * (ch * nl)) <= usize::MAX) by (nonlinear_arith)
                requires
                    cw * mr == width as int,
                    ch * nl == height as int,
                    4 * (width as int) * (height as int) <= usize::MAX,
            ;
            assert(!sheet_too_large(lines));
            assert(4 * ((width as int) * (height as int)) <= usize::MAX) by (nonlinear_arith)
                requires
                    4 * (width as int) * (height as int) <= usize::MAX,
            ;
        }

        let mut anim_image = Image::new(width, height);
        let mut offset_images = Image::new(width, height);
        let mut shadow_image = Image::new(width, height);
        proof {
            assert forall|cl: int, cf: int, dx: int, dy: int|
                0 <= cl < nl && 0 <= cf < mr && 0 <= dx < cw && 0 <= dy < ch
                    implies #[trigger] anim_image.pix(cf * cw + dx, cl * ch + dy)
                    == transparent() by {
                lemma_cell_in_sheet(cw, ch, mr, nl, cl, cf, dx, dy);
            }
            assert forall|cl: int, cf: int, dx: int, dy: int|
                0 <= cl < nl && 0 <= cf < mr && 0 <= dx < cw && 0 <= dy < ch
                    implies #[trigger] offset_images.pix(cf * cw + dx, cl * ch + dy)
                    == transparent() by {
                lemma_cell_in_sheet(cw, ch, mr, nl, cl, cf, dx, dy);
            }
            assert forall|cl: int, cf: int, dx: int, dy: int|
                0 <= cl < nl && 0 <= cf < mr && 0 <= dx < cw && 0 <= dy < ch
                    implies #[trigger] shadow_image.pix(cf * cw + dx, cl * ch + dy)
                    == transparent() by {
                lemma_cell_in_sheet(cw, ch, mr, nl, cl, cf, dx, dy);
            }
        }

        let mut start_x: u32 = 0;
        let mut start_y: u32 = 0;
        let mut li: usize = 0;
        while li < self.images.len()
            invariant
                frames_wf(lines),
                lines == self.images@,
                cw == lines_min_w(lines),
                ch == lines_min_h(lines),
                mr == max_line_len(lines),
                nl == lines.len() as int,
                cw >= 8,
                ch >= 8,
                mr >= 0,
                cell_w == cw,
                cell_h == ch,
                width == cw * mr,
                height == ch * nl,
                !sheet_too_large(lines),
                li <= lines.len(),
                start_x == 0,
                start_y == (li as int) * ch,
                anim_image.wf() && anim_image.w() == width && anim_image.h() == height,
                offset_images.wf() && offset_images.w() == width && offset_images.h() == height,
                shadow_image.wf() && shadow_image.w() == width && shadow_image.h() == height,
                painted(anim_image, offset_images, shadow_image, lines, cw, ch, mr, nl, li as int, 0),
                forall|l2: int, f2: int|
                    0 <= l2 < li && 0 <= f2 < lines[l2]@.len() ==> !frame_collides(
                        #[trigger] lines[l2]@[f2],
                    ),
            decreases lines.len() - li,
        {
            let line = &self.images[li];
            let mut fi: usize = 0;
            while fi < line.len()
                invariant
                    frames_wf(lines),
                    lines == self.images@,
                    line@ == lines[li as int]@,
                    cw == lines_min_w(lines),
                    ch == lines_min_h(lines),
                    mr == max_line_len(lines),
                    nl == lines.len() as int,
                    cw >= 8,
                    ch >= 8,
                    mr >= 0,
                    cell_w == cw,
                    cell_h == ch,
                    width == cw * mr,
                    height == ch * nl,
                    !sheet_too_large(lines),
                    0 <= li < lines.len(),
                    fi <= line@.len(),
                    start_x == (fi as int) * cw,
                    start_y == (li as int) * ch,
                    anim_image.wf() && anim_image.w() == width && anim_image.h() == height,
                    offset_images.wf() && offset_images.w() == width && offset_images.h()
                        == height,
                    shadow_image.wf() && shadow_image.w() == width && shadow_image.h() == height,
                    painted(
                        anim_image,
                        offset_images,
                        shadow_image,
                        lines,
                        cw,
                        ch,
                        mr,
                        nl,
                        li as int,
                        fi as int,
                    ),
                    forall|l2: int, f2: int|
                        0 <= l2 < li && 0 <= f2 < lines[l2]@.len() ==> !frame_collides(
                            #[trigger] lines[l2]@[f2],
                        ),
                    forall|f2: int|
                        0 <= f2 < fi ==> !frame_collides(#[trigger] lines[li as int]@[f2]),
                decreases line@.len() - fi,
            {
                let ghost gl = li as int;
                let ghost gf = fi as int;
                let fr = &line[fi];
                proof {
                    lemma_frame_fits(lines, gl, gf);
                    vstd::arithmetic::mul::lemma_mul_inequality(gf + 1, mr, cw);
                    assert((gf + 1) * cw == gf * cw + cw) by (nonlinear_arith);
                    assert(mr * cw == cw * mr) by (nonlinear_arith);
                    vstd::arithmetic::mul::lemma_mul_inequality(gl + 1, nl, ch);
                    assert((gl + 1) * ch == gl * ch + ch) by (nonlinear_arith);
                    assert(nl * ch == ch * nl) by (nonlinear_arith);
                    vstd::arithmetic::mul::lemma_mul_nonnegative(gf, cw);
                    vstd::arithmetic::mul::lemma_mul_nonnegative(gl, ch);
                }
                let ghost anim0 = anim_image;
                anim_image.copy_from(&fr.image, start_x, start_y);
                if (fr.offsets.head.0 == fr.offsets.hand_left.0 && fr.offsets.head.1
                    == fr.offsets.hand_left.1) || (fr.offsets.head.0 == fr.offsets.hand_right.0
                    && fr.offsets.head.1 == fr.offsets.hand_right.1) {
                    proof {
                        assert(frame_collides(lines[gl]@[gf]));
                        assert(has_collision(lines));
                    }
                    return Err(SpriteBotStorageError::InvalidHeadPosition);
                }
                proof {
                    assert forall|dx: int, dy: int|
                        0 <= dx < cw && 0 <= dy < ch implies #[trigger] offset_images.pix(
                        start_x + dx,
                        start_y + dy,
                    ) == transparent() by {
                        assert(offset_images.pix(gf * cw + dx, gl * ch + dy) == transparent());
                    }
                    assert forall|dx: int, dy: int|
                        0 <= dx < cw && 0 <= dy < ch implies #[trigger] shadow_image.pix(
                        start_x + dx,
                        start_y + dy,
                    ) == transparent() by {
                        assert(shadow_image.pix(gf * cw + dx, gl * ch + dy) == transparent());
                    }
                }
                let ghost off0 = offset_images;
                let ghost sh0 = shadow_image;
                stamp_offsets(
                    &mut offset_images,
                    &mut shadow_image,
                    start_x,
                    start_y,
                    cell_w,
                    cell_h,
                    &fr.offsets,
                );
                proof {
                    let frm = lines[gl]@[gf];
                    assert forall|cl: int, cf: int, dx: int, dy: int|
                        0 <= cl < nl && 0 <= cf < mr && 0 <= dx < cw && 0 <= dy < ch
                            && cell_before(cl, cf, gl, gf + 1)
                            implies #[trigger] anim_image.pix(cf * cw + dx, cl * ch + dy)
                            == cell_anim_pix(lines, cl, cf, dx, dy) by {
                        lemma_cell_in_sheet(cw, ch, mr, nl, cl, cf, dx, dy);
                        if cl == gl && cf == gf {
                            if 0 <= dx < frm.image.w() && 0 <= dy < frm.image.h() {
                                assert(anim_image.pix(start_x + dx, start_y + dy)
                                    == frm.image.pix(dx, dy));
                            } else {
                                assert(anim_image.pix(cf * cw + dx, cl * ch + dy)
                                    == anim0.pix(cf * cw + dx, cl * ch + dy));
                                assert(anim0.pix(cf * cw + dx, cl * ch + dy) == transparent());
                            }
                        } else {
                            lemma_outside_cell(cw, ch, cl, cf, dx, dy, gl, gf);
                            assert(anim_image.pix(cf * cw + dx, cl * ch + dy) == anim0.pix(
                                cf * cw + dx,
                                cl * ch + dy,
                            ));
                            assert(anim0.pix(cf * cw + dx, cl * ch + dy) == cell_anim_pix(
                                lines,
                                cl,
                                cf,
                                dx,
                                dy,
                            ));
                        }
                    }
                    assert forall|cl: int, cf: int, dx: int, dy: int|
                        0 <= cl < nl && 0 <= cf < mr && 0 <= dx < cw && 0 <= dy < ch
                            && cell_before(cl, cf, gl, gf + 1)
                            implies #[trigger] offset_images.pix(cf * cw + dx, cl * ch + dy)
                            == cell_offsets_pix(lines, cl, cf, dx, dy) by {
                        lemma_cell_in_sheet(cw, ch, mr, nl, cl, cf, dx, dy);
                        if cl == gl && cf == gf {
                            assert(offset_images.pix(start_x + dx, start_y + dy)
                                == stamped_offsets_pix(frm.offsets, dx, dy));
                        } else {
                            lemma_outside_cell(cw, ch, cl, cf, dx, dy, gl, gf);
                            assert(offset_images.pix(cf * cw + dx, cl * ch + dy) == off0.pix(
                                cf * cw + dx,
                                cl * ch + dy,
                            ));
                            assert(off0.pix(cf * cw + dx, cl * ch + dy) == cell_offsets_pix(
                                lines,
                                cl,
                                cf,
                                dx,
                                dy,
                            ));
                        }
                    }
                    assert forall|cl: int, cf: int, dx: int, dy: int|
                        0 <= cl < nl && 0 <= cf < mr && 0 <= dx < cw && 0 <= dy < ch
                            && cell_before(cl, cf, gl, gf + 1)
                            implies #[trigger] shadow_image.pix(cf * cw + dx, cl * ch + dy)
                            == cell_shadow_pix(lines, cl, cf, dx, dy) by {
                        lemma_cell_in_sheet(cw, ch, mr, nl, cl, cf, dx, dy);
                        if cl == gl && cf == gf {
                            assert(shadow_image.pix(start_x + dx, start_y + dy)
                                == stamped_shadow_pix(frm.offsets, dx, dy));
                        } else {
                            lemma_outside_cell(cw, ch, cl, cf, dx, dy, gl, gf);
                            assert(shadow_image.pix(cf * cw + dx, cl * ch + dy) == sh0.pix(
                                cf * cw + dx,
                                cl * ch + dy,
                            ));
                            assert(sh0.pix(cf * cw + dx, cl * ch + dy) == cell_shadow_pix(
                                lines,
                                cl,
                                cf,
                                dx,
                                dy,
                            ));
                        }
                    }
                    assert forall|cl: int, cf: int, dx: int, dy: int|
                        0 <= cl < nl && 0 <= cf < mr && 0 <= dx < cw && 0 <= dy < ch
                            && !cell_before(cl, cf, gl, gf + 1)
                            implies #[trigger] anim_image.pix(cf * cw + dx, cl * ch + dy)
                            == transparent() by {
                        lemma_cell_in_sheet(cw, ch, mr, nl, cl, cf, dx, dy);
                        lemma_outside_cell(cw, ch, cl, cf, dx, dy, gl, gf);
                        assert(anim_image.pix(cf * cw + dx, cl * ch + dy) == anim0.pix(
                            cf * cw + dx,
                            cl * ch + dy,
                        ));
                        assert(anim0.pix(cf * cw + dx, cl * ch + dy) == transparent());
                    }
                    assert forall|cl: int, cf: int, dx: int, dy: int|
                        0 <= cl < nl && 0 <= cf < mr && 0 <= dx < cw && 0 <= dy < ch
                            && !cell_before(cl, cf, gl, gf + 1)
                            implies #[trigger] offset_images.pix(cf * cw + dx, cl * ch + dy)
                            == transparent() by {
                        lemma_cell_in_sheet(cw, ch, mr, nl, cl, cf, dx, dy);
                        lemma_outside_cell(cw, ch, cl, cf, dx, dy, gl, gf);
                        assert(offset_images.pix(cf * cw + dx, cl * ch + dy) == off0.pix(
                            cf * cw + dx,
                            cl * ch + dy,
                        ));
                        assert(off0.pix(cf * cw + dx, cl * ch + dy) == transparent());
                    }
                    assert forall|cl: int, cf: int, dx: int, dy: int|
                        0 <= cl < nl && 0 <= cf < mr && 0 <= dx < cw && 0 <= dy < ch
                            && !cell_before(cl, cf, gl, gf + 1)
                            implies #[trigger] shadow_image.pix(cf * cw + dx, cl * ch + dy)
                            == transparent() by {
                        lemma_cell_in_sheet(cw, ch, mr, nl, cl, cf, dx, dy);
                        lemma_outside_cell(cw, ch, cl, cf, dx, dy, gl, gf);
                        assert(shadow_image.pix(cf * cw + dx, cl * ch + dy) == sh0.pix(
                            cf * cw + dx,
                            cl * ch + dy,
                        ));
                        assert(sh0.pix(cf * cw + dx, cl * ch + dy) == transparent());
                    }
                }
                start_x = start_x + cell_w;
                fi = fi + 1;
            }
            proof {
                assert forall|cl: int, cf: int, dx: int, dy: int|
                    0 <= cl < nl && 0 <= cf < mr && 0 <= dx < cw && 0 <= dy < ch && cell_before(
                        cl,
                        cf,
                        li as int + 1,
                        0,
                    ) implies #[trigger] anim_image.pix(cf * cw + dx, cl * ch + dy)
                    == cell_anim_pix(lines, cl, cf, dx, dy) by {
                    if !cell_before(cl, cf, li as int, line@.len() as int) {
                        assert(cl == li as int && cf >= lines[cl]@.len());
                    }
                }
                assert forall|cl: int, cf: int, dx: int, dy: int|
                    0 <= cl < nl && 0 <= cf < mr && 0 <= dx < cw && 0 <= dy < ch && cell_before(
                        cl,
                        cf,
                        li as int + 1,
                        0,
                    ) implies #[trigger] offset_images.pix(cf * cw + dx, cl * ch + dy)
                    == cell_offsets_pix(lines, cl, cf, dx, dy) by {
                    if !cell_before(cl, cf, li as int, line@.len() as int) {
                        assert(cl == li as int && cf >= lines[cl]@.len());
                    }
                }
                assert forall|cl: int, cf: int, dx: int, dy: int|
                    0 <= cl < nl && 0 <= cf < mr && 0 <= dx < cw && 0 <= dy < ch && cell_before(
                        cl,
                        cf,
                        li as int + 1,
                        0,
                    ) implies #[trigger] shadow_image.pix(cf * cw + dx, cl * ch + dy)
                    == cell_shadow_pix(lines, cl, cf, dx, dy) by {
                    if !cell_before(cl, cf, li as int, line@.len() as int) {
                        assert(cl == li as int && cf >= lines[cl]@.len());
                    }
                }
                assert((li as int) * ch + ch == (li as int + 1) * ch) by (nonlinear_arith);
                vstd::arithmetic::mul::lemma_mul_inequality(li as int + 1, nl, ch);
                assert(nl * ch == ch * nl) by (nonlinear_arith);
            }
            start_x = 0;
            start_y = start_y + cell_h;
            li = li + 1;
        }
        proof {
            assert forall|x: int, y: int|
                0 <= x < cw * mr && 0 <= y < ch * nl implies #[trigger] anim_image.pix(x, y)
                == packed_anim_pix(lines, cw, ch, x, y) by {
                assert(mr > 0) by (nonlinear_arith)
                    requires
                        cw * mr > 0,
                        cw >= 8,
                        mr >= 0,
                ;
                lemma_whole_sheet(cw, ch, mr, nl, x, y);
                assert(anim_image.pix((x / cw) * cw + x % cw, (y / ch) * ch + y % ch)
                    == cell_anim_pix(lines, y / ch, x / cw, x % cw, y % ch));
            }
            assert forall|x: int, y: int|
                0 <= x < cw * mr && 0 <= y < ch * nl implies #[trigger] offset_images.pix(x, y)
                == packed_offsets_pix(lines, cw, ch, x, y) by {
                assert(mr > 0) by (nonlinear_arith)
                    requires
                        cw * mr > 0,
                        cw >= 8,
                        mr >= 0,
                ;
                lemma_whole_sheet(cw, ch, mr, nl, x, y);
                assert(offset_images.pix((x / cw) * cw + x % cw, (y / ch) * ch + y % ch)
                    == cell_offsets_pix(lines, y / ch, x / cw, x % cw, y % ch));
            }
            assert forall|x: int, y: int|
                0 <= x < cw * mr && 0 <= y < ch * nl implies #[trigger] shadow_image.pix(x, y)
                == packed_shadow_pix(lines, cw, ch, x, y) by {
                assert(mr > 0) by (nonlinear_arith)
                    requires
                        cw * mr > 0,
                        cw >= 8,
                        mr >= 0,
                ;
                lemma_whole_sheet(cw, ch, mr, nl, x, y);
                assert(shadow_image.pix((x / cw) * cw + x % cw, (y / ch) * ch + y % ch)
                    == cell_shadow_pix(lines, y / ch, x / cw, x % cw, y % ch));
            }
        }
        Ok(((cell_w, cell_h), anim_image, offset_images, shadow_image))
    }
}

} // verus!
