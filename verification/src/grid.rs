use vstd::prelude::*;
use crate::error::SpriteBotStorageError;
use crate::image_data::Image;
use crate::png_io::{decode_png, png_pixels};

verus! {

broadcast use vstd::string::to_string_from_display_ensures_for_str,
    crate::image_data::lemma_image_dims;

/// How many cells of size `divider` fit on an axis of length `size`:
/// rejects a zero cell side, and a sheet side that is not an exact multiple.
pub fn get_number_of_component_on_axis(
    size: u32,
    divider: u32,
    side_name: &str,
    anim_name: &str,
    image_kind: &str,
) -> (r: Result<u32, SpriteBotStorageError>)
    ensures
        divider == 0 ==> ({
            &&& r matches Err(e)
            &&& e matches SpriteBotStorageError::SpriteSizeZero(a, k, s)
            &&& a@ == anim_name@
            &&& k@ == image_kind@
            &&& s@ == side_name@
        }),
        divider != 0 && size as int % divider as int != 0 ==> ({
            &&& r matches Err(e)
            &&& e matches SpriteBotStorageError::SpriteSizeNotMultiple(a, k, s)
            &&& a@ == anim_name@
            &&& k@ == image_kind@
            &&& s@ == side_name@
        }),
        divider != 0 && size as int % divider as int == 0 ==> ({
            &&& r matches Ok(n)
            &&& n == size as int / divider as int
        }),
{
    if divider == 0 {
        Err(SpriteBotStorageError::SpriteSizeZero(
            anim_name.to_string(),
            image_kind.to_string(),
            side_name.to_string(),
        ))
    } else if size % divider != 0 {
        Err(SpriteBotStorageError::SpriteSizeNotMultiple(
            anim_name.to_string(),
            image_kind.to_string(),
            side_name.to_string(),
        ))
    } else {
        Ok(size / divider)
    }
}

/// `cell` is exactly the sub-image of `sheet` standing at line `l`, frame `f`
/// of the grid of `cw`-by-`ch` cells.
pub open spec fn cell_matches(cell: Image, sheet: Image, cw: int, ch: int, l: int, f: int) -> bool {
    &&& cell.wf()
    &&& cell.w() == cw
    &&& cell.h() == ch
    &&& forall|x: int, y: int|
        0 <= x < cw && 0 <= y < ch ==> #[trigger] cell.pix(x, y) == sheet.pix(
            f * cw + x,
            l * ch + y,
        )
}

/// An exact multiple: cell `a` of `n / d` cells of size `d` lies within `n`.
pub proof fn lemma_div_exact_bound(n: int, d: int, a: int)
    requires
        0 < d,
        0 <= n,
        n % d == 0,
        0 <= a < n / d,
    ensures
        0 <= a * d,
        a * d + d <= n,
{
    vstd::arithmetic::div_mod::lemma_fundamental_div_mod(n, d);
    vstd::arithmetic::mul::lemma_mul_inequality(a + 1, n / d, d);
    assert((a + 1) * d == a * d + d) by (nonlinear_arith);
    assert((n / d) * d == d * (n / d)) by (nonlinear_arith);
    vstd::arithmetic::mul::lemma_mul_nonnegative(a, d);
}

/// Grid slicing covers every sheet pixel: a pixel `(x, y)` of a sheet whose
/// sides are exact multiples of the cell sides lies inside the cell at line
/// `y / ch`, frame `x / cw`, at local position `(x % cw, y % ch)`.
pub proof fn lemma_grid_covers(sheet_w: int, sheet_h: int, cw: int, ch: int, x: int, y: int)
    requires
        0 < cw,
        0 < ch,
        sheet_w % cw == 0,
        sheet_h % ch == 0,
        0 <= x < sheet_w,
        0 <= y < sheet_h,
    ensures
        0 <= x / cw < sheet_w / cw,
        0 <= y / ch < sheet_h / ch,
        0 <= x % cw < cw,
        0 <= y % ch < ch,
        (x / cw) * cw + x % cw == x,
        (y / ch) * ch + y % ch == y,
{
    vstd::arithmetic::div_mod::lemma_fundamental_div_mod(x, cw);
    vstd::arithmetic::div_mod::lemma_fundamental_div_mod(y, ch);
    vstd::arithmetic::div_mod::lemma_mod_bound(x, cw);
    vstd::arithmetic::div_mod::lemma_mod_bound(y, ch);
    vstd::arithmetic::div_mod::lemma_div_pos_is_pos(x, cw);
    vstd::arithmetic::div_mod::lemma_div_pos_is_pos(y, ch);
    assert((x / cw) * cw == cw * (x / cw)) by (nonlinear_arith);
    assert((y / ch) * ch == ch * (y / ch)) by (nonlinear_arith);
    if x / cw >= sheet_w / cw {
        vstd::arithmetic::mul::lemma_mul_inequality(sheet_w / cw, x / cw, cw);
        vstd::arithmetic::div_mod::lemma_fundamental_div_mod(sheet_w, cw);
        assert((sheet_w / cw) * cw == cw * (sheet_w / cw)) by (nonlinear_arith);
        assert(false);
    }
    if y / ch >= sheet_h / ch {
        vstd::arithmetic::mul::lemma_mul_inequality(sheet_h / ch, y / ch, ch);
        vstd::arithmetic::div_mod::lemma_fundamental_div_mod(sheet_h, ch);
        assert((sheet_h / ch) * ch == ch * (sheet_h / ch)) by (nonlinear_arith);
        assert(false);
    }
}

/// Grid slicing never covers a pixel twice: only one cell and one local
/// position map to a given sheet pixel.
pub proof fn lemma_grid_slot_unique(cw: int, ch: int, x: int, y: int, l: int, f: int, lx: int, ly: int)
    requires
        0 < cw,
        0 < ch,
        0 <= lx < cw,
        0 <= ly < ch,
        0 <= f,
        0 <= l,
        x == f * cw + lx,
        y == l * ch + ly,
    ensures
        f == x / cw,
        lx == x % cw,
        l == y / ch,
        ly == y % ch,
{
    vstd::arithmetic::div_mod::lemma_fundamental_div_mod_converse(x, cw, f, lx);
    vstd::arithmetic::div_mod::lemma_fundamental_div_mod_converse(y, ch, l, ly);
}

/// Cuts `sheet` into a line-major grid of `frame_width`-by-`frame_height`
/// cells, after checking that both cell sides are non-zero and divide the
/// sheet's sides exactly.
pub fn slice_sheet(
    sheet: &Image,
    frame_width: u32,
    frame_height: u32,
    anim_name: &str,
    image_kind: &str,
) -> (r: Result<Vec<Vec<Image>>, SpriteBotStorageError>)
    requires
        sheet.wf(),
    ensures
        frame_width == 0 ==> ({
            &&& r matches Err(e)
            &&& e matches SpriteBotStorageError::SpriteSizeZero(a, k, s)
            &&& a@ == anim_name@
            &&& k@ == image_kind@
            &&& s@ == "width"@
        }),
        frame_width != 0 && sheet.w() % (frame_width as int) != 0 ==> ({
            &&& r matches Err(e)
            &&& e matches SpriteBotStorageError::SpriteSizeNotMultiple(a, k, s)
            &&& a@ == anim_name@
            &&& k@ == image_kind@
            &&& s@ == "width"@
        }),
        frame_width != 0 && sheet.w() % (frame_width as int) == 0 && frame_height == 0 ==> ({
            &&& r matches Err(e)
            &&& e matches SpriteBotStorageError::SpriteSizeZero(a, k, s)
            &&& a@ == anim_name@
            &&& k@ == image_kind@
            &&& s@ == "height"@
        }),
        frame_width != 0 && sheet.w() % (frame_width as int) == 0 && frame_height != 0 && sheet.h()
            % (frame_height as int) != 0 ==> ({
            &&& r matches Err(e)
            &&& e matches SpriteBotStorageError::SpriteSizeNotMultiple(a, k, s)
            &&& a@ == anim_name@
            &&& k@ == image_kind@
            &&& s@ == "height"@
        }),
        r is Ok <==> frame_width != 0 && frame_height != 0 && sheet.w() % (frame_width as int) == 0
            && sheet.h() % (frame_height as int) == 0,
        r matches Ok(grid) ==> {
            &&& grid@.len() == sheet.h() / (frame_height as int)
            &&& forall|l: int|
                0 <= l < grid@.len() ==> (#[trigger] grid@[l])@.len() == sheet.w() / (
                frame_width as int)
            &&& forall|l: int, f: int|
                0 <= l < grid@.len() && 0 <= f < sheet.w() / (frame_width as int)
                    ==> cell_matches(
                    #[trigger] grid@[l]@[f],
                    *sheet,
                    frame_width as int,
                    frame_height as int,
                    l,
                    f,
                )
        },
{
    let nb_on_width = match get_number_of_component_on_axis(
        sheet.width(),
        frame_width,
        "width",
        anim_name,
        image_kind,
    ) {
        Ok(n) => n,
        Err(e) => { return Err(e) },
    };
    let nb_on_height = match get_number_of_component_on_axis(
        sheet.height(),
        frame_height,
        "height",
        anim_name,
        image_kind,
    ) {
        Ok(n) => n,
        Err(e) => { return Err(e) },
    };

    let mut result: Vec<Vec<Image>> = Vec::new();
    let mut column: u32 = 0;
    while column < nb_on_height
        invariant
            sheet.wf(),
            frame_width != 0,
            frame_height != 0,
            sheet.w() % (frame_width as int) == 0,
            sheet.h() % (frame_height as int) == 0,
            nb_on_width == sheet.w() / (frame_width as int),
            nb_on_height == sheet.h() / (frame_height as int),
            0 <= column <= nb_on_height,
            result@.len() == column,
            forall|l: int|
                0 <= l < result@.len() ==> (#[trigger] result@[l])@.len() == nb_on_width,
            forall|l: int, f: int|
                0 <= l < result@.len() && 0 <= f < nb_on_width ==> cell_matches(
                    #[trigger] result@[l]@[f],
                    *sheet,
                    frame_width as int,
                    frame_height as int,
                    l,
                    f,
                ),
        decreases nb_on_height - column,
    {
        proof {
            lemma_div_exact_bound(sheet.h(), frame_height as int, column as int);
        }
        let column_start = column * frame_height;
        let mut column_result: Vec<Image> = Vec::new();
        let mut row: u32 = 0;
        while row < nb_on_width
            invariant
                sheet.wf(),
                frame_width != 0,
                frame_height != 0,
                sheet.w() % (frame_width as int) == 0,
                sheet.h() % (frame_height as int) == 0,
                nb_on_width == sheet.w() / (frame_width as int),
                column_start == (column as int) * (frame_height as int),
                column_start + frame_height <= sheet.h(),
                0 <= row <= nb_on_width,
                column_result@.len() == row,
                forall|f: int|
                    0 <= f < column_result@.len() ==> cell_matches(
                        #[trigger] column_result@[f],
                        *sheet,
                        frame_width as int,
                        frame_height as int,
                        column as int,
                        f,
                    ),
            decreases nb_on_width - row,
        {
            proof {
                lemma_div_exact_bound(sheet.w(), frame_width as int, row as int);
            }
            let row_start = row * frame_width;
            let cell = sheet.sub_image(row_start, column_start, frame_width, frame_height);
            column_result.push(cell);
            row = row + 1;
        }
        result.push(column_result);
        column = column + 1;
    }
    Ok(result)
}

/// Decodes one sheet's PNG byte stream and slices it into the per-frame grid.
/// The grid facts are stated against the pixels that the PNG codec yields.
pub fn get_image(
    png: &Vec<u8>,
    name: &str,
    kind: &str,
    frame_height: u32,
    frame_width: u32,
) -> (r: Result<Vec<Vec<Image>>, SpriteBotStorageError>)
    ensures
        png_pixels(png@) is None ==> ({
            &&& r matches Err(e)
            &&& e matches SpriteBotStorageError::ErrorImageRead(k, n, _)
            &&& k@ == kind@
            &&& n@ == name@
        }),
        ({
            &&& r matches Err(e)
            &&& e matches SpriteBotStorageError::ErrorImageRead(k, n, _)
        }) ==> png_pixels(png@) is None,
        r is Ok <==> ({
            &&& png_pixels(png@) matches Some(t)
            &&& frame_width != 0
            &&& frame_height != 0
            &&& t.0 as int % (frame_width as int) == 0
            &&& t.1 as int % (frame_height as int) == 0
        }),
        ({
            &&& png_pixels(png@) matches Some(t)
            &&& frame_width == 0
        }) ==> ({
            &&& r matches Err(e)
            &&& e matches SpriteBotStorageError::SpriteSizeZero(a, k, s)
            &&& a@ == name@
            &&& k@ == kind@
            &&& s@ == "width"@
        }),
        ({
            &&& png_pixels(png@) matches Some(t)
            &&& frame_width != 0
            &&& t.0 as int % (frame_width as int) != 0
        }) ==> ({
            &&& r matches Err(e)
            &&& e matches SpriteBotStorageError::SpriteSizeNotMultiple(a, k, s)
            &&& a@ == name@
            &&& k@ == kind@
            &&& s@ == "width"@
        }),
        ({
            &&& png_pixels(png@) matches Some(t)
            &&& frame_width != 0
            &&& t.0 as int % (frame_width as int) == 0
            &&& frame_height == 0
        }) ==> ({
            &&& r matches Err(e)
            &&& e matches SpriteBotStorageError::SpriteSizeZero(a, k, s)
            &&& a@ == name@
            &&& k@ == kind@
            &&& s@ == "height"@
        }),
        ({
            &&& png_pixels(png@) matches Some(t)
            &&& frame_width != 0
            &&& t.0 as int % (frame_width as int) == 0
            &&& frame_height != 0
            &&& t.1 as int % (frame_height as int) != 0
        }) ==> ({
            &&& r matches Err(e)
            &&& e matches SpriteBotStorageError::SpriteSizeNotMultiple(a, k, s)
            &&& a@ == name@
            &&& k@ == kind@
            &&& s@ == "height"@
        }),
        r matches Ok(grid) ==> {
            let t = png_pixels(png@)->Some_0;
            let w = t.0;
            let h = t.1;
            let d = t.2;
            &&& frame_width != 0
            &&& frame_height != 0
            &&& w as int % (frame_width as int) == 0
            &&& h as int % (frame_height as int) == 0
            &&& grid@.len() == h as int / (frame_height as int)
            &&& forall|l: int|
                0 <= l < grid@.len() ==> (#[trigger] grid@[l])@.len() == w as int / (
                frame_width as int)
            &&& forall|l: int, f: int|
                0 <= l < grid@.len() && 0 <= f < w as int / (frame_width as int) ==> {
                    &&& (#[trigger] grid@[l]@[f]).wf()
                    &&& grid@[l]@[f].w() == frame_width
                    &&& grid@[l]@[f].h() == frame_height
                    &&& cell_pix_from_raw(grid@[l]@[f], w as int, d, frame_width as int,
                        frame_height as int, l, f)
                }
        },
{
    let parts = match decode_png(png.as_slice()) {
        Ok(p) => p,
        Err(e) => {
            return Err(SpriteBotStorageError::ErrorImageRead(
                kind.to_string(),
                name.to_string(),
                e,
            ));
        },
    };
    let (w, h, data) = parts;
    let img = Image::from_raw(w, h, data);
    match slice_sheet(&img, frame_width, frame_height, name, kind) {
        Ok(grid) => {
            proof {
                let (sw, sh, d) = png_pixels(png@)->Some_0;
                let cw = frame_width as int;
                let ch = frame_height as int;
                assert forall|l: int, f: int|
                    0 <= l < grid@.len() && 0 <= f < sw as int / cw
                        implies cell_pix_from_raw(
                        #[trigger] grid@[l]@[f],
                        sw as int,
                        d,
                        cw,
                        ch,
                        l,
                        f,
                    ) by {
                    let cell = grid@[l]@[f];
                    assert(cell_matches(cell, img, cw, ch, l, f));
                    assert forall|x: int, y: int| 0 <= x < cw && 0 <= y < ch implies {
                        let k = 4 * ((l * ch + y) * (sw as int) + (f * cw + x));
                        &&& (#[trigger] cell.pix(x, y)).r == d[k]
                        &&& cell.pix(x, y).g == d[k + 1]
                        &&& cell.pix(x, y).b == d[k + 2]
                        &&& cell.pix(x, y).a == d[k + 3]
                    } by {
                        lemma_div_exact_bound(sw as int, cw, f);
                        lemma_div_exact_bound(sh as int, ch, l);
                        assert(cell.pix(x, y) == img.pix(f * cw + x, l * ch + y));
                        img.lemma_pix_vs_raw(f * cw + x, l * ch + y);
                    }
                }
            }
            Ok(grid)
        },
        Err(e) => Err(e),
    }
}

/// The pixels of `cell` agree with the raw RGBA bytes `d` of a sheet of
/// width `w`, at the grid slot `(l, f)` of `cw`-by-`ch` cells.
pub open spec fn cell_pix_from_raw(
    cell: Image,
    w: int,
    d: Seq<u8>,
    cw: int,
    ch: int,
    l: int,
    f: int,
) -> bool {
    forall|x: int, y: int|
        0 <= x < cw && 0 <= y < ch ==> {
            let k = 4 * ((l * ch + y) * w + (f * cw + x));
            &&& (#[trigger] cell.pix(x, y)).r == d[k]
            &&& cell.pix(x, y).g == d[k + 1]
            &&& cell.pix(x, y).b == d[k + 2]
            &&& cell.pix(x, y).a == d[k + 3]
        }
}

} // verus!
