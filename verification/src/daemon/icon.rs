//! The pixels of the tray's mark, given which points lie on it.
use vstd::prelude::*;

verus! {

/// The sides of the pixmaps that a tray may choose from.
pub const SIZES: [u32; 4] = [16, 22, 32, 48];

/// How many samples a side of a pixel has.
pub const SAMPLES: u32 = 4;

/// A test of points decides a property.
pub open spec fn decides<F: Fn(u32, u32) -> bool>(f: F, p: spec_fn(int, int) -> bool) -> bool {
    forall|x: u32, y: u32, b: bool| #[trigger] call_ensures(f, (x, y), b) ==> b == p(x as int, y as int)
}

/// How many of the first samples of a pixel lie on the mark. Samples are counted
/// over the whole image, and row by row within a pixel.
pub open spec fn covered(p: spec_fn(int, int) -> bool, x: int, y: int, n: int) -> int
    decreases n,
{
    if n <= 0 {
        0
    } else {
        covered(p, x, y, n - 1) + (if p(4 * x + (n - 1) % 4, 4 * y + (n - 1) / 4) {
            1int
        } else {
            0
        })
    }
}

/// The colour of the mark: that of attention, or of calm.
pub open spec fn ink(accent: bool) -> Seq<u8> {
    if accent {
        seq![0xE0, 0x52, 0x4D]
    } else {
        seq![0xD5, 0xD8, 0xDC]
    }
}

/// A pixel of which so many samples lie on the mark: how far it is opaque, and
/// its colour; nothing at all where it is clear.
pub open spec fn pixel(covered: int, accent: bool) -> Seq<u8> {
    let alpha = (covered * 255 / 16) as u8;
    if alpha > 0 {
        seq![alpha] + ink(accent)
    } else {
        seq![0, 0, 0, 0]
    }
}

/// The first pixels of a row.
pub open spec fn row_of(p: spec_fn(int, int) -> bool, accent: bool, y: int, n: int) -> Seq<u8>
    decreases n,
{
    if n <= 0 {
        Seq::empty()
    } else {
        row_of(p, accent, y, n - 1) + pixel(covered(p, n - 1, y, 16), accent)
    }
}

/// The first rows of an image.
pub open spec fn rows_of(p: spec_fn(int, int) -> bool, accent: bool, side: int, n: int) -> Seq<u8>
    decreases n,
{
    if n <= 0 {
        Seq::empty()
    } else {
        rows_of(p, accent, side, n - 1) + row_of(p, accent, n - 1, side)
    }
}

fn add_pixel(data: &mut Vec<u8>, covered: u32, accent: bool)
    requires
        covered <= 16,
    ensures
        final(data)@ == old(data)@ + pixel(covered as int, accent),
        final(data)@.len() == old(data)@.len() + 4,
{
    let ghost was = data@;
    let alpha: u8 = (covered * 255 / 16) as u8;
    if alpha > 0 {
        data.push(alpha);
        if accent {
            data.push(0xE0);
            data.push(0x52);
            data.push(0x4D);
        } else {
            data.push(0xD5);
            data.push(0xD8);
            data.push(0xDC);
        }
    } else {
        data.push(0);
        data.push(0);
        data.push(0);
        data.push(0);
    }
    assert(data@ =~= was + pixel(covered as int, accent));
}

/// How many samples of a pixel lie on the mark.
fn count<F: Fn(u32, u32) -> bool>(on_mark: &F, x: u32, y: u32) -> (r: u32)
    requires
        x < 0x1000_0000,
        y < 0x1000_0000,
        forall|a: u32, b: u32| #[trigger] call_requires(*on_mark, (a, b)),
    ensures
        r <= 16,
        forall|p: spec_fn(int, int) -> bool| #[trigger]
            decides(*on_mark, p) ==> r == covered(p, x as int, y as int, 16),
{
    let mut n: u32 = 0;
    let mut r: u32 = 0;
    while n < SAMPLES * SAMPLES
        invariant
            n <= 16,
            r <= n,
            x < 0x1000_0000,
            y < 0x1000_0000,
            forall|a: u32, b: u32| #[trigger] call_requires(*on_mark, (a, b)),
            forall|p: spec_fn(int, int) -> bool| #[trigger]
                decides(*on_mark, p) ==> r == covered(p, x as int, y as int, n as int),
        decreases 16 - n,
    {
        let u: u32 = SAMPLES * x + n % SAMPLES;
        let v: u32 = SAMPLES * y + n / SAMPLES;
        let ghost was = r;
        let hit = on_mark(u, v);
        if hit {
            r = r + 1;
        }
        n = n + 1;
        proof {
            assert forall|p: spec_fn(int, int) -> bool| #[trigger] decides(*on_mark, p) implies r == covered(
                p,
                x as int,
                y as int,
                n as int,
            ) by {
                assert(was == covered(p, x as int, y as int, n - 1));
                assert(hit == p(u as int, v as int));
            }
        }
    }
    r
}

/// The pixels of an image row by row, four bytes each: how far a pixel is opaque,
/// and its colour. `on_mark` tells of each sample of the image whether it lies on
/// the mark.
pub fn pixmap<F: Fn(u32, u32) -> bool>(side: u32, accent: bool, on_mark: &F) -> (r: Vec<u8>)
    requires
        side < 0x1000_0000,
        forall|a: u32, b: u32| #[trigger] call_requires(*on_mark, (a, b)),
    ensures
        r@.len() == 4 * (side * side),
        forall|p: spec_fn(int, int) -> bool| #[trigger]
            decides(*on_mark, p) ==> r@ == rows_of(p, accent, side as int, side as int),
{
    let mut data: Vec<u8> = Vec::new();
    let mut y: u32 = 0;
    assert(0 * side == 0);
    while y < side
        invariant
            y <= side,
            side < 0x1000_0000,
            forall|a: u32, b: u32| #[trigger] call_requires(*on_mark, (a, b)),
            data@.len() == 4 * (y * side),
            forall|p: spec_fn(int, int) -> bool| #[trigger]
                decides(*on_mark, p) ==> data@ == rows_of(p, accent, side as int, y as int),
        decreases side - y,
    {
        let mut x: u32 = 0;
        let ghost above = data@;
        assert forall|p: spec_fn(int, int) -> bool| #[trigger] decides(*on_mark, p) implies data@ == above + row_of(
            p,
            accent,
            y as int,
            0,
        ) by {
            assert(above + Seq::<u8>::empty() =~= above);
        }
        while x < side
            invariant
                x <= side,
                y < side,
                side < 0x1000_0000,
                forall|a: u32, b: u32| #[trigger] call_requires(*on_mark, (a, b)),
                data@.len() == above.len() + 4 * x,
                forall|p: spec_fn(int, int) -> bool| #[trigger]
                    decides(*on_mark, p) ==> data@ == above + row_of(p, accent, y as int, x as int),
            decreases side - x,
        {
            let ghost left = data@;
            let n = count(on_mark, x, y);
            add_pixel(&mut data, n, accent);
            x = x + 1;
            assert forall|p: spec_fn(int, int) -> bool| #[trigger] decides(*on_mark, p) implies data@ == above
                + row_of(p, accent, y as int, x as int) by {
                assert(left == above + row_of(p, accent, y as int, x - 1));
                assert(above + row_of(p, accent, y as int, x as int) =~= left + pixel(
                    covered(p, x - 1, y as int, 16),
                    accent,
                ));
            }
        }
        y = y + 1;
        assert(y * side == (y - 1) * side + side) by (nonlinear_arith)
            requires
                y >= 1,
        ;
        assert forall|p: spec_fn(int, int) -> bool| #[trigger] decides(*on_mark, p) implies data@ == rows_of(
            p,
            accent,
            side as int,
            y as int,
        ) by {
            assert(above == rows_of(p, accent, side as int, y - 1));
        }
    }
    data
}

/// The two colours differ wherever the mark is seen, and nowhere else.
pub proof fn law_colours_differ_where_the_mark_is(covered: int)
    requires
        0 <= covered <= 16,
    ensures
        covered > 0 ==> pixel(covered, true) != pixel(covered, false),
        covered == 0 ==> pixel(covered, true) == pixel(covered, false),
        pixel(covered, true)[0] == pixel(covered, false)[0],
{
    let alpha = covered * 255 / 16;
    assert(0 <= alpha <= 255);
    assert(covered > 0 ==> alpha > 0);
    assert(ink(true)[0] != ink(false)[0]);
    if covered > 0 {
        assert(pixel(covered, true)[1] == ink(true)[0]);
        assert(pixel(covered, false)[1] == ink(false)[0]);
    }
}

/// A pixel is as opaque as the mark covers it: clear where it covers nothing,
/// solid where it covers all, and the more the more; its colour is that of the
/// ink.
pub proof fn law_pixel_is_as_opaque_as_it_is_covered(c: int, d: int, accent: bool)
    requires
        0 <= c <= d <= 16,
    ensures
        pixel(c, accent).len() == 4,
        pixel(0, accent) == seq![0u8, 0u8, 0u8, 0u8],
        pixel(16, accent)[0] == 255,
        pixel(c, accent)[0] <= pixel(d, accent)[0],
        c < d ==> pixel(c, accent)[0] < pixel(d, accent)[0],
        c > 0 ==> pixel(c, accent).subrange(1, 4) == ink(accent),
{
    assert(0 <= c * 255 / 16 <= 255) by (nonlinear_arith)
        requires
            0 <= c <= 16,
    ;
    assert(0 <= d * 255 / 16 <= 255) by (nonlinear_arith)
        requires
            0 <= d <= 16,
    ;
    assert(c * 255 / 16 <= d * 255 / 16);
    if c > 0 {
        assert(pixel(c, accent).subrange(1, 4) =~= ink(accent));
    }
}

/// What a pixel is covered by is counted sample by sample, sixteen in all: none
/// where the mark misses it, all where it fills it.
pub proof fn law_pixel_is_covered_sample_by_sample(p: spec_fn(int, int) -> bool, x: int, y: int, n: int)
    requires
        0 <= n,
    ensures
        0 <= covered(p, x, y, n) <= n,
        (forall|a: int, b: int| #[trigger] p(a, b)) ==> covered(p, x, y, n) == n,
        (forall|a: int, b: int| !#[trigger] p(a, b)) ==> covered(p, x, y, n) == 0,
    decreases n,
{
    if n > 0 {
        law_pixel_is_covered_sample_by_sample(p, x, y, n - 1);
    }
}

} // verus!
