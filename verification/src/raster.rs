//! Images as flat RGBA bytes.

use vstd::prelude::*;

use crate::float::Point;

verus! {

/// Pixels of one color, by their columns and rows.
#[derive(Debug)]
pub struct Stroke {
    pub dots: Vec<Point>,
    pub color: [u8; 3],
}

/// The pixel that a dot falls on; `None` outside the image.
pub open spec fn dot_pixel(dot: Point, width: int, height: int) -> Option<int> {
    match (dot.x.place_below(width), dot.y.place_below(height)) {
        (Some(column), Some(row)) => Some(row * width + column),
        _ => None,
    }
}

/// Whether a dot falls on a pixel.
pub open spec fn covers(dots: Seq<Point>, width: int, height: int, pixel: int) -> bool {
    exists|i: int|
        0 <= i < dots.len() && #[trigger] dot_pixel(dots[i], width, height) == Some(pixel)
}

/// A stroke covers a pixel and no stroke after it does.
pub open spec fn last_over(
    strokes: Seq<Stroke>,
    width: int,
    height: int,
    pixel: int,
    i: int,
) -> bool {
    &&& 0 <= i < strokes.len()
    &&& covers(strokes[i].dots@, width, height, pixel)
    &&& forall|j: int|
        i < j < strokes.len() ==> !covers((#[trigger] strokes[j]).dots@, width, height, pixel)
}

/// No stroke covers a pixel.
pub open spec fn none_over(strokes: Seq<Stroke>, width: int, height: int, pixel: int) -> bool {
    forall|j: int|
        0 <= j < strokes.len() ==> !covers((#[trigger] strokes[j]).dots@, width, height, pixel)
}

/// The color of a pixel after some strokes: that of the last one that covers
/// it.
pub open spec fn painted(
    under: Seq<u8>,
    strokes: Seq<Stroke>,
    width: int,
    height: int,
    pixel: int,
) -> Seq<u8>
    decreases strokes.len(),
{
    if strokes.len() == 0 {
        under
    } else if covers(strokes.last().dots@, width, height, pixel) {
        strokes.last().color@
    } else {
        painted(under, strokes.drop_last(), width, height, pixel)
    }
}

/// A pixel shows the last stroke that covers it, channel by channel.
pub proof fn law_the_last_covering_stroke_shows(
    under: Seq<u8>,
    strokes: Seq<Stroke>,
    width: int,
    height: int,
    pixel: int,
    i: int,
)
    requires
        0 <= i < strokes.len(),
        covers(strokes[i].dots@, width, height, pixel),
        forall|j: int|
            i < j < strokes.len() ==> !covers((#[trigger] strokes[j]).dots@, width, height, pixel),
    ensures
        painted(under, strokes, width, height, pixel).len() == 3,
        forall|k: int|
            0 <= k < 3 ==> #[trigger] painted(under, strokes, width, height, pixel)[k]
                == strokes[i].color@[k],
    decreases strokes.len(),
{
    if i < strokes.len() - 1 {
        let front = strokes.drop_last();
        assert(strokes.last() == strokes[strokes.len() - 1]);
        assert forall|j: int| i < j < front.len() implies !covers(
            (#[trigger] front[j]).dots@,
            width,
            height,
            pixel,
        ) by {
            assert(front[j] == strokes[j]);
        }
        law_the_last_covering_stroke_shows(under, front, width, height, pixel, i);
    }
}

/// A pixel that no stroke covers stays as it was.
pub proof fn law_an_uncovered_pixel_stays(
    under: Seq<u8>,
    strokes: Seq<Stroke>,
    width: int,
    height: int,
    pixel: int,
)
    requires
        forall|j: int|
            0 <= j < strokes.len() ==> !covers((#[trigger] strokes[j]).dots@, width, height, pixel),
    ensures
        painted(under, strokes, width, height, pixel) == under,
    decreases strokes.len(),
{
    if strokes.len() > 0 {
        let front = strokes.drop_last();
        assert(strokes.last() == strokes[strokes.len() - 1]);
        assert forall|j: int| 0 <= j < front.len() implies !covers(
            (#[trigger] front[j]).dots@,
            width,
            height,
            pixel,
        ) by {
            assert(front[j] == strokes[j]);
        }
        law_an_uncovered_pixel_stays(under, front, width, height, pixel);
    }
}

/// A stroke covers the pixels that its dots are in, no others: those at the
/// dot's column in the dot's row.
pub proof fn law_a_stroke_covers_its_dots(
    dots: Seq<Point>,
    width: int,
    height: int,
    x: int,
    y: int,
)
    requires
        0 <= x < width,
        0 <= y < height,
    ensures
        covers(dots, width, height, y * width + x) <==> exists|i: int|
            0 <= i < dots.len() && (#[trigger] dots[i]).x.place_below(width) == Some(x)
                && dots[i].y.place_below(height) == Some(y),
{
    let pixel = y * width + x;
    if covers(dots, width, height, pixel) {
        let i = choose|i: int|
            0 <= i < dots.len() && #[trigger] dot_pixel(dots[i], width, height) == Some(pixel);
        dots[i].x.lemma_place(width);
        dots[i].y.lemma_place(height);
        let (column, row) = (dots[i].x.place_below(width)->0, dots[i].y.place_below(height)->0);
        law_pixels_distinct(column, row, x, y, width);
        assert(dots[i].x.place_below(width) == Some(x));
    } else if exists|i: int|
        0 <= i < dots.len() && (#[trigger] dots[i]).x.place_below(width) == Some(x)
            && dots[i].y.place_below(height) == Some(y) {
        let i = choose|i: int|
            0 <= i < dots.len() && (#[trigger] dots[i]).x.place_below(width) == Some(x)
                && dots[i].y.place_below(height) == Some(y);
        assert(dot_pixel(dots[i], width, height) == Some(pixel));
    }
}

/// Painting some strokes and then others is painting them all in turn.
pub proof fn law_painting_composes(
    under: Seq<u8>,
    first: Seq<Stroke>,
    second: Seq<Stroke>,
    width: int,
    height: int,
    pixel: int,
)
    ensures
        painted(painted(under, first, width, height, pixel), second, width, height, pixel)
            == painted(under, first + second, width, height, pixel),
    decreases second.len(),
{
    if second.len() == 0 {
        assert(first + second =~= first);
    } else {
        law_painting_composes(under, first, second.drop_last(), width, height, pixel);
        assert((first + second).drop_last() =~= first + second.drop_last());
        assert((first + second).last() == second.last());
    }
}

/// An opaque RGBA image with a black background. Pixels are numbered row by
/// row from the top left.
#[derive(Debug)]
pub struct Canvas {
    pub width: usize,
    pub height: usize,
    pub rgba: Vec<u8>,
}

impl Canvas {
    /// Four bytes per pixel, all pixels opaque.
    pub open spec fn wf(&self) -> bool {
        &&& self.rgba@.len() == self.width * self.height * 4
        &&& forall|i: int|
            0 <= i < self.width * self.height ==> self.rgba@[#[trigger] (i * 4) + 3] == 255
    }

    /// The color of a pixel.
    pub open spec fn color(&self, pixel: int) -> Seq<u8> {
        seq![self.rgba@[pixel * 4], self.rgba@[pixel * 4 + 1], self.rgba@[pixel * 4 + 2]]
    }

    /// A black canvas.
    pub fn new(width: usize, height: usize) -> (canvas: Canvas)
        requires
            width * height * 4 <= usize::MAX,
        ensures
            canvas.wf(),
            canvas.width == width && canvas.height == height,
            forall|pixel: int|
                0 <= pixel < width * height ==> #[trigger] canvas.color(pixel) == seq![0u8, 0, 0],
            canvas.rgba@.len() == 4 * (width * height),
            forall|i: int|
                0 <= i < canvas.rgba@.len() ==> #[trigger] canvas.rgba@[i] == (if i % 4 == 3 {
                    255u8
                } else {
                    0u8
                }),
    {
        assert(0 <= width * height) by (nonlinear_arith);
        assert(width * height <= width * height * 4) by (nonlinear_arith);
        let count: usize = width * height;
        let mut rgba: Vec<u8> = Vec::new();
        let mut done: usize = 0;
        while done < count
            invariant
                done <= count,
                count == width * height,
                rgba@.len() == done * 4,
                forall|i: int|
                    0 <= i < done ==> rgba@[#[trigger] (i * 4)] == 0 && rgba@[i * 4 + 1] == 0
                        && rgba@[i * 4 + 2] == 0 && rgba@[i * 4 + 3] == 255,
            decreases count - done,
        {
            rgba.push(0);
            rgba.push(0);
            rgba.push(0);
            rgba.push(255);
            done += 1;
        }
        let canvas = Canvas { width, height, rgba };
        assert forall|i: int| 0 <= i < canvas.rgba@.len() implies #[trigger] canvas.rgba@[i] == (
        if i % 4 == 3 {
            255u8
        } else {
            0u8
        }) by {
            assert(canvas.rgba@[(i / 4) * 4] == 0);
        }
        assert forall|pixel: int| 0 <= pixel < width * height implies #[trigger] canvas.color(pixel)
            == seq![0u8, 0, 0] by {
            assert(canvas.rgba@[pixel * 4] == 0);
        }
        canvas
    }

    /// Color the pixel at column `x`, row `y`; a position outside the canvas
    /// is ignored.
    pub fn plot(&mut self, x: usize, y: usize, color: [u8; 3])
        requires
            old(self).wf(),
        ensures
            final(self).wf(),
            final(self).width == old(self).width,
            final(self).height == old(self).height,
            forall|pixel: int|
                0 <= pixel < old(self).width * old(self).height ==> #[trigger] final(self).color(
                    pixel,
                ) == if x < old(self).width && y < old(self).height && pixel == y
                    * old(self).width + x {
                    color@
                } else {
                    old(self).color(pixel)
                },
            x < old(self).width && y < old(self).height ==> {
                let at = 4 * (y * old(self).width + x);
                final(self).rgba@ == old(self).rgba@.update(at, color@[0]).update(
                    at + 1,
                    color@[1],
                ).update(at + 2, color@[2])
            },
            x >= old(self).width || y >= old(self).height ==> final(self).rgba@
                == old(self).rgba@,
    {
        if x < self.width && y < self.height {
            proof {
                law_pixel_in_range(
                    x as int,
                    y as int,
                    self.width as int,
                    self.height as int,
                );
            }
            let ghost before = *self;
            let ghost bytes = self.rgba.len();
            let ghost cell: int = y * self.width + x;
            let offset: usize = (y * self.width + x) * 4;
            self.rgba.set(offset, color[0]);
            self.rgba.set(offset + 1, color[1]);
            self.rgba.set(offset + 2, color[2]);
            assert forall|i: int| 0 <= i < self.width * self.height implies self.rgba@[
            #[trigger] (i * 4) + 3] == 255 by {
                assert(before.rgba@[(i * 4) + 3] == 255);
            }
            assert forall|pixel: int|
                0 <= pixel < self.width * self.height implies #[trigger] self.color(pixel) == (
            if pixel == cell {
                color@
            } else {
                before.color(pixel)
            }) by {
                if pixel == cell {
                    assert(self.color(pixel) =~= color@);
                } else {
                    assert(self.color(pixel) =~= before.color(pixel));
                }
            }
        }
    }
}

impl Canvas {
    /// Color every pixel that one of the dots falls on.
    fn dab(&mut self, dots: &Vec<Point>, color: [u8; 3])
        requires
            old(self).wf(),
        ensures
            final(self).wf(),
            final(self).width == old(self).width,
            final(self).height == old(self).height,
            forall|pixel: int|
                0 <= pixel < old(self).width * old(self).height ==> #[trigger] final(self).color(
                    pixel,
                ) == if covers(
                    dots@,
                    old(self).width as int,
                    old(self).height as int,
                    pixel,
                ) {
                    color@
                } else {
                    old(self).color(pixel)
                },
    {
        let ghost before = *self;
        let ghost (w, h) = (self.width as int, self.height as int);
        let mut i: usize = 0;
        while i < dots.len()
            invariant
                i <= dots.len(),
                self.wf(),
                self.width == before.width && self.height == before.height,
                w == before.width && h == before.height,
                forall|pixel: int|
                    0 <= pixel < w * h ==> #[trigger] self.color(pixel) == if covers(
                        dots@.take(i as int),
                        w,
                        h,
                        pixel,
                    ) {
                        color@
                    } else {
                        before.color(pixel)
                    },
            decreases dots.len() - i,
        {
            let dot = dots[i];
            let ghost earlier = *self;
            let ghost hit = dot_pixel(dot, w, h);
            if let (Some(x), Some(y)) = (dot.x.place(self.width), dot.y.place(self.height)) {
                proof {
                    dot.x.lemma_place(w);
                    dot.y.lemma_place(h);
                }
                self.plot(x, y, color);
            }
            assert forall|pixel: int| 0 <= pixel < w * h implies #[trigger] self.color(pixel) == (
            if covers(dots@.take(i + 1), w, h, pixel) {
                color@
            } else {
                before.color(pixel)
            }) by {
                let (now, next) = (dots@.take(i as int), dots@.take(i + 1));
                assert(self.color(pixel) == if hit == Some(pixel) {
                    color@
                } else {
                    earlier.color(pixel)
                });
                if hit == Some(pixel) {
                    assert(dot_pixel(next[i as int], w, h) == Some(pixel));
                    assert(covers(next, w, h, pixel));
                } else if covers(now, w, h, pixel) {
                    let k = choose|k: int|
                        0 <= k < now.len() && #[trigger] dot_pixel(now[k], w, h) == Some(pixel);
                    assert(dot_pixel(next[k], w, h) == Some(pixel));
                } else if covers(next, w, h, pixel) {
                    let k = choose|k: int|
                        0 <= k < next.len() && #[trigger] dot_pixel(next[k], w, h) == Some(pixel);
                    assert(dot_pixel(now[k], w, h) == Some(pixel));
                }
            }
            i += 1;
        }
        assert(dots@.take(dots@.len() as int) =~= dots@);
    }

    /// Paint strokes, one over the other. Dots outside the canvas are
    /// ignored.
    #[verifier::rlimit(40)]
    pub fn paint(&mut self, strokes: &[Stroke])
        requires
            old(self).wf(),
        ensures
            final(self).wf(),
            final(self).width == old(self).width,
            final(self).height == old(self).height,
            forall|pixel: int|
                0 <= pixel < old(self).width * old(self).height ==> #[trigger] final(self).color(
                    pixel,
                ) == painted(
                    old(self).color(pixel),
                    strokes@,
                    old(self).width as int,
                    old(self).height as int,
                    pixel,
                ),
            forall|pixel: int, i: int, k: int|
                #![trigger strokes@[i], final(self).rgba@[4 * pixel + k]]
                0 <= pixel < old(self).width * old(self).height && 0 <= k < 3 && last_over(
                    strokes@,
                    old(self).width as int,
                    old(self).height as int,
                    pixel,
                    i,
                ) ==> final(self).rgba@[4 * pixel + k] == strokes@[i].color@[k],
            forall|pixel: int, k: int|
                0 <= pixel < old(self).width * old(self).height && 0 <= k < 4 && (k == 3
                    || none_over(
                    strokes@,
                    old(self).width as int,
                    old(self).height as int,
                    pixel,
                )) ==> #[trigger] final(self).rgba@[4 * pixel + k] == old(self).rgba@[4 * pixel
                    + k],
    {
        let ghost before = *self;
        let ghost (w, h) = (self.width as int, self.height as int);
        let mut i: usize = 0;
        while i < strokes.len()
            invariant
                i <= strokes.len(),
                self.wf(),
                self.width == before.width && self.height == before.height,
                w == before.width && h == before.height,
                forall|pixel: int|
                    0 <= pixel < w * h ==> #[trigger] self.color(pixel) == painted(
                        before.color(pixel),
                        strokes@.take(i as int),
                        w,
                        h,
                        pixel,
                    ),
            decreases strokes.len() - i,
        {
            let ghost earlier = *self;
            self.dab(&strokes[i].dots, strokes[i].color);
            assert(strokes@.take(i + 1).drop_last() =~= strokes@.take(i as int));
            assert(strokes@.take(i + 1).last() == strokes@[i as int]);
            assert forall|pixel: int| 0 <= pixel < w * h implies #[trigger] self.color(pixel)
                == painted(before.color(pixel), strokes@.take(i + 1), w, h, pixel) by {
                assert(earlier.color(pixel) == painted(
                    before.color(pixel),
                    strokes@.take(i as int),
                    w,
                    h,
                    pixel,
                ));
            }
            i += 1;
        }
        assert(strokes@.take(strokes@.len() as int) =~= strokes@);
        assert forall|pixel: int, i: int, k: int|
            #![trigger strokes@[i], self.rgba@[4 * pixel + k]]
            0 <= pixel < w * h && 0 <= k < 3 && last_over(
                strokes@,
                w,
                h,
                pixel,
                i,
            ) implies self.rgba@[4 * pixel + k] == strokes@[i].color@[k] by {
            law_the_last_covering_stroke_shows(before.color(pixel), strokes@, w, h, pixel, i);
            assert(self.color(pixel)[k] == self.rgba@[4 * pixel + k]);
        }
        assert forall|pixel: int, k: int|
            0 <= pixel < w * h && 0 <= k < 4 && (k == 3 || none_over(
                strokes@,
                w,
                h,
                pixel,
            )) implies #[trigger] self.rgba@[4 * pixel + k] == before.rgba@[4 * pixel + k] by {
            if k == 3 {
                assert(self.rgba@[pixel * 4 + 3] == 255 && before.rgba@[pixel * 4 + 3] == 255);
            } else {
                law_an_uncovered_pixel_stays(before.color(pixel), strokes@, w, h, pixel);
                assert(self.color(pixel)[k] == self.rgba@[4 * pixel + k]);
                assert(before.color(pixel)[k] == before.rgba@[4 * pixel + k]);
            }
        }
    }
}

/// Every position of an image has its own pixel number: numbers run from 0 to
/// `width * height - 1`.
pub proof fn law_pixel_in_range(x: int, y: int, width: int, height: int)
    requires
        0 <= x < width,
        0 <= y < height,
    ensures
        0 <= y * width <= y * width + x < width * height,
{
    assert(0 <= y * width) by (nonlinear_arith)
        requires
            0 <= y,
            0 < width,
    ;
    assert(y * width + width <= width * height) by (nonlinear_arith)
        requires
            0 <= y < height,
            0 < width,
    ;
}

/// Different positions have different pixel numbers.
pub proof fn law_pixels_distinct(x0: int, y0: int, x1: int, y1: int, width: int)
    requires
        0 <= x0 < width,
        0 <= x1 < width,
        0 <= y0,
        0 <= y1,
        y0 * width + x0 == y1 * width + x1,
    ensures
        x0 == x1,
        y0 == y1,
{
    if y0 < y1 {
        assert(y0 * width + width <= y1 * width) by (nonlinear_arith)
            requires
                y0 < y1,
                0 < width,
        ;
    } else if y1 < y0 {
        assert(y1 * width + width <= y0 * width) by (nonlinear_arith)
            requires
                y1 < y0,
                0 < width,
        ;
    }
}

/// Colors as opaque RGBA bytes, pixel by pixel.
pub fn opaque_rgba(colors: &[[u8; 3]]) -> (rgba: Vec<u8>)
    ensures
        rgba@.len() == 4 * colors@.len(),
        forall|i: int|
            0 <= i < colors@.len() ==> rgba@.subrange(4 * i, 4 * i + 4) == (
            #[trigger] colors@[i])@.push(255),
        forall|i: int, k: int|
            0 <= i < colors@.len() && 0 <= k < 3 ==> #[trigger] rgba@[4 * i + k]
                == colors@[i]@[k],
        forall|i: int| 0 <= i < colors@.len() ==> #[trigger] rgba@[4 * i + 3] == 255,
{
    let mut rgba: Vec<u8> = Vec::new();
    let mut i: usize = 0;
    while i < colors.len()
        invariant
            i <= colors.len(),
            rgba@.len() == 4 * i,
            forall|k: int|
                0 <= k < i ==> rgba@.subrange(4 * k, 4 * k + 4) == (
                #[trigger] colors@[k])@.push(255),
        decreases colors.len() - i,
    {
        let ghost before = rgba@;
        let color = colors[i];
        rgba.push(color[0]);
        rgba.push(color[1]);
        rgba.push(color[2]);
        rgba.push(255);
        assert forall|k: int| 0 <= k < i + 1 implies rgba@.subrange(4 * k, 4 * k + 4) == (
        #[trigger] colors@[k])@.push(255) by {
            if k < i {
                assert(rgba@.subrange(4 * k, 4 * k + 4) =~= before.subrange(4 * k, 4 * k + 4));
            } else {
                assert(rgba@.subrange(4 * k, 4 * k + 4) =~= colors@[k]@.push(255));
            }
        }
        i += 1;
    }
    assert forall|i: int, k: int| 0 <= i < colors@.len() && 0 <= k < 4 implies #[trigger] rgba@[4
        * i + k] == colors@[i]@.push(255)[k] by {
        assert(rgba@.subrange(4 * i, 4 * i + 4)[k] == rgba@[4 * i + k]);
    }
    rgba
}

} // verus!
