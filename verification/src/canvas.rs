//! The pixel canvas and its PPM text encoding.
//!
//! A canvas is a row-major buffer of bytes, three per pixel.  The plain
//! `P3` PPM rendering of a canvas is specified exactly, down to the
//! 15-value line wrapping, and the encoder is proved to produce it.

use vstd::prelude::*;

verus! {

/// Width and height of a canvas, in pixels.
#[derive(Debug, Clone, Copy)]
pub struct Dimensions {
    pub width: usize,
    pub height: usize,
}

/// A row-major pixel buffer, three bytes (red, green, blue) per pixel.
#[derive(Debug, Clone)]
pub struct Canvas {
    pub dimensions: Dimensions,
    pub pixels: Vec<u8>,
}

/// File formats a canvas can be saved in; only plain PPM is rendered here.
#[derive(Debug, Clone, Copy)]
pub enum ImageType {
    PNG,
    PPM,
}

/// The buffer holds exactly three bytes for every pixel.
pub open spec fn canvas_wf(c: &Canvas) -> bool {
    c.pixels@.len() == c.dimensions.width * c.dimensions.height * 3
}

/// The character for one decimal digit.
pub open spec fn dec_digit(d: int) -> char {
    if d == 0 {
        '0'
    } else if d == 1 {
        '1'
    } else if d == 2 {
        '2'
    } else if d == 3 {
        '3'
    } else if d == 4 {
        '4'
    } else if d == 5 {
        '5'
    } else if d == 6 {
        '6'
    } else if d == 7 {
        '7'
    } else if d == 8 {
        '8'
    } else {
        '9'
    }
}

/// The decimal rendering of a nonnegative number, most significant
/// digit first, with no leading zeroes (`0` itself renders as "0").
pub open spec fn dec_seq(n: int) -> Seq<char>
    decreases n,
{
    if n < 10 {
        seq![dec_digit(n)]
    } else {
        dec_seq(n / 10).push(dec_digit(n % 10))
    }
}

/// The views of a list of strings.
pub open spec fn deep(l: Seq<String>) -> Seq<Seq<char>> {
    Seq::new(l.len(), |i: int| l[i]@)
}

/// The decimal renderings of a list of bytes.
pub open spec fn decs(pixels: Seq<u8>) -> Seq<Seq<char>> {
    Seq::new(pixels.len(), |i: int| dec_seq(pixels[i] as int))
}

/// The pieces joined with a single separator between neighbours.
pub open spec fn join_with(l: Seq<Seq<char>>, sep: char) -> Seq<char>
    decreases l.len(),
{
    if l.len() == 0 {
        Seq::empty()
    } else if l.len() == 1 {
        l[0]
    } else {
        join_with(l.drop_last(), sep).push(sep) + l.last()
    }
}

/// The lines each prefixed by a newline, concatenated.
pub open spec fn nl_concat(ls: Seq<Seq<char>>) -> Seq<char>
    decreases ls.len(),
{
    if ls.len() == 0 {
        Seq::empty()
    } else {
        nl_concat(ls.drop_last()).push('\n') + ls.last()
    }
}

/// The pieces grouped 15 to a line, each line joined with spaces.
pub open spec fn lines15(vals: Seq<Seq<char>>) -> Seq<Seq<char>>
    decreases vals.len(),
{
    if vals.len() == 0 {
        Seq::empty()
    } else {
        let c = if vals.len() <= 15 {
            vals.len() as int
        } else {
            15int
        };
        seq![join_with(vals.take(c), ' ')] + lines15(vals.skip(c))
    }
}

/// The three header lines of a plain PPM file: the magic number `P3`,
/// the image size, and the largest channel value 255.
pub open spec fn header_seq(w: int, h: int) -> Seq<char> {
    seq!['P', '3', '\n'] + dec_seq(w) + seq![' '] + dec_seq(h) + seq!['\n', '2', '5', '5']
}

/// The full plain PPM rendering: header, then the byte values in
/// decimal, 15 to a line, and a closing newline.
pub open spec fn ppm_spec(w: int, h: int, pixels: Seq<u8>) -> Seq<char> {
    header_seq(w, h) + nl_concat(lines15(decs(pixels))) + seq!['\n']
}

/// Joining lines after a first piece is that piece followed by each
/// line behind its own newline.
proof fn lemma_join_head(h: Seq<char>, ls: Seq<Seq<char>>)
    ensures
        join_with(seq![h] + ls, '\n') == h + nl_concat(ls),
    decreases ls.len(),
{
    let whole = seq![h] + ls;
    if ls.len() == 0 {
        assert(whole.len() == 1);
        assert(whole[0] == h);
        assert(h + nl_concat(ls) =~= h);
    } else {
        assert(whole.drop_last() =~= seq![h] + ls.drop_last());
        lemma_join_head(h, ls.drop_last());
        assert(whole.last() == ls.last());
        assert(join_with(whole, '\n') == join_with(whole.drop_last(), '\n').push('\n')
            + whole.last());
        assert((h + nl_concat(ls.drop_last())).push('\n') + ls.last() =~= h + (nl_concat(
            ls.drop_last(),
        ).push('\n') + ls.last()));
        assert(nl_concat(ls) == nl_concat(ls.drop_last()).push('\n') + ls.last());
    }
}

/// One character for one digit.
fn digit_str(d: usize) -> (s: &'static str)
    requires
        d < 10,
    ensures
        s@.len() == 1,
        s@[0] == dec_digit(d as int),
{
    proof {
        reveal_strlit("0");
        reveal_strlit("1");
        reveal_strlit("2");
        reveal_strlit("3");
        reveal_strlit("4");
        reveal_strlit("5");
        reveal_strlit("6");
        reveal_strlit("7");
        reveal_strlit("8");
        reveal_strlit("9");
    }
    match d {
        0 => "0",
        1 => "1",
        2 => "2",
        3 => "3",
        4 => "4",
        5 => "5",
        6 => "6",
        7 => "7",
        8 => "8",
        _ => "9",
    }
}

/// The decimal rendering of a number, as a string.
fn decimal_string(n: usize) -> (s: String)
    ensures
        s@ == dec_seq(n as int),
    decreases n,
{
    if n < 10 {
        let mut s = String::new();
        s.append(digit_str(n));
        proof {
            assert(s@ =~= dec_seq(n as int));
        }
        s
    } else {
        let mut s = decimal_string(n / 10);
        s.append(digit_str(n % 10));
        proof {
            assert(s@ =~= dec_seq(n as int));
        }
        s
    }
}

/// Renders each byte in decimal.
fn stringify(values: &Vec<u8>) -> (v: Vec<String>)
    ensures
        deep(v@) == decs(values@),
{
    let mut v: Vec<String> = Vec::new();
    let mut i: usize = 0;
    while i < values.len()
        invariant
            i <= values@.len(),
            v@.len() == i,
            forall|k: int| 0 <= k < i ==> #[trigger] v@[k]@ == dec_seq(values@[k] as int),
        decreases values@.len() - i,
    {
        v.push(decimal_string(values[i] as usize));
        i = i + 1;
    }
    proof {
        assert(deep(v@) =~~= decs(values@));
    }
    v
}

/// The three PPM header lines for this canvas, joined by newlines.
fn ppm_header(canvas: &Canvas) -> (s: String)
    ensures
        s@ == header_seq(canvas.dimensions.width as int, canvas.dimensions.height as int),
{
    let mut s = String::new();
    s.append("P3\n");
    let w = decimal_string(canvas.dimensions.width);
    s.append(w.as_str());
    s.append(" ");
    let h = decimal_string(canvas.dimensions.height);
    s.append(h.as_str());
    s.append("\n255");
    proof {
        reveal_strlit("P3\n");
        reveal_strlit(" ");
        reveal_strlit("\n255");
        assert(s@ =~= header_seq(
            canvas.dimensions.width as int,
            canvas.dimensions.height as int,
        ));
    }
    s
}

/// Appends the values, 15 to a line, to the given lines, and joins all
/// the lines with newlines.
fn chunk(source: Vec<String>, output: &mut Vec<String>) -> (s: String)
    ensures
        deep(final(output)@) == deep(old(output)@) + lines15(deep(source@)),
        s@ == join_with(deep(final(output)@), '\n'),
{
    let ghost src = deep(source@);
    let ghost base = deep(old(output)@);
    let n = source.len();
    proof {
        assert(src.skip(0) =~= src);
    }
    let mut i: usize = 0;
    while i < n
        invariant
            n == source@.len(),
            src == deep(source@),
            i <= n,
            deep(output@) + lines15(src.skip(i as int)) =~= base + lines15(src),
        decreases n - i,
    {
        let c = if n - i <= 15 {
            n - i
        } else {
            15
        };
        let mut line = String::new();
        line.append(source[i].as_str());
        let mut t: usize = 1;
        while t < c
            invariant
                n == source@.len(),
                src == deep(source@),
                i < n,
                c <= n - i,
                1 <= t <= c,
                line@ == join_with(src.subrange(i as int, i + t), ' '),
            decreases c - t,
        {
            line.append(" ");
            line.append(source[i + t].as_str());
            proof {
                reveal_strlit(" ");
                let part = src.subrange(i as int, i + t + 1);
                assert(part.drop_last() =~= src.subrange(i as int, i + t));
                assert(part.last() == src[i + t]);
                assert(join_with(part, ' ') == join_with(part.drop_last(), ' ').push(' ')
                    + part.last());
                assert(line@ =~= join_with(part.drop_last(), ' ').push(' ') + part.last());
            }
            t = t + 1;
        }
        let ghost rest = src.skip(i as int);
        let ghost prev = output@;
        output.push(line);
        proof {
            assert(line@ == join_with(src.subrange(i as int, i + c), ' '));
            assert(rest.len() == n - i);
            let cc = if rest.len() <= 15 {
                rest.len() as int
            } else {
                15int
            };
            assert(cc == c);
            assert(rest.take(cc) =~= src.subrange(i as int, i + c));
            assert(rest.skip(cc) =~= src.skip(i + c));
            assert(lines15(rest) == seq![join_with(rest.take(cc), ' ')] + lines15(rest.skip(cc)));
            assert(seq![line@] =~= seq![join_with(rest.take(cc), ' ')]);
            assert(deep(output@) =~= deep(prev).push(line@));
            assert(deep(prev).push(line@) + lines15(src.skip(i + c)) =~= deep(prev) + (seq![line@]
                + lines15(src.skip(i + c))));
            assert(deep(output@) + lines15(src.skip(i + c)) =~= base + lines15(src));
        }
        i = i + c;
    }
    proof {
        assert(src.skip(n as int) =~= Seq::<Seq<char>>::empty());
        assert(deep(output@) =~= base + lines15(src));
    }
    let mut s = String::new();
    let m = output.len();
    let mut j: usize = 0;
    while j < m
        invariant
            m == output@.len(),
            j <= m,
            s@ == join_with(deep(output@).take(j as int), '\n'),
            deep(output@) == base + lines15(src),
        decreases m - j,
    {
        if j != 0 {
            s.append("\n");
        }
        s.append(output[j].as_str());
        proof {
            reveal_strlit("\n");
            let part = deep(output@).take(j + 1);
            assert(part.drop_last() =~= deep(output@).take(j as int));
            assert(part.last() == output@[j as int]@);
            if j != 0 {
                assert(join_with(part, '\n') == join_with(part.drop_last(), '\n').push('\n')
                    + part.last());
                assert(s@ =~= join_with(part.drop_last(), '\n').push('\n') + part.last());
            } else {
                assert(part.len() == 1);
                assert(s@ =~= part[0]);
            }
        }
        j = j + 1;
    }
    proof {
        assert(deep(output@).take(m as int) =~= deep(output@));
    }
    s
}

/// Renders the header and the given value strings as one PPM text.
fn build_ppm(canvas: &Canvas, values: Vec<String>) -> (s: String)
    ensures
        s@ == header_seq(canvas.dimensions.width as int, canvas.dimensions.height as int)
            + nl_concat(lines15(deep(values@))) + seq!['\n'],
{
    let ghost vals_view = deep(values@);
    let mut image_data: Vec<String> = Vec::new();
    let header = ppm_header(canvas);
    let ghost header_view = header@;
    image_data.push(header);
    proof {
        assert(deep(image_data@) =~= seq![header_view]);
    }
    let mut result = chunk(values, &mut image_data);
    result.append("\n");
    proof {
        reveal_strlit("\n");
        assert(deep(image_data@) =~= seq![header_view] + lines15(vals_view));
        lemma_join_head(header_view, lines15(vals_view));
        assert(result@ =~= header_view + nl_concat(lines15(vals_view)) + seq!['\n']);
    }
    result
}

/// A black canvas of the given size.
pub fn canvas(width: usize, height: usize) -> (c: Canvas)
    requires
        width * height * 3 <= usize::MAX,
    ensures
        canvas_wf(&c),
        c.dimensions.width == width,
        c.dimensions.height == height,
        forall|i: int| 0 <= i < c.pixels@.len() ==> c.pixels@[i] == 0u8,
{
    let total: usize = width * height * 3;
    let mut pixels: Vec<u8> = Vec::new();
    let mut i: usize = 0;
    while i < total
        invariant
            i <= total,
            pixels@.len() == i,
            forall|k: int| 0 <= k < i ==> pixels@[k] == 0u8,
        decreases total - i,
    {
        pixels.push(0);
        i = i + 1;
    }
    Canvas { pixels, dimensions: Dimensions { width, height } }
}

impl Canvas {
    /// Height in pixels.
    pub fn height(&self) -> (h: usize)
        ensures
            h == self.dimensions.height,
    {
        self.dimensions.height
    }

    /// Width in pixels.
    pub fn width(&self) -> (w: usize)
        ensures
            w == self.dimensions.width,
    {
        self.dimensions.width
    }

    /// Whether (x, y) names a pixel of this canvas.
    pub fn within_bounds(&self, x: usize, y: usize) -> (b: bool)
        ensures
            b == (x < self.dimensions.width && y < self.dimensions.height),
    {
        x < self.dimensions.width && y < self.dimensions.height
    }

    /// Stores the three channel bytes of the pixel at (x, y).
    pub fn set_pixel(&mut self, x: usize, y: usize, red: u8, green: u8, blue: u8)
        requires
            canvas_wf(old(self)),
            x < old(self).dimensions.width,
            y < old(self).dimensions.height,
        ensures
            final(self).dimensions == old(self).dimensions,
            canvas_wf(final(self)),
            final(self).pixels@ == old(self).pixels@.update(
                (old(self).dimensions.width * y + x) * 3,
                red,
            ).update((old(self).dimensions.width * y + x) * 3 + 1, green).update(
                (old(self).dimensions.width * y + x) * 3 + 2,
                blue,
            ),
    {
        let w = self.dimensions.width;
        let h = self.dimensions.height;
        let plen = self.pixels.len();
        proof {
            assert(0 <= w * y && 0 <= w * h && w * y + x < w * h && (w * y + x) * 3 + 2 < w * h
                * 3) by (nonlinear_arith)
                requires
                    x < w,
                    y < h,
            ;
            assert(plen == w * h * 3);
        }
        let base = (w * y + x) * 3;
        self.pixels[base] = red;
        self.pixels[base + 1] = green;
        self.pixels[base + 2] = blue;
    }

    /// The three channel bytes of the pixel at (x, y).
    pub fn pixel_bytes(&self, x: usize, y: usize) -> (t: (u8, u8, u8))
        requires
            canvas_wf(self),
            x < self.dimensions.width,
            y < self.dimensions.height,
        ensures
            t.0 == self.pixels@[(self.dimensions.width * y + x) * 3int],
            t.1 == self.pixels@[(self.dimensions.width * y + x) * 3 + 1],
            t.2 == self.pixels@[(self.dimensions.width * y + x) * 3 + 2],
    {
        let w = self.dimensions.width;
        let h = self.dimensions.height;
        let plen = self.pixels.len();
        proof {
            assert(0 <= w * y && 0 <= w * h && w * y + x < w * h && (w * y + x) * 3 + 2 < w * h
                * 3) by (nonlinear_arith)
                requires
                    x < w,
                    y < h,
            ;
            assert(plen == w * h * 3);
        }
        let base = (w * y + x) * 3;
        (self.pixels[base], self.pixels[base + 1], self.pixels[base + 2])
    }

    /// The plain PPM text of this canvas.
    pub fn canvas_to_ppm(&self) -> (s: String)
        ensures
            s@ == ppm_spec(
                self.dimensions.width as int,
                self.dimensions.height as int,
                self.pixels@,
            ),
    {
        canvas_to_ppm(self)
    }
}

/// The plain PPM text of a canvas: header, pixel bytes in decimal 15
/// to a line, and a closing newline.
pub fn canvas_to_ppm(canvas: &Canvas) -> (s: String)
    ensures
        s@ == ppm_spec(
            canvas.dimensions.width as int,
            canvas.dimensions.height as int,
            canvas.pixels@,
        ),
{
    let values: Vec<String> = stringify(&canvas.pixels);
    build_ppm(canvas, values)
}

} // verus!
