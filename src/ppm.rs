use vstd::prelude::*;

verus! {

/// ASCII digit of a value below ten.
pub open spec fn digit(d: nat) -> u8 {
    (48 + d) as u8
}

/// Decimal digits of `n`, most significant first, without leading zeros.
pub open spec fn decimal(n: nat) -> Seq<u8>
    decreases n,
{
    if n < 10 {
        seq![digit(n)]
    } else {
        decimal(n / 10) + seq![digit(n % 10)]
    }
}

/// Bytes of a string literal.
pub open spec fn ascii(s: Seq<char>) -> Seq<u8> {
    s.map_values(|c: char| c as u8)
}

/// Text of one pixel: black where the orbit never escaped, otherwise red
/// with a green channel cycling in sixteen steps.
pub open spec fn pixel_text(max_iter: u32, v: u32) -> Seq<u8> {
    if v == max_iter {
        ascii("0 0 0 "@)
    } else {
        ascii("255 "@) + decimal(((v % 16) * 16) as nat) + ascii(" 0 "@)
    }
}

/// Text of the first `k` pixels of a raster `size` pixels wide, a line
/// break after each complete scanline.
pub open spec fn pixels_text(max_iter: u32, size: nat, image: Seq<u32>, k: nat) -> Seq<u8>
    decreases k,
{
    if k == 0 {
        Seq::empty()
    } else {
        let before = pixels_text(max_iter, size, image, (k - 1) as nat) + pixel_text(
            max_iter,
            image[k - 1],
        );
        if k % size == 0 {
            before + seq![10u8]
        } else {
            before
        }
    }
}

/// The whole PPM file: the header, a comment naming `max_iter`, the caller's
/// extra comment lines, the dimensions, the colour depth and the pixels.
pub open spec fn ppm_text(max_iter: u32, size: u32, image: Seq<u32>, comment: Seq<u8>) -> Seq<u8> {
    ascii("P3\n# mandelbrot, max_iter: "@) + decimal(max_iter as nat) + seq![10u8] + comment
        + decimal(size as nat) + seq![32u8] + decimal(size as nat) + seq![10u8] + ascii("255\n"@)
        + pixels_text(max_iter, size as nat, image, image.len())
}

/// Appends the decimal digits of `n`.
pub fn push_decimal(out: &mut Vec<u8>, n: u32)
    ensures
        final(out)@ == old(out)@ + decimal(n as nat),
    decreases n,
{
    if n >= 10 {
        push_decimal(out, n / 10);
    }
    out.push(48u8 + (n % 10) as u8);
}

/// Appends the bytes of `s`.
fn push_ascii(out: &mut Vec<u8>, s: &str)
    requires
        s.is_ascii(),
    ensures
        final(out)@ == old(out)@ + ascii(s@),
{
    let bytes = s.as_bytes();
    let mut i: usize = 0;
    let ghost start = out@;
    proof {
        assert(ascii(s@).len() == s@.len());
    }
    while i < bytes.len()
        invariant
            bytes@ == ascii(s@),
            i <= bytes@.len(),
            out@ == start + bytes@.subrange(0, i as int),
        decreases bytes@.len() - i,
    {
        out.push(bytes[i]);
        proof {
            assert(bytes@.subrange(0, i + 1) == bytes@.subrange(0, i as int) + seq![bytes@[i as int]]);
        }
        i = i + 1;
    }
    proof {
        assert(bytes@.subrange(0, bytes@.len() as int) == bytes@);
    }
}

/// Appends the text of one pixel.
pub fn push_pixel(out: &mut Vec<u8>, max_iter: u32, v: u32)
    ensures
        final(out)@ == old(out)@ + pixel_text(max_iter, v),
{
    if v == max_iter {
        proof { reveal_strlit("0 0 0 "); }
        push_ascii(out, "0 0 0 ");
    } else {
        proof { reveal_strlit("255 "); reveal_strlit(" 0 "); }
        push_ascii(out, "255 ");
        push_decimal(out, (v % 16) * 16);
        push_ascii(out, " 0 ");
        proof {
            assert(out@ == old(out)@ + pixel_text(max_iter, v));
        }
    }
}

/// Encodes the raster as PPM text. `comment` holds extra comment lines
/// (each starting with `#` and ending in a line break), or nothing.
pub fn encode_ppm(max_iter: u32, size: u32, image: &Vec<u32>, comment: &Vec<u8>) -> (r: Vec<u8>)
    requires
        size > 0,
    ensures
        r@ == ppm_text(max_iter, size, image@, comment@),
{
    let mut out: Vec<u8> = Vec::new();
    proof { reveal_strlit("P3\n# mandelbrot, max_iter: "); reveal_strlit("255\n"); }
    push_ascii(&mut out, "P3\n# mandelbrot, max_iter: ");
    push_decimal(&mut out, max_iter);
    out.push(10u8);
    let mut extra = comment.clone();
    out.append(&mut extra);
    push_decimal(&mut out, size);
    out.push(32u8);
    push_decimal(&mut out, size);
    out.push(10u8);
    push_ascii(&mut out, "255\n");
    let ghost header = out@;
    let n = image.len();
    let mut k: usize = 0;
    while k < n
        invariant
            n == image@.len(),
            size > 0,
            k <= n,
            out@ == header + pixels_text(max_iter, size as nat, image@, k as nat),
        decreases n - k,
    {
        push_pixel(&mut out, max_iter, image[k]);
        if (k + 1) % (size as usize) == 0 {
            out.push(10u8);
        }
        proof {
            let next = (k + 1) as nat;
            let prev = pixels_text(max_iter, size as nat, image@, k as nat);
            let cell = pixel_text(max_iter, image@[k as int]);
            assert(pixels_text(max_iter, size as nat, image@, next) == if next % (size as nat) == 0 {
                prev + cell + seq![10u8]
            } else {
                prev + cell
            });
            assert(header + prev + cell == header + (prev + cell));
            assert(header + (prev + cell) + seq![10u8] == header + (prev + cell + seq![10u8]));
        }
        k = k + 1;
    }
    out
}

} // verus!
