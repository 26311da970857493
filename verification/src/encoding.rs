//! Image payloads: Base64 `data:` URIs and PNG encoding of icon pixels.

use base64::Engine;
use vstd::prelude::*;

verus! {

/// The Base64 digit of a 6-bit value, in the standard alphabet of RFC 4648
/// (`A`-`Z`, `a`-`z`, `0`-`9`, `+`, `/`).
pub open spec fn base64_digit(v: int) -> char {
    if v < 26 {
        (65 + v) as char
    } else if v < 52 {
        (97 + v - 26) as char
    } else if v < 62 {
        (48 + v - 52) as char
    } else if v == 62 {
        '+'
    } else {
        '/'
    }
}

/// Standard Base64 with padding (RFC 4648): each group of three bytes gives
/// four digits; a final group of one or two bytes is filled with zero bits
/// and padded with `=` to four characters.
pub open spec fn base64_standard(data: Seq<u8>) -> Seq<char>
    decreases data.len(),
{
    if data.len() == 0 {
        seq![]
    } else {
        let b0 = data[0] as int;
        let b1 = if data.len() > 1 { data[1] as int } else { 0 };
        let b2 = if data.len() > 2 { data[2] as int } else { 0 };
        let c0 = base64_digit(b0 / 4);
        let c1 = base64_digit((b0 % 4) * 16 + b1 / 16);
        let c2 = if data.len() > 1 { base64_digit((b1 % 16) * 4 + b2 / 64) } else { '=' };
        let c3 = if data.len() > 2 { base64_digit(b2 % 64) } else { '=' };
        seq![c0, c1, c2, c3] + if data.len() > 3 {
            base64_standard(data.skip(3))
        } else {
            seq![]
        }
    }
}

/// The Base64 text is four characters for every started group of three
/// bytes, and every character is a digit of the standard alphabet or `=`.
pub proof fn lemma_base64_shape(data: Seq<u8>)
    ensures
        base64_standard(data).len() == 4 * ((data.len() + 2) / 3),
        forall|i: int|
            0 <= i < base64_standard(data).len() ==> ({
                let c = #[trigger] base64_standard(data)[i];
                ('A' <= c && c <= 'Z') || ('a' <= c && c <= 'z') || ('0' <= c && c <= '9') || c == '+'
                    || c == '/' || c == '='
            }),
    decreases data.len(),
{
    assert forall|v: int| 0 <= v < 64 implies ({
        let c = #[trigger] base64_digit(v);
        ('A' <= c && c <= 'Z') || ('a' <= c && c <= 'z') || ('0' <= c && c <= '9') || c == '+' || c == '/'
    }) by {}
    if data.len() > 3 {
        lemma_base64_shape(data.skip(3));
        assert(4 * ((data.len() + 2) / 3) == 4 + 4 * ((data.skip(3).len() + 2) / 3)) by (nonlinear_arith)
            requires
                data.skip(3).len() == data.len() - 3,
                data.len() > 3,
        ;
    }
    if data.len() > 0 {
        let b0 = data[0] as int;
        let b1 = if data.len() > 1 { data[1] as int } else { 0 };
        let b2 = if data.len() > 2 { data[2] as int } else { 0 };
        assert(0 <= b0 / 4 < 64);
        assert(0 <= (b0 % 4) * 16 + b1 / 16 < 64);
        assert(0 <= (b1 % 16) * 4 + b2 / 64 < 64);
        assert(0 <= b2 % 64 < 64);
    }
}

/// Calls `base64::engine::general_purpose::STANDARD.encode`, the engine with
/// the standard alphabet and padding; the claim is that it writes
/// `base64_standard` of the bytes.  The length bound is that of every
/// slice; beyond it the crate panics on the size computation.
#[verifier::external_body]
fn base64_encode(data: &[u8]) -> (r: String)
    requires
        data@.len() <= isize::MAX,
    ensures
        r@ == base64_standard(data@),
{
    base64::engine::general_purpose::STANDARD.encode(data)
}

/// The `data:` URI of an image of the given MIME subtype.
pub open spec fn data_uri(mime: Seq<char>, data: Seq<u8>) -> Seq<char> {
    "data:image/"@ + mime + ";base64,"@ + base64_standard(data)
}

/// A `data:` URI, stated on its parts: `data:image/`, the MIME subtype,
/// `;base64,` and the Base64 text of the bytes.
pub proof fn lemma_data_uri_law(mime: Seq<char>, data: Seq<u8>)
    ensures
        data_uri(mime, data) == "data:image/"@ + mime + ";base64,"@ + base64_standard(data),
{
}

/// `data:image/{mime};base64,{data in Base64}`.
pub fn image_data_uri(mime: &str, data: &[u8]) -> (r: String)
    requires
        data@.len() <= isize::MAX,
    ensures
        r@ == data_uri(mime@, data@),
{
    let mut r = String::from_str("data:image/");
    r.append(mime);
    r.append(";base64,");
    let b = base64_encode(data);
    r.append(b.as_str());
    r
}

/// Some pixel of the 32-bit buffer has a non-zero alpha byte.
pub open spec fn any_alpha(buf: Seq<u8>) -> bool {
    exists|p: int| 0 <= p < buf.len() / 4 && #[trigger] buf[4 * p + 3] != 0
}

/// Byte `i` of the RGBA buffer made from the BGRA buffer `buf`: red and blue
/// swapped, alpha kept when any pixel has alpha and opaque otherwise; bytes
/// of a trailing partial pixel are zero.
pub open spec fn rgba_byte(buf: Seq<u8>, i: int) -> u8 {
    let p = i / 4;
    let k = i % 4;
    if p >= buf.len() / 4 {
        0
    } else if k == 0 {
        buf[4 * p + 2]
    } else if k == 1 {
        buf[4 * p + 1]
    } else if k == 2 {
        buf[4 * p]
    } else if any_alpha(buf) {
        buf[4 * p + 3]
    } else {
        255
    }
}

/// The RGBA buffer made from the BGRA buffer `buf`.
pub open spec fn rgba_of_bgra(buf: Seq<u8>) -> Seq<u8> {
    Seq::new(buf.len(), |i: int| rgba_byte(buf, i))
}

proof fn lemma_pixel_index(q: int, k: int)
    requires
        0 <= q,
        0 <= k < 4,
    ensures
        (4 * q + k) / 4 == q,
        (4 * q + k) % 4 == k,
{
    assert((4 * q + k) / 4 == q && (4 * q + k) % 4 == k) by (nonlinear_arith)
        requires
            0 <= q,
            0 <= k < 4,
    ;
}

/// The BGRA to RGBA conversion, stated on the pixels: red and blue swap and
/// green stays in every complete pixel; when any complete pixel has a
/// non-zero alpha, every alpha is kept; when none has, every pixel becomes
/// opaque; the bytes of a trailing partial pixel are zero.
pub proof fn lemma_rgba_law(buf: Seq<u8>)
    ensures
        rgba_of_bgra(buf).len() == buf.len(),
        forall|q: int|
            0 <= q < buf.len() / 4 ==> #[trigger] rgba_of_bgra(buf)[4 * q] == buf[4 * q + 2]
                && rgba_of_bgra(buf)[4 * q + 1] == buf[4 * q + 1] && rgba_of_bgra(buf)[4 * q + 2]
                == buf[4 * q],
        forall|p: int, q: int|
            0 <= p < buf.len() / 4 && 0 <= q < buf.len() / 4 && #[trigger] buf[4 * p + 3] != 0
                ==> #[trigger] rgba_of_bgra(buf)[4 * q + 3] == buf[4 * q + 3],
        (forall|p: int| 0 <= p < buf.len() / 4 ==> #[trigger] buf[4 * p + 3] == 0) ==> forall|q: int|
            0 <= q < buf.len() / 4 ==> #[trigger] rgba_of_bgra(buf)[4 * q + 3] == 255,
        forall|i: int| 4 * (buf.len() / 4) <= i < buf.len() ==> #[trigger] rgba_of_bgra(buf)[i] == 0,
{
    let out = rgba_of_bgra(buf);
    let n = buf.len() / 4;
    assert forall|q: int| 0 <= q < n implies #[trigger] out[4 * q] == buf[4 * q + 2] && out[4 * q + 1]
        == buf[4 * q + 1] && out[4 * q + 2] == buf[4 * q] by {
        lemma_pixel_index(q, 0);
        lemma_pixel_index(q, 1);
        lemma_pixel_index(q, 2);
        lemma_pixel_index(q, 3);
    }
    assert forall|p: int, q: int|
        0 <= p < n && 0 <= q < n && #[trigger] buf[4 * p + 3] != 0 implies #[trigger] out[4 * q + 3]
        == buf[4 * q + 3] by {
        lemma_pixel_index(q, 3);
        assert(any_alpha(buf));
    }
    if forall|p: int| 0 <= p < n ==> #[trigger] buf[4 * p + 3] == 0 {
        assert(!any_alpha(buf));
        assert forall|q: int| 0 <= q < n implies #[trigger] out[4 * q + 3] == 255 by {
            lemma_pixel_index(q, 3);
        }
    }
    assert forall|i: int| 4 * n <= i < buf.len() implies #[trigger] out[i] == 0 by {
        assert(i / 4 >= n) by (nonlinear_arith)
            requires
                4 * n <= i,
        ;
    }
}

fn has_alpha(buf: &[u8]) -> (r: bool)
    ensures
        r == any_alpha(buf@),
{
    let n = buf.len();
    let pixels = n / 4;
    let mut p: usize = 0;
    while p < pixels
        invariant
            n == buf@.len(),
            pixels == n / 4,
            p <= pixels,
            forall|q: int| 0 <= q < p ==> #[trigger] buf@[4 * q + 3] == 0,
        decreases pixels - p,
    {
        assert(4 * p + 3 < n);
        if buf[4 * p + 3] != 0 {
            return true;
        }
        p = p + 1;
    }
    false
}

/// Converts a 32-bit BGRA pixel buffer to RGBA.
pub fn bgra_to_rgba(buf: &[u8]) -> (r: Vec<u8>)
    ensures
        r@ == rgba_of_bgra(buf@),
        r@.len() == buf@.len(),
        forall|p: int, q: int|
            0 <= p < buf@.len() / 4 && 0 <= q < buf@.len() / 4 && #[trigger] buf@[4 * p + 3] != 0
                ==> #[trigger] r@[4 * q + 3] == buf@[4 * q + 3],
        (forall|p: int| 0 <= p < buf@.len() / 4 ==> #[trigger] buf@[4 * p + 3] == 0) ==> forall|
            q: int,
        | 0 <= q < buf@.len() / 4 ==> #[trigger] r@[4 * q + 3] == 255,
{
    proof {
        lemma_rgba_law(buf@);
    }
    let n = buf.len();
    let alpha = has_alpha(buf);
    let pixels = n / 4;
    let mut out: Vec<u8> = Vec::new();
    let mut p: usize = 0;
    while p < pixels
        invariant
            n == buf@.len(),
            pixels == n / 4,
            alpha == any_alpha(buf@),
            p <= pixels,
            out@.len() == 4 * p,
            forall|i: int| 0 <= i < 4 * p ==> out@[i] == #[trigger] rgba_byte(buf@, i),
        decreases pixels - p,
    {
        assert(4 * p + 3 < n);
        let a = if alpha {
            buf[4 * p + 3]
        } else {
            255
        };
        out.push(buf[4 * p + 2]);
        out.push(buf[4 * p + 1]);
        out.push(buf[4 * p]);
        out.push(a);
        proof {
            assert forall|i: int| 0 <= i < 4 * (p + 1) implies out@[i] == #[trigger] rgba_byte(buf@, i) by {
                if i >= 4 * p {
                    assert(i / 4 == p as int);
                }
            }
        }
        p = p + 1;
    }
    while out.len() < n
        invariant
            n == buf@.len(),
            pixels == n / 4,
            4 * pixels <= out@.len() <= n,
            forall|i: int| 0 <= i < out@.len() ==> out@[i] == #[trigger] rgba_byte(buf@, i),
        decreases n - out@.len(),
    {
        let ghost i = out@.len() as int;
        assert(i / 4 >= pixels);
        out.push(0);
    }
    assert(out@ =~= rgba_of_bgra(buf@));
    out
}

/// What the `png` crate's encoder writes for an 8-bit RGBA image of the
/// given size and pixels, or `None` when it refuses them.
pub uninterp spec fn png_rgba8(width: u32, height: u32, rgba: Seq<u8>) -> Option<Seq<u8>>;

/// Encodes with `png::Encoder` (`ColorType::Rgba`, `BitDepth::Eight`,
/// `write_header`, `write_image_data`, the writer's drop adding the end
/// chunk).  The claim is that the outcome is a function of the arguments,
/// named `png_rgba8`, and that it succeeds exactly when both sides are
/// positive: the encoder refuses only a zero width or height, the buffer
/// holds exactly the pixels (so its size check passes and its size
/// computation cannot overflow), and writing into a `Vec` cannot fail.
#[verifier::external_body]
fn encode_png_rgba8(width: u32, height: u32, rgba: &[u8]) -> (r: Option<Vec<u8>>)
    requires
        rgba@.len() == width * height * 4,
    ensures
        match r {
            Some(v) => png_rgba8(width, height, rgba@) == Some(v@),
            None => png_rgba8(width, height, rgba@) is None,
        },
        r is Some <==> (width > 0 && height > 0),
{
    let mut out = Vec::new();
    {
        let mut encoder = png::Encoder::new(&mut out, width, height);
        encoder.set_color(png::ColorType::Rgba);
        encoder.set_depth(png::BitDepth::Eight);
        let mut writer = encoder.write_header().ok()?;
        writer.write_image_data(rgba).ok()?;
    }
    Some(out)
}

/// PNG bytes of an icon whose pixels are given top-down in BGRA order.
pub fn icon_png(width: u32, height: u32, bgra: &[u8]) -> (r: Option<Vec<u8>>)
    requires
        bgra@.len() == width * height * 4,
    ensures
        match r {
            Some(v) => png_rgba8(width, height, rgba_of_bgra(bgra@)) == Some(v@),
            None => png_rgba8(width, height, rgba_of_bgra(bgra@)) is None,
        },
        r is Some <==> (width > 0 && height > 0),
{
    let rgba = bgra_to_rgba(bgra);
    encode_png_rgba8(width, height, &rgba)
}

/// The `data:` URI shown for an executable's icon: the PNG when it holds
/// more than 16 bytes.
pub fn exe_icon_data_uri(png: Option<Vec<u8>>) -> (r: Option<String>)
    requires
        png matches Some(b) ==> b@.len() <= isize::MAX,
    ensures
        match png {
            Some(b) if b@.len() > 16 => r matches Some(s) && s@ == data_uri("png"@, b@),
            _ => r is None,
        },
{
    match png {
        Some(bytes) => {
            if bytes.len() > 16 {
                let r = image_data_uri("png", &bytes);
                Some(r)
            } else {
                None
            }
        },
        None => None,
    }
}


/// Every `data:` URI built here names an image and declares Base64.
pub proof fn lemma_data_uri_shape(mime: Seq<char>, data: Seq<u8>)
    ensures
        crate::text::starts_with(data_uri(mime, data), "data:image/"@),
        crate::text::contains(data_uri(mime, data), ";base64,"@),
{
    let u = data_uri(mime, data);
    let pre = "data:image/"@;
    assert(u.subrange(0, pre.len() as int) =~= pre);
    let k: int = (pre.len() + mime.len()) as int;
    assert(u.subrange(k, k + ";base64,"@.len() as int) =~= ";base64,"@);
    assert(crate::text::occurs_at(u, ";base64,"@, k));
}

} // verus!
