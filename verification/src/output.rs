//! Image output encoding: binary PGM and base64.
//!
//! The PGM writer and reader are proved inverse to each other: decoding a
//! written image gives back exactly the dimensions and pixels that went in,
//! and re-encoding reproduces the bytes. The base64 step relies on the
//! outside encoder and is therefore only named, not defined, here.

use vstd::prelude::*;
use vstd::string::StringExecFns;

use crate::errors::Error;
use crate::render::Image;

verus! {

/// ASCII decimal digits of a non-negative number, most significant first,
/// with no leading zeros.
pub open spec fn decimal_digits(n: int) -> Seq<u8>
    recommends
        n >= 0,
    decreases n,
{
    if n < 10 {
        seq![(0x30 + n) as u8]
    } else {
        decimal_digits(n / 10).push((0x30 + n % 10) as u8)
    }
}

/// The numeric value of a sequence of ASCII digits.
pub open spec fn digits_value(d: Seq<u8>) -> int
    decreases d.len(),
{
    if d.len() == 0 {
        0
    } else {
        digits_value(d.drop_last()) * 10 + (d.last() - 0x30)
    }
}

/// A byte is an ASCII digit.
pub open spec fn is_digit(b: u8) -> bool {
    0x30 <= b <= 0x39
}

/// A canonical digit string: non-empty, all digits, no leading zero unless
/// it is the single digit zero.
pub open spec fn canonical_digits(d: Seq<u8>) -> bool {
    &&& d.len() >= 1
    &&& forall|i: int| 0 <= i < d.len() ==> is_digit(#[trigger] d[i])
    &&& (d.len() > 1 ==> d[0] != 0x30)
}

/// The digits of a non-negative number are canonical, and of a positive
/// number start above zero.
pub proof fn lemma_decimal_digits_canonical(n: int)
    requires
        n >= 0,
    ensures
        canonical_digits(decimal_digits(n)),
        n >= 1 ==> decimal_digits(n)[0] != 0x30,
        n < 10 ==> decimal_digits(n).len() == 1,
        n >= 10 ==> decimal_digits(n).len() > 1,
    decreases n,
{
    if n >= 10 {
        lemma_decimal_digits_canonical(n / 10);
        let prefix = decimal_digits(n / 10);
        let whole = decimal_digits(n);
        assert(whole == prefix.push((0x30 + n % 10) as u8));
        assert(n / 10 >= 1);
        assert(forall|i: int| 0 <= i < whole.len() ==> is_digit(#[trigger] whole[i])) by {
            assert(forall|i: int|
                0 <= i < prefix.len() ==> whole[i] == #[trigger] prefix[i]);
        }
    }
}

/// Reading back the digits of a number yields the number.
pub proof fn lemma_digits_value_inverse(n: int)
    requires
        n >= 0,
    ensures
        digits_value(decimal_digits(n)) == n,
    decreases n,
{
    if n < 10 {
        assert(digits_value(Seq::<u8>::empty()) == 0);
        assert(decimal_digits(n).drop_last() =~= Seq::<u8>::empty());
        assert(decimal_digits(n).last() == (0x30 + n) as u8);
        assert(((0x30 + n) as u8) == 0x30 + n);
    } else {
        lemma_digits_value_inverse(n / 10);
        assert(decimal_digits(n).drop_last() =~= decimal_digits(n / 10));
        assert(0 <= n % 10 < 10);
        assert(((0x30 + n % 10) as u8) == 0x30 + n % 10);
        assert(decimal_digits(n).last() == (0x30 + n % 10) as u8);
        vstd::arithmetic::div_mod::lemma_fundamental_div_mod(n, 10);
        assert(digits_value(decimal_digits(n)) == (n / 10) * 10 + n % 10);
    }
}

/// The value of a canonical digit string with a leading digit above zero is
/// at least one.
proof fn lemma_digits_value_positive(d: Seq<u8>)
    requires
        canonical_digits(d),
        d[0] != 0x30,
    ensures
        digits_value(d) >= 1,
        digits_value(d) >= 0,
    decreases d.len(),
{
    if d.len() == 1 {
        assert(digits_value(Seq::<u8>::empty()) == 0);
        assert(d.drop_last() =~= Seq::<u8>::empty());
        assert(digits_value(d) == d[0] - 0x30);
        assert(is_digit(d[0]));
    } else {
        let prefix = d.drop_last();
        assert(canonical_digits(prefix)) by {
            assert(forall|i: int|
                0 <= i < prefix.len() ==> prefix[i] == #[trigger] d[i] && is_digit(d[i]));
        }
        lemma_digits_value_positive(prefix);
        assert(is_digit(d.last()));
    }
}

/// The value of any digit string is non-negative.
proof fn lemma_digits_value_nonneg(d: Seq<u8>)
    requires
        forall|i: int| 0 <= i < d.len() ==> is_digit(#[trigger] d[i]),
    ensures
        digits_value(d) >= 0,
    decreases d.len(),
{
    if d.len() > 0 {
        lemma_digits_value_nonneg(d.drop_last());
    }
}

/// A canonical digit string is the decimal encoding of its own value.
pub proof fn lemma_canonical_digits_unique(d: Seq<u8>)
    requires
        canonical_digits(d),
    ensures
        decimal_digits(digits_value(d)) == d,
    decreases d.len(),
{
    if d.len() == 1 {
        assert(digits_value(Seq::<u8>::empty()) == 0);
        assert(d.drop_last() =~= Seq::<u8>::empty());
        assert(digits_value(d) == d[0] - 0x30);
        assert(is_digit(d[0]));
        assert(decimal_digits(digits_value(d)) =~= d);
    } else {
        let prefix = d.drop_last();
        assert(canonical_digits(prefix)) by {
            assert(forall|i: int|
                0 <= i < prefix.len() ==> prefix[i] == #[trigger] d[i] && is_digit(d[i]));
        }
        lemma_canonical_digits_unique(prefix);
        lemma_digits_value_positive(prefix);
        let n = digits_value(d);
        assert(n == digits_value(prefix) * 10 + (d.last() - 0x30));
        assert(n / 10 == digits_value(prefix) && n % 10 == d.last() - 0x30) by (nonlinear_arith)
            requires
                n == digits_value(prefix) * 10 + (d.last() - 0x30),
                0 <= d.last() - 0x30 < 10,
                digits_value(prefix) >= 0,
        ;
        assert(n >= 10) by (nonlinear_arith)
            requires
                n == digits_value(prefix) * 10 + (d.last() - 0x30),
                digits_value(prefix) >= 1,
                d.last() - 0x30 >= 0,
        ;
        assert(decimal_digits(n) == decimal_digits(n / 10).push((0x30 + n % 10) as u8));
        assert(decimal_digits(n) =~= d);
    }
}


/// The value of a digit string never falls when more digits are appended.
proof fn lemma_digits_value_take_monotone(d: Seq<u8>, m: int)
    requires
        forall|i: int| 0 <= i < d.len() ==> is_digit(#[trigger] d[i]),
        0 <= m <= d.len(),
    ensures
        digits_value(d.take(m)) <= digits_value(d),
    decreases d.len() - m,
{
    if m == d.len() {
        assert(d.take(m) =~= d);
    } else {
        lemma_digits_value_nonneg(d.take(m + 1));
        lemma_digits_value_take_monotone(d, m + 1);
        assert(d.take(m + 1).drop_last() =~= d.take(m));
        assert(digits_value(d.take(m + 1)) == digits_value(d.take(m)) * 10 + (d[m] - 0x30));
        lemma_digits_value_nonneg(d.take(m));
        assert(digits_value(d.take(m)) <= digits_value(d.take(m)) * 10 + (d[m] - 0x30))
            by (nonlinear_arith)
            requires
                digits_value(d.take(m)) >= 0 && d[m] - 0x30 >= 0,
        ;
    }
}

/// How the pieces of a PGM encoding sit inside the whole: the magic bytes,
/// the two canonical digit runs with their terminators, the maxval line, and
/// the pixel payload.
proof fn lemma_pgm_layout(s: Seq<u8>, w: u32, h: u32, p: Seq<u8>)
    requires
        encodes_pgm(s, w, h, p),
    ensures
        ({
            let dw = decimal_digits(w as int).len() as int;
            let dh = decimal_digits(h as int).len() as int;
            &&& canonical_digits(decimal_digits(w as int))
            &&& canonical_digits(decimal_digits(h as int))
            &&& digits_value(decimal_digits(w as int)) == w
            &&& digits_value(decimal_digits(h as int)) == h
            &&& s.len() == 9 + dw + dh + p.len()
            &&& s[0] == 0x50
            &&& s[1] == 0x35
            &&& s[2] == 0x0A
            &&& s.subrange(3, 3 + dw) == decimal_digits(w as int)
            &&& s[3 + dw] == 0x20
            &&& s.subrange(4 + dw, 4 + dw + dh) == decimal_digits(h as int)
            &&& s[4 + dw + dh] == 0x0A
            &&& s[5 + dw + dh] == 0x32
            &&& s[6 + dw + dh] == 0x35
            &&& s[7 + dw + dh] == 0x35
            &&& s[8 + dw + dh] == 0x0A
            &&& s.subrange(9 + dw + dh, s.len() as int) == p
        }),
{
    lemma_decimal_digits_canonical(w as int);
    lemma_decimal_digits_canonical(h as int);
    lemma_digits_value_inverse(w as int);
    lemma_digits_value_inverse(h as int);
    let dw = decimal_digits(w as int).len() as int;
    let dh = decimal_digits(h as int).len() as int;
    assert(s.subrange(3, 3 + dw) =~= decimal_digits(w as int));
    assert(s.subrange(4 + dw, 4 + dw + dh) =~= decimal_digits(h as int));
    assert(s.subrange(9 + dw + dh, s.len() as int) =~= p);
}

/// A scanned canonical run and a known canonical run at the same start with
/// the same terminator are the same run, so the scanned value is pinned.
proof fn lemma_pin_run(s: Seq<u8>, start: int, e: int, dspec: Seq<u8>, term: u8)
    requires
        !is_digit(term),
        0 <= start,
        start + 2 <= e <= s.len(),
        canonical_digits(s.subrange(start, e - 1)),
        s[e - 1] == term,
        canonical_digits(dspec),
        start + dspec.len() < s.len(),
        s.subrange(start, start + dspec.len() as int) == dspec,
        s[start + dspec.len()] == term,
    ensures
        e == start + dspec.len() + 1,
        s.subrange(start, e - 1) == dspec,
        digits_value(s.subrange(start, e - 1)) == digits_value(dspec),
{
    lemma_digit_run_unique(s, start, s.subrange(start, e - 1), dspec);
}

/// Scan a canonical decimal number from `start` up to a terminator byte.
/// On success the scanned span is exactly the canonical digits of the
/// returned value, followed by the terminator; and whenever the bytes at
/// `start` are the canonical digits of a number up to 10000 followed by the
/// terminator, the scan succeeds with exactly that reading.
fn parse_number(data: &Vec<u8>, start: usize, term: u8) -> (r: Option<(u32, usize)>)
    requires
        start <= data@.len(),
        !is_digit(term),
    ensures
        r matches Some((v, end)) ==> ({
            &&& start + 2 <= end <= data@.len()
            &&& canonical_digits(data@.subrange(start as int, end - 1))
            &&& data@[end - 1] == term
            &&& v == digits_value(data@.subrange(start as int, end - 1))
            &&& v <= 10000
        }),
        forall|d: Seq<u8>|
            canonical_digits(d) && digits_value(d) <= 10000 && start + d.len() + 1 <= data@.len()
                && #[trigger] data@.subrange(start as int, start + d.len()) == d && data@[start
                + d.len()] == term ==> (r matches Some((v, end)) && v == digits_value(d) && end
                == start + d.len() + 1),
{
    let n = data.len();
    let ghost s = data@;
    let mut v: u32 = 0;
    let mut k = start;
    loop
        invariant
            start <= k <= n,
            n == s.len(),
            s == data@,
            start <= data@.len(),
            !is_digit(term),
            forall|i: int| start <= i < k ==> is_digit(#[trigger] s[i]),
            v == digits_value(s.subrange(start as int, k as int)),
            v <= 10000,
        decreases n - k,
    {
        if k >= n {
            // Ran off the end without meeting the terminator.
            proof {
                assert forall|d: Seq<u8>|
                    canonical_digits(d) && digits_value(d) <= 10000 && start + d.len() + 1
                        <= s.len() && s.subrange(start as int, start + d.len()) == d && s[start
                        + d.len()] == term implies false by {
                    assert(is_digit(s[start + d.len()]));
                }
            }
            return None;
        }
        let b = data[k];
        if 0x30 <= b && b <= 0x39 {
            proof {
                assert(s.subrange(start as int, k as int + 1).drop_last() =~= s.subrange(
                    start as int,
                    k as int,
                ));
            }
            let next: u32 = v * 10 + ((b - 0x30) as u32);
            if next > 10000 {
                // Any canonical reading covering this span would exceed the cap.
                proof {
                    assert forall|d: Seq<u8>|
                        canonical_digits(d) && digits_value(d) <= 10000 && start + d.len() + 1
                            <= s.len() && s.subrange(start as int, start + d.len()) == d && s[start
                            + d.len()] == term implies false by {
                        if start + d.len() <= k {
                            assert(is_digit(s[start + d.len()]));
                        } else {
                            let full = s.subrange(start as int, start + d.len());
                            assert(full.take(k + 1 - start) =~= s.subrange(
                                start as int,
                                k as int + 1,
                            ));
                            lemma_digits_value_take_monotone(full, k + 1 - start);
                        }
                    }
                }
                return None;
            }
            v = next;
            k = k + 1;
        } else {
            if b != term || k == start || (k > start + 1 && data[start] == 0x30) {
                proof {
                    assert forall|d: Seq<u8>|
                        canonical_digits(d) && digits_value(d) <= 10000 && start + d.len() + 1
                            <= s.len() && s.subrange(start as int, start + d.len()) == d && s[start
                            + d.len()] == term implies false by {
                        assert(forall|i: int|
                            0 <= i < d.len() ==> d[i] == #[trigger] s[start + i]);
                        if start + d.len() < k {
                            assert(s[start + d.len()] == term && is_digit(s[start + d.len()]));
                        } else if start + d.len() > k {
                            assert(is_digit(d[k - start]) && s[k as int] == d[k - start]);
                        } else {
                            // d ends exactly at the non-digit byte we found.
                            assert(s[k as int] == term);
                            assert(d.len() == k - start);
                            if k > start + 1 {
                                assert(d[0] == s[start as int]);
                            }
                        }
                    }
                }
                return None;
            }
            // Success: the scanned span is canonical and v is its value.
            proof {
                let span = s.subrange(start as int, k as int);
                assert(canonical_digits(span));
                assert forall|d: Seq<u8>|
                    canonical_digits(d) && digits_value(d) <= 10000 && start + d.len() + 1
                        <= s.len() && s.subrange(start as int, start + d.len()) == d && s[start
                        + d.len()] == term implies d.len() == k - start by {
                    assert(forall|i: int| 0 <= i < d.len() ==> d[i] == #[trigger] s[start + i]);
                    if start + d.len() < k {
                        assert(s[start + d.len()] == term && is_digit(s[start + d.len()]));
                    } else if start + d.len() > k {
                        assert(is_digit(d[k - start]) && s[k as int] == d[k - start]);
                    }
                }
                assert forall|d: Seq<u8>|
                    canonical_digits(d) && digits_value(d) <= 10000 && start + d.len() + 1
                        <= s.len() && s.subrange(start as int, start + d.len()) == d && s[start
                        + d.len()] == term implies d == span && digits_value(d) == v as int by {
                    assert(d.len() == k - start);
                    assert(d =~= span);
                }
            }
            return Some((v, k + 1));
        }
    }
}

/// The fixed three-byte header `P5\n`.
pub open spec fn pgm_magic() -> Seq<u8> {
    seq![0x50u8, 0x35u8, 0x0Au8]
}

/// The five bytes between the height digits and the pixel data:
/// `\n255\n`.
pub open spec fn pgm_maxval() -> Seq<u8> {
    seq![0x0Au8, 0x32u8, 0x35u8, 0x35u8, 0x0Au8]
}

/// The binary PGM encoding of a canvas: `P5\n<W> <H>\n255\n` followed by
/// the row-major pixel bytes.
pub open spec fn pgm_bytes(w: u32, h: u32, p: Seq<u8>) -> Seq<u8> {
    pgm_magic() + decimal_digits(w as int) + seq![0x20u8] + decimal_digits(h as int) + pgm_maxval()
        + p
}

/// Append the decimal digits of a number to a byte vector.
pub fn push_decimal(n: u32, out: &mut Vec<u8>)
    ensures
        final(out)@ == old(out)@ + decimal_digits(n as int),
    decreases n,
{
    if n < 10 {
        out.push(0x30 + (n as u8));
        proof {
            assert(final(out)@ =~= old(out)@ + decimal_digits(n as int));
        }
    } else {
        push_decimal(n / 10, out);
        out.push(0x30 + ((n % 10) as u8));
        proof {
            assert(final(out)@ =~= old(out)@ + decimal_digits(n as int));
        }
    }
}

/// Two maximal digit runs starting at the same position, each followed by a
/// non-digit, are the same run.
proof fn lemma_digit_run_unique(s: Seq<u8>, start: int, d1: Seq<u8>, d2: Seq<u8>)
    requires
        forall|i: int| 0 <= i < d1.len() ==> is_digit(#[trigger] d1[i]),
        forall|i: int| 0 <= i < d2.len() ==> is_digit(#[trigger] d2[i]),
        0 <= start,
        start + d1.len() < s.len(),
        start + d2.len() < s.len(),
        s.subrange(start, start + d1.len()) == d1,
        s.subrange(start, start + d2.len()) == d2,
        !is_digit(s[start + d1.len()]),
        !is_digit(s[start + d2.len()]),
    ensures
        d1 == d2,
{
    assert(forall|i: int| 0 <= i < d1.len() ==> #[trigger] s[start + i] == d1[i]);
    assert(forall|i: int| 0 <= i < d2.len() ==> #[trigger] s[start + i] == d2[i]);
    if d1.len() < d2.len() {
        assert(is_digit(d2[d1.len() as int]));
        assert(s[start + d1.len()] == d2[d1.len() as int]);
    } else if d2.len() < d1.len() {
        assert(is_digit(d1[d2.len() as int]));
        assert(s[start + d2.len()] == d1[d2.len() as int]);
    } else {
        assert(d1 =~= d2);
    }
}

/// `data` is the PGM encoding of a well-formed canvas `(w, h, p)`.
pub open spec fn encodes_pgm(data: Seq<u8>, w: u32, h: u32, p: Seq<u8>) -> bool {
    &&& 1 <= w <= 10000
    &&& 1 <= h <= 10000
    &&& p.len() == w * h
    &&& data == pgm_bytes(w, h, p)
}

/// A byte string that passed every structural check of the reader is the
/// PGM encoding of what the reader read.
proof fn lemma_pgm_reconstruct(s: Seq<u8>, width: u32, height: u32, i: int, j: int)
    requires
        s.len() >= 3,
        s[0] == 0x50,
        s[1] == 0x35,
        s[2] == 0x0A,
        5 <= i <= s.len(),
        canonical_digits(s.subrange(3, i - 1)),
        s[i - 1] == 0x20,
        width == digits_value(s.subrange(3, i - 1)),
        i + 2 <= j <= s.len(),
        canonical_digits(s.subrange(i, j - 1)),
        s[j - 1] == 0x0A,
        height == digits_value(s.subrange(i, j - 1)),
        s.len() - j >= 4,
        s[j] == 0x32,
        s[j + 1] == 0x35,
        s[j + 2] == 0x35,
        s[j + 3] == 0x0A,
    ensures
        s == pgm_bytes(width, height, s.subrange(j + 4, s.len() as int)),
{
    let wd = s.subrange(3, i - 1);
    lemma_canonical_digits_unique(wd);
    lemma_digits_value_nonneg(wd);
    assert(decimal_digits(width as int) == wd);
    let hd = s.subrange(i, j - 1);
    lemma_canonical_digits_unique(hd);
    lemma_digits_value_nonneg(hd);
    assert(decimal_digits(height as int) == hd);
    assert(s =~= pgm_bytes(width, height, s.subrange(j + 4, s.len() as int)));
}

/// Image output encoders.
pub struct ImageOutput;

impl ImageOutput {
    /// Write a canvas as binary PGM. Accepted exactly when the dimensions
    /// are within the data model's bounds and the buffer length matches; the
    /// accepted output is the PGM encoding of the inputs, byte for byte.
    pub fn write_pgm_binary(pixels: &Vec<u8>, width: u32, height: u32) -> (r: Result<Vec<u8>, Error>)
        ensures
            r.is_ok() <==> (1 <= width <= 10000 && 1 <= height <= 10000 && pixels@.len() == width
                * height),
            r matches Ok(out) ==> out@ == pgm_bytes(width, height, pixels@),
            r.is_err() ==> (r->Err_0 is InvalidRenderParams || r->Err_0 is Internal),
    {
        if width == 0 || height == 0 || width > 10000 || height > 10000 {
            return Err(
                Error::InvalidRenderParams {
                    reason: String::from_str("Image dimensions out of bounds"),
                },
            );
        }
        proof {
            crate::render::lemma_dims_product_bound(width as int, height as int);
        }
        let expected: usize = (width as usize) * (height as usize);
        if pixels.len() != expected {
            return Err(Error::Internal { reason: String::from_str("Pixel data size mismatch") });
        }
        let mut out: Vec<u8> = Vec::new();
        out.push(0x50);
        out.push(0x35);
        out.push(0x0A);
        proof {
            assert(out@ =~= pgm_magic());
        }
        push_decimal(width, &mut out);
        out.push(0x20);
        push_decimal(height, &mut out);
        out.push(0x0A);
        out.push(0x32);
        out.push(0x35);
        out.push(0x35);
        out.push(0x0A);
        let ghost header = pgm_magic() + decimal_digits(width as int) + seq![0x20u8]
            + decimal_digits(height as int) + pgm_maxval();
        proof {
            assert(out@ =~= header);
        }
        let n = pixels.len();
        let mut i: usize = 0;
        while i < n
            invariant
                i <= n,
                n == pixels@.len(),
                out@ == header + pixels@.take(i as int),
            decreases n - i,
        {
            out.push(pixels[i]);
            proof {
                assert(out@ =~= header + pixels@.take(i as int + 1));
            }
            i = i + 1;
        }
        proof {
            assert(pixels@.take(n as int) =~= pixels@);
            assert(out@ =~= pgm_bytes(width, height, pixels@));
        }
        Ok(out)
    }

    /// Read back a binary PGM image. When the input is exactly the PGM
    /// encoding of a well-formed canvas, the canvas is returned; any
    /// accepted result re-encodes to the input byte for byte.
    pub fn parse_pgm_binary(data: &Vec<u8>) -> (r: Option<Image>)
        ensures
            r matches Some(img) ==> img.wf() && data@ == pgm_bytes(
                img.spec_width(),
                img.spec_height(),
                img.spec_pixels(),
            ),
            forall|w: u32, h: u32, p: Seq<u8>| encodes_pgm(data@, w, h, p) ==> r is Some,
    {
        let n = data.len();
        if n < 3 || data[0] != 0x50 || data[1] != 0x35 || data[2] != 0x0A {
            proof {
                assert forall|w: u32, h: u32, p: Seq<u8>|
                    encodes_pgm(data@, w, h, p) implies false by {
                    lemma_pgm_layout(data@, w, h, p);
                }
            }
            return None;
        }
        let wparse = parse_number(data, 3, 0x20);
        let (width, i) = match wparse {
            Some(v) => v,
            None => {
                proof {
                    assert forall|w: u32, h: u32, p: Seq<u8>|
                        encodes_pgm(data@, w, h, p) implies false by {
                        lemma_pgm_layout(data@, w, h, p);
                        let d = decimal_digits(w as int);
                        assert(data@.subrange(3int, 3 + d.len() as int) == d);
                        assert(data@[3 + d.len() as int] == 0x20);
                    }
                }
                return None;
            },
        };
        let hparse = parse_number(data, i, 0x0A);
        proof {
            assert forall|w: u32, h: u32, p: Seq<u8>|
                encodes_pgm(data@, w, h, p) implies (width == w && i == 4 + decimal_digits(
                w as int,
            ).len()) by {
                lemma_pgm_layout(data@, w, h, p);
                let d = decimal_digits(w as int);
                assert(data@.subrange(3int, 3 + d.len() as int) == d);
                lemma_pin_run(data@, 3, i as int, d, 0x20);
            }
        }
        let (height, j) = match hparse {
            Some(v) => v,
            None => {
                proof {
                    assert forall|w: u32, h: u32, p: Seq<u8>|
                        encodes_pgm(data@, w, h, p) implies false by {
                        lemma_pgm_layout(data@, w, h, p);
                        let d = decimal_digits(h as int);
                        assert(data@.subrange(i as int, i + d.len() as int) == d);
                        assert(data@[i + d.len() as int] == 0x0A);
                    }
                }
                return None;
            },
        };
        proof {
            assert forall|w: u32, h: u32, p: Seq<u8>|
                encodes_pgm(data@, w, h, p) implies (width == w && height == h && j == 5
                + decimal_digits(w as int).len() + decimal_digits(h as int).len() && n - j >= 4
                && data@[j as int] == 0x32 && data@[j + 1] == 0x35 && data@[j + 2] == 0x35
                && data@[j + 3] == 0x0A && n - (j + 4) == w * h) by {
                lemma_pgm_layout(data@, w, h, p);
                let d = decimal_digits(h as int);
                assert(data@.subrange(i as int, i + d.len() as int) == d);
                lemma_pin_run(data@, i as int, j as int, d, 0x0A);
            }
        }
        if n - j < 4 || data[j] != 0x32 || data[j + 1] != 0x35 || data[j + 2] != 0x35 || data[j + 3]
            != 0x0A {
            return None;
        }
        let body_start = j + 4;
        if width == 0 || height == 0 {
            return None;
        }
        proof {
            crate::render::lemma_dims_product_bound(width as int, height as int);
        }
        let expected: usize = (width as usize) * (height as usize);
        if n - body_start != expected {
            return None;
        }
        let mut pixels: Vec<u8> = Vec::new();
        let mut k: usize = body_start;
        while k < n
            invariant
                body_start <= k <= n,
                n == data@.len(),
                pixels@ == data@.subrange(body_start as int, k as int),
            decreases n - k,
        {
            pixels.push(data[k]);
            proof {
                assert(pixels@ =~= data@.subrange(body_start as int, k as int + 1));
            }
            k = k + 1;
        }
        proof {
            lemma_pgm_reconstruct(data@, width, height, i as int, j as int);
        }
        match Image::new(width, height, pixels) {
            Ok(img) => Some(img),
            Err(_) => {
                proof {
                    assert(false);
                }
                None
            },
        }
    }

    /// Relies on base64's Engine::encode with the STANDARD engine (the
    /// standard alphabet, padded): the output is a function of the input
    /// bytes alone, four characters for every three bytes begun, empty on
    /// empty input.
    #[verifier::external_body]
    pub fn encode_base64(data: &Vec<u8>) -> (r: String)
        ensures
            r@ == base64_of(data@),
            r@.len() == 4 * ((data@.len() + 2) / 3),
            data@.len() == 0 ==> r@.len() == 0,
    {
        base64::Engine::encode(&base64::engine::general_purpose::STANDARD, data.as_slice())
    }
}

/// Round trip of the PGM codec: two writes that produce the same bytes came
/// from the same canvas, so writing, reading back, and writing again
/// reproduces dimensions and pixels exactly.
pub proof fn lemma_pgm_round_trip(w1: u32, h1: u32, p1: Seq<u8>, w2: u32, h2: u32, p2: Seq<u8>)
    requires
        1 <= w1 <= 10000,
        1 <= h1 <= 10000,
        p1.len() == w1 * h1,
        1 <= w2 <= 10000,
        1 <= h2 <= 10000,
        p2.len() == w2 * h2,
        pgm_bytes(w1, h1, p1) == pgm_bytes(w2, h2, p2),
    ensures
        w1 == w2,
        h1 == h2,
        p1 == p2,
{
    let s = pgm_bytes(w1, h1, p1);
    lemma_pgm_layout(s, w1, h1, p1);
    lemma_pgm_layout(s, w2, h2, p2);
    let d1 = decimal_digits(w1 as int);
    let d2 = decimal_digits(w2 as int);
    lemma_digit_run_unique(s, 3, d1, d2);
    lemma_digits_value_inverse(w1 as int);
    lemma_digits_value_inverse(w2 as int);
    let e1 = decimal_digits(h1 as int);
    let e2 = decimal_digits(h2 as int);
    lemma_digit_run_unique(s, 4 + d1.len() as int, e1, e2);
    lemma_digits_value_inverse(h1 as int);
    lemma_digits_value_inverse(h2 as int);
    assert(p1 == s.subrange(9 + d1.len() as int + e1.len() as int, s.len() as int));
}

/// What the outside base64 encoder returns for a byte sequence.
pub uninterp spec fn base64_of(bytes: Seq<u8>) -> Seq<char>;

} // verus!
