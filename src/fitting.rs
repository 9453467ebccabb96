//! Fitting an image under the transport's byte-size and dimension limits.
use image::DynamicImage;
use vstd::prelude::*;

verus! {

#[verifier::external_type_specification]
#[verifier::external_body]
pub struct ExDynamicImage(DynamicImage);

/// Whether `bytes` start with the magic bytes of a format this build knows
/// and decode as an image of that format.
pub uninterp spec fn decodes_as_image(bytes: Seq<u8>) -> bool;

/// Relies on `image::guess_format`, which picks a format from the built-in
/// table of magic bytes, and `image::load_from_memory_with_format`, which
/// decodes with the built-in decoder of that format. Neither reads the crate's
/// registries of hooks, so whether they succeed depends on the bytes alone.
#[verifier::external_body]
fn decode_image(bytes: &[u8]) -> (r: Result<DynamicImage, String>)
    ensures
        r is Ok <==> decodes_as_image(bytes@),
{
    match image::guess_format(bytes) {
        Ok(format) => match image::load_from_memory_with_format(bytes, format) {
            Ok(img) => Ok(img),
            Err(e) => Err(e.to_string()),
        },
        Err(e) => Err(e.to_string()),
    }
}

/// Relies on `image::DynamicImage::resize` with the Lanczos3 filter: a copy
/// scaled, with its aspect ratio kept, to the largest size within `width` by
/// `height` (at least one pixel a side), returned with its width and height.
#[verifier::external_body]
fn resize_lanczos(img: &DynamicImage, width: u32, height: u32) -> (r: (DynamicImage, u32, u32))
    requires
        width >= 1,
        height >= 1,
    ensures
        1 <= r.1 <= width,
        1 <= r.2 <= height,
{
    let out = img.resize(width, height, image::imageops::FilterType::Lanczos3);
    let (w, h) = (out.width(), out.height());
    (out, w, h)
}

/// Relies on `image::DynamicImage::write_to` with the PNG format: the
/// encoded bytes, or the encoder's error as text.
#[verifier::external_body]
fn encode_png(img: &DynamicImage) -> Result<Vec<u8>, String> {
    let mut out = std::io::Cursor::new(Vec::new());
    match img.write_to(&mut out, image::ImageFormat::Png) {
        Ok(()) => Ok(out.into_inner()),
        Err(e) => Err(e.to_string()),
    }
}

/// Largest byte size the transport accepts for one image (10 MiB).
pub const MAX_IMAGE_SIZE: usize = 10 * 1024 * 1024;

/// Largest value of width + height the transport accepts.
pub const MAX_DIMENSION_SUM: u32 = 10000;

/// `g` is `floor(side * sqrt(MAX_IMAGE_SIZE / len))`: the largest integer whose
/// square, scaled by `len`, stays within `side * side * MAX_IMAGE_SIZE`.
pub open spec fn is_scaled_side(g: int, side: int, len: int) -> bool {
    &&& 0 <= g
    &&& g * g * len <= side * side * MAX_IMAGE_SIZE
    &&& side * side * MAX_IMAGE_SIZE < (g + 1) * (g + 1) * len
}

/// The side length that the first guess assigns to `side` for an input of
/// `len` bytes.
pub open spec fn scaled_side(side: int, len: int) -> int {
    choose|g: int| is_scaled_side(g, side, len)
}

proof fn lemma_mul_div_le(a: int, d: int, n: int)
    requires
        0 <= a,
        0 < d,
        0 <= n,
    ensures
        a * d <= n <==> a <= n / d,
{
    vstd::arithmetic::div_mod::lemma_fundamental_div_mod(n, d);
    vstd::arithmetic::div_mod::lemma_mod_bound(n, d);
    let q = n / d;
    if a <= q {
        vstd::arithmetic::mul::lemma_mul_inequality(a, q, d);
        assert(a * d <= q * d);
        assert(q * d == d * q) by (nonlinear_arith);
    } else {
        vstd::arithmetic::mul::lemma_mul_inequality(q + 1, a, d);
        assert((q + 1) * d == d * q + d) by (nonlinear_arith);
    }
}

proof fn lemma_scaled_side_unique(g1: int, g2: int, side: int, len: int)
    requires
        len > 0,
        is_scaled_side(g1, side, len),
        is_scaled_side(g2, side, len),
    ensures
        g1 == g2,
{
    if g1 < g2 {
        assert((g1 + 1) * (g1 + 1) <= g2 * g2) by (nonlinear_arith)
            requires 0 <= g1 + 1 <= g2;
        vstd::arithmetic::mul::lemma_mul_inequality((g1 + 1) * (g1 + 1), g2 * g2, len);
    } else if g2 < g1 {
        assert((g2 + 1) * (g2 + 1) <= g1 * g1) by (nonlinear_arith)
            requires 0 <= g2 + 1 <= g1;
        vstd::arithmetic::mul::lemma_mul_inequality((g2 + 1) * (g2 + 1), g1 * g1, len);
    }
}

/// Computes `floor(side * sqrt(MAX_IMAGE_SIZE / len))` by a search over the
/// integers, for an input larger than the ceiling.
fn scale_side(side: u32, len: usize) -> (g: u32)
    requires
        len > MAX_IMAGE_SIZE,
    ensures
        g == scaled_side(side as int, len as int),
        g <= side,
{
    let ghost n: int = side * side * MAX_IMAGE_SIZE;
    let s: u128 = side as u128;
    assert(s * s <= 0xffff_ffff * 0xffff_ffff) by (nonlinear_arith)
        requires s <= 0xffff_ffff;
    let sq_side: u128 = s * s;
    assert(sq_side * MAX_IMAGE_SIZE <= 0xffff_ffff * 0xffff_ffff * MAX_IMAGE_SIZE) by (nonlinear_arith)
        requires sq_side <= 0xffff_ffff * 0xffff_ffff;
    let prod: u128 = sq_side * (MAX_IMAGE_SIZE as u128);
    let q: u128 = prod / (len as u128);
    proof {
        assert(0 <= n) by (nonlinear_arith)
            requires n == side * side * MAX_IMAGE_SIZE;
        // q <= side * side, since MAX_IMAGE_SIZE < len
        assert(side * side * MAX_IMAGE_SIZE <= side * side * len) by (nonlinear_arith)
            requires MAX_IMAGE_SIZE < len;
        let qi = q as int;
        lemma_mul_div_le(qi, len as int, n);
        assert(qi <= side * side) by (nonlinear_arith)
            requires qi * len <= n, n <= side * side * len, len > 0;
        assert(side * side < (side + 1) * (side + 1)) by (nonlinear_arith);
    }
    let mut lo: u64 = 0;
    let mut hi: u64 = side as u64 + 1;
    while hi - lo > 1
        invariant
            lo < hi <= side + 1,
            q == n / (len as int),
            q <= side * side,
            (lo as int) * (lo as int) <= q,
            q < (hi as int) * (hi as int),
        decreases hi - lo,
    {
        let mid: u64 = lo + (hi - lo) / 2;
        assert((mid as int) * (mid as int) <= 0x1_0000_0000 * 0x1_0000_0000) by (nonlinear_arith)
            requires mid <= 0x1_0000_0000;
        let sq: u128 = (mid as u128) * (mid as u128);
        if sq <= q {
            lo = mid;
        } else {
            hi = mid;
        }
    }
    proof {
        let l = lo as int;
        lemma_mul_div_le(l * l, len as int, n);
        lemma_mul_div_le((l + 1) * (l + 1), len as int, n);
        assert(is_scaled_side(l, side as int, len as int));
        lemma_scaled_side_unique(l, scaled_side(side as int, len as int), side as int, len as int);
    }
    lo as u32
}

/// A dimension clamped to at least one pixel.
pub open spec fn at_least_one(x: int) -> int {
    if x < 1 {
        1
    } else {
        x
    }
}

/// Side `x` of a `x` by `other` box, scaled down in proportion when the two
/// together exceed `MAX_DIMENSION_SUM`.
pub open spec fn capped_side(x: int, other: int) -> int {
    if x + other > MAX_DIMENSION_SUM {
        at_least_one(x * MAX_DIMENSION_SUM / (x + other))
    } else {
        x
    }
}

/// Width of the first attempt for an input of `len` bytes declared `w` by `h`.
pub open spec fn first_width(len: int, w: int, h: int) -> int {
    capped_side(at_least_one(scaled_side(w, len)), at_least_one(scaled_side(h, len)))
}

/// Height of the first attempt for an input of `len` bytes declared `w` by `h`.
pub open spec fn first_height(len: int, w: int, h: int) -> int {
    capped_side(at_least_one(scaled_side(h, len)), at_least_one(scaled_side(w, len)))
}

/// A side after one more round of shrinking by a fifth.
pub open spec fn shrunk_side(x: int) -> int {
    at_least_one(x * 4 / 5)
}

/// Target dimensions of one resize-and-encode attempt.
#[derive(Clone, Copy, Debug, PartialEq, Eq, Structural)]
pub struct FitPlan {
    pub width: u32,
    pub height: u32,
}

impl FitPlan {
    /// Both sides are at least one pixel and together within the transport's
    /// dimension limit.
    pub open spec fn wf(self) -> bool {
        &&& 1 <= self.width
        &&& 1 <= self.height
        &&& self.width + self.height <= MAX_DIMENSION_SUM
    }

    /// The first attempt for an oversized input of `len` bytes whose declared
    /// size is `width` by `height`: each side scaled by
    /// `sqrt(MAX_IMAGE_SIZE / len)`, clamped to one pixel, then scaled down
    /// together when their sum exceeds `MAX_DIMENSION_SUM`.
    pub fn first(len: usize, width: u32, height: u32) -> (r: FitPlan)
        requires
            len > MAX_IMAGE_SIZE,
        ensures
            r.wf(),
            r.width == first_width(len as int, width as int, height as int),
            r.height == first_height(len as int, width as int, height as int),
    {
        let gw = scale_side(width, len);
        let gh = scale_side(height, len);
        let w: u32 = if gw < 1 { 1 } else { gw };
        let h: u32 = if gh < 1 { 1 } else { gh };
        let sum: u64 = w as u64 + h as u64;
        if sum > MAX_DIMENSION_SUM as u64 {
            let cw: u64 = (w as u64 * MAX_DIMENSION_SUM as u64) / sum;
            let ch: u64 = (h as u64 * MAX_DIMENSION_SUM as u64) / sum;
            proof {
                lemma_capped_sum(w as int, h as int);
            }
            FitPlan { width: if cw < 1 { 1 } else { cw as u32 }, height: if ch < 1 { 1 } else { ch as u32 } }
        } else {
            FitPlan { width: w, height: h }
        }
    }

    /// The next attempt: both sides shrunk by a fifth, never below one pixel.
    /// There is none once the plan is down to one pixel by one.
    pub fn next(self) -> (r: Option<FitPlan>)
        requires
            self.wf(),
        ensures
            r is None <==> (self.width == 1 && self.height == 1),
            r matches Some(n) ==> {
                &&& n.wf()
                &&& n.width == shrunk_side(self.width as int)
                &&& n.height == shrunk_side(self.height as int)
                &&& n.width <= self.width
                &&& n.height <= self.height
                &&& (self.width > 1 ==> n.width < self.width)
                &&& (self.height > 1 ==> n.height < self.height)
            },
    {
        if self.width == 1 && self.height == 1 {
            None
        } else {
            let w: u32 = self.width / 5 * 4 + self.width % 5 * 4 / 5;
            let h: u32 = self.height / 5 * 4 + self.height % 5 * 4 / 5;
            assert(w == self.width * 4 / 5);
            assert(h == self.height * 4 / 5);
            Some(FitPlan { width: if w < 1 { 1 } else { w }, height: if h < 1 { 1 } else { h } })
        }
    }
}

proof fn lemma_capped_sum(w: int, h: int)
    requires
        1 <= w,
        1 <= h,
        w + h > MAX_DIMENSION_SUM,
    ensures
        at_least_one(w * MAX_DIMENSION_SUM / (w + h)) + at_least_one(h * MAX_DIMENSION_SUM / (w + h))
            <= MAX_DIMENSION_SUM,
        w * MAX_DIMENSION_SUM / (w + h) < MAX_DIMENSION_SUM,
        h * MAX_DIMENSION_SUM / (w + h) < MAX_DIMENSION_SUM,
{
    let s = w + h;
    let m = MAX_DIMENSION_SUM as int;
    let a = w * m / s;
    let b = h * m / s;
    lemma_mul_div_le(a, s, w * m);
    lemma_mul_div_le(b, s, h * m);
    assert(a + b <= m) by (nonlinear_arith)
        requires a * s <= w * m, b * s <= h * m, s == w + h, s > 0;
    assert(w * m < s * m) by (nonlinear_arith)
        requires w < s, m > 0;
    assert(h * m < s * m) by (nonlinear_arith)
        requires h < s, m > 0;
    if a >= m {
        vstd::arithmetic::mul::lemma_mul_inequality(m, a, s);
    }
    if b >= m {
        vstd::arithmetic::mul::lemma_mul_inequality(m, b, s);
    }
    assert(0 <= a) by (nonlinear_arith)
        requires a == w * m / s, w >= 1, s > 0, m > 0;
    assert(0 <= b) by (nonlinear_arith)
        requires b == h * m / s, h >= 1, s > 0, m > 0;
}

/// Dimensions of attempt `k` (counting from zero) for an oversized input of
/// `len` bytes declared `w` by `h`.
pub open spec fn plan_at(len: int, w: int, h: int, k: nat) -> (int, int)
    decreases k,
{
    if k == 0 {
        (first_width(len, w, h), first_height(len, w, h))
    } else {
        let prev = plan_at(len, w, h, (k - 1) as nat);
        (shrunk_side(prev.0), shrunk_side(prev.1))
    }
}

proof fn lemma_first_plan_fits(len: int, w: int, h: int)
    ensures
        1 <= first_width(len, w, h),
        1 <= first_height(len, w, h),
        first_width(len, w, h) + first_height(len, w, h) <= MAX_DIMENSION_SUM,
{
    let a = at_least_one(scaled_side(w, len));
    let b = at_least_one(scaled_side(h, len));
    if a + b > MAX_DIMENSION_SUM {
        lemma_capped_sum(a, b);
    }
}

proof fn lemma_shrunk_side(x: int)
    requires
        1 <= x,
    ensures
        1 <= shrunk_side(x) <= x,
        x > 1 ==> shrunk_side(x) < x,
{
}

/// Every attempt's dimensions are at least one pixel each and together
/// within `MAX_DIMENSION_SUM`.
pub proof fn lemma_plans_within_dimension_limit(len: int, w: int, h: int, k: nat)
    ensures
        1 <= plan_at(len, w, h, k).0,
        1 <= plan_at(len, w, h, k).1,
        plan_at(len, w, h, k).0 + plan_at(len, w, h, k).1 <= MAX_DIMENSION_SUM,
    decreases k,
{
    if k == 0 {
        lemma_first_plan_fits(len, w, h);
    } else {
        let prev = plan_at(len, w, h, (k - 1) as nat);
        lemma_plans_within_dimension_limit(len, w, h, (k - 1) as nat);
        lemma_shrunk_side(prev.0);
        lemma_shrunk_side(prev.1);
    }
}

/// From one attempt to the next neither side grows, and each side that is
/// more than one pixel strictly shrinks.
pub proof fn lemma_plans_shrink(len: int, w: int, h: int, k: nat)
    ensures
        plan_at(len, w, h, k + 1).0 <= plan_at(len, w, h, k).0,
        plan_at(len, w, h, k + 1).1 <= plan_at(len, w, h, k).1,
        plan_at(len, w, h, k).0 > 1 ==> plan_at(len, w, h, k + 1).0 < plan_at(len, w, h, k).0,
        plan_at(len, w, h, k).1 > 1 ==> plan_at(len, w, h, k + 1).1 < plan_at(len, w, h, k).1,
{
    lemma_plans_within_dimension_limit(len, w, h, k);
    let cur = plan_at(len, w, h, k);
    assert(plan_at(len, w, h, k + 1) == (shrunk_side(cur.0), shrunk_side(cur.1)));
    lemma_shrunk_side(cur.0);
    lemma_shrunk_side(cur.1);
}

/// Why fitting an image failed.
#[derive(Clone, Debug, PartialEq, Eq)]
pub enum FitError {
    /// The input bytes are not an image that can be decoded.
    Decode { message: String },
    /// Encoding a resized image failed.
    Encode { message: String },
    /// Even a one-pixel image encoded at or above the size ceiling.
    TooLarge,
}

/// What follows one resize-and-encode attempt.
#[derive(Clone, Debug, PartialEq, Eq)]
pub enum FitStep {
    /// The encoding is small enough: these are the bytes to send.
    Done(Vec<u8>),
    /// Too large: try again at this smaller plan.
    Retry(FitPlan),
    /// Stop with this error.
    Fail(FitError),
}

/// Decides on the result of encoding the image resized to `plan`: an
/// encoding below `MAX_IMAGE_SIZE` is done, a larger one is retried at the
/// next plan, or given up once the plan is one pixel by one, and an encoder
/// error ends the fit.
pub fn after_encode(plan: FitPlan, encoded: Result<Vec<u8>, String>) -> (r: FitStep)
    requires
        plan.wf(),
    ensures
        encoded is Err ==> r == FitStep::Fail(FitError::Encode { message: encoded->Err_0 }),
        encoded is Ok && encoded->Ok_0.len() < MAX_IMAGE_SIZE ==> r == FitStep::Done(
            encoded->Ok_0,
        ),
        encoded is Ok && encoded->Ok_0.len() >= MAX_IMAGE_SIZE && !(plan.width == 1
            && plan.height == 1) ==> r == FitStep::Retry(
            FitPlan {
                width: shrunk_side(plan.width as int) as u32,
                height: shrunk_side(plan.height as int) as u32,
            },
        ),
        encoded is Ok && encoded->Ok_0.len() >= MAX_IMAGE_SIZE && plan.width == 1 && plan.height
            == 1 ==> r == FitStep::Fail(FitError::TooLarge),
        r matches FitStep::Retry(n) ==> n.wf() && n.width + n.height < plan.width + plan.height,
{
    match encoded {
        Err(message) => FitStep::Fail(FitError::Encode { message }),
        Ok(bytes) => {
            if bytes.len() < MAX_IMAGE_SIZE {
                FitStep::Done(bytes)
            } else {
                match plan.next() {
                    Some(n) => FitStep::Retry(n),
                    None => FitStep::Fail(FitError::TooLarge),
                }
            }
        },
    }
}

/// A fitted image: its bytes and, when it had to be resized, the plan of the
/// attempt that succeeded, how many attempts came before it, and the width
/// and height of the resized image that was encoded.
#[derive(Clone, Debug, PartialEq, Eq)]
pub struct Fitted {
    pub bytes: Vec<u8>,
    pub target: Option<FitPlan>,
    pub round: u32,
    pub dimensions: Option<(u32, u32)>,
}

/// `f` is a fit of `input`, declared `w` by `h`: the input itself when it
/// is within `MAX_IMAGE_SIZE`, else an encoding below `MAX_IMAGE_SIZE` made at
/// the plan of round `f.round`, from an image resized to fit within that
/// plan.
pub open spec fn is_fit_of(input: Seq<u8>, w: int, h: int, f: Fitted) -> bool {
    if input.len() <= MAX_IMAGE_SIZE {
        &&& f.bytes@ == input
        &&& f.target is None
        &&& f.round == 0
        &&& f.dimensions is None
    } else {
        &&& f.bytes.len() < MAX_IMAGE_SIZE
        &&& f.target is Some
        &&& (f.target->0.width as int, f.target->0.height as int) == plan_at(
            input.len() as int,
            w,
            h,
            f.round as nat,
        )
        &&& f.dimensions is Some
        &&& {
            let (w, h) = f.dimensions->0;
            1 <= w <= f.target->0.width && 1 <= h <= f.target->0.height
        }
    }
}

/// The image behind a fit of oversized input is at most `MAX_DIMENSION_SUM`
/// in width plus height.
pub proof fn lemma_fit_within_dimension_limit(input: Seq<u8>, w: int, h: int, f: Fitted)
    requires
        input.len() > MAX_IMAGE_SIZE,
        is_fit_of(input, w, h, f),
    ensures
        f.dimensions is Some,
        (f.dimensions->0).0 + (f.dimensions->0).1 <= MAX_DIMENSION_SUM,
{
    lemma_plans_within_dimension_limit(input.len() as int, w, h, f.round as nat);
}

/// Fits `image_bytes`, declared `declared_width` by `declared_height`, under
/// the transport's limits. Input of at most `MAX_IMAGE_SIZE` bytes comes back
/// unchanged. Larger input is decoded once, then resized to the plan of each
/// round and encoded as PNG, with `after_encode` deciding after each attempt.
pub fn resize_image(image_bytes: Vec<u8>, declared_width: u32, declared_height: u32) -> (r: Result<
    Fitted,
    FitError,
>)
    ensures
        image_bytes.len() <= MAX_IMAGE_SIZE ==> r is Ok,
        r is Ok ==> is_fit_of(
            image_bytes@,
            declared_width as int,
            declared_height as int,
            r->Ok_0,
        ),
        r is Ok ==> r->Ok_0.bytes.len() <= MAX_IMAGE_SIZE,
        r matches Err(FitError::TooLarge) ==> exists|k: nat|
            plan_at(
                image_bytes.len() as int,
                declared_width as int,
                declared_height as int,
                k,
            ) == (1int, 1int),
        (r is Err && r->Err_0 is Decode) <==> (image_bytes.len() > MAX_IMAGE_SIZE
            && !decodes_as_image(image_bytes@)),
        r is Err && !(r->Err_0 is Decode) ==> image_bytes.len() > MAX_IMAGE_SIZE
            && decodes_as_image(image_bytes@),
{
    let len = image_bytes.len();
    if len <= MAX_IMAGE_SIZE {
        return Ok(Fitted { bytes: image_bytes, target: None, round: 0, dimensions: None });
    }
    let decoded = match decode_image(image_bytes.as_slice()) {
        Ok(img) => img,
        Err(message) => {
            return Err(FitError::Decode { message });
        },
    };
    let mut plan = FitPlan::first(len, declared_width, declared_height);
    let mut round: u32 = 0;
    loop
        invariant
            plan.wf(),
            (plan.width as int, plan.height as int) == plan_at(
                len as int,
                declared_width as int,
                declared_height as int,
                round as nat,
            ),
            round + plan.width + plan.height <= MAX_DIMENSION_SUM,
            decodes_as_image(image_bytes@),
            len == image_bytes.len(),
            len > MAX_IMAGE_SIZE,
        decreases plan.width + plan.height,
    {
        let (resized, w, h) = resize_lanczos(&decoded, plan.width, plan.height);
        match after_encode(plan, encode_png(&resized)) {
            FitStep::Done(bytes) => {
                return Ok(Fitted { bytes, target: Some(plan), round, dimensions: Some((w, h)) });
            },
            FitStep::Retry(n) => {
                plan = n;
                round = round + 1;
            },
            FitStep::Fail(e) => {
                return Err(e);
            },
        }
    }
}

} // verus!
