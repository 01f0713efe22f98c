//! Planar vectors in fixed point (thousandths of a world unit) and the
//! steering arithmetic built on them.
use vstd::prelude::*;

verus! {

/// Bound on each coordinate of a vector handed to the length functions, so
/// that every square and product below fits in 64 bits.
pub const COORD_LIMIT: i64 = 1_000_000_000;

/// A two-dimensional vector; each component is in thousandths of a unit.
#[derive(Clone, Copy, Debug, PartialEq, Eq, Structural)]
pub struct Vec2 {
    pub x: i64,
    pub y: i64,
}

pub open spec fn in_limits(v: Vec2) -> bool {
    -COORD_LIMIT <= v.x <= COORD_LIMIT && -COORD_LIMIT <= v.y <= COORD_LIMIT
}

pub open spec fn len_sq(v: Vec2) -> int {
    v.x * v.x + v.y * v.y
}

/// `r` is the square root of `n`, rounded up.
pub open spec fn is_ceil_sqrt(n: int, r: int) -> bool {
    0 <= r && n <= r * r && (r == 0 || (r - 1) * (r - 1) < n)
}

/// The length of `v`, rounded up.
pub open spec fn vlen(v: Vec2) -> int {
    choose|r: int| is_ceil_sqrt(len_sq(v), r)
}

/// `v` turned to magnitude `mag`.
pub open spec fn scale_spec(v: Vec2, mag: int) -> Vec2 {
    scaled(v, vlen(v), mag)
}

/// `v`, shortened to magnitude `max` when longer.
pub open spec fn clamp_spec(v: Vec2, max: int) -> Vec2 {
    if len_sq(v) <= max * max {
        v
    } else {
        scale_spec(v, max)
    }
}

/// Division rounding toward zero, for a positive divisor.
pub open spec fn div_trunc(a: int, b: int) -> int {
    if a >= 0 {
        a / b
    } else {
        -((-a) / b)
    }
}

/// `v` rescaled to magnitude `mag` (zero stays zero), where `len` is the
/// length of `v` rounded up; each component is rounded toward zero.
pub open spec fn scaled(v: Vec2, len: int, mag: int) -> Vec2 {
    if len == 0 {
        Vec2 { x: 0, y: 0 }
    } else {
        Vec2 { x: div_trunc(v.x * mag, len) as i64, y: div_trunc(v.y * mag, len) as i64 }
    }
}

pub open spec fn add_spec(a: Vec2, b: Vec2) -> Vec2 {
    Vec2 { x: (a.x + b.x) as i64, y: (a.y + b.y) as i64 }
}

pub open spec fn sub_spec(a: Vec2, b: Vec2) -> Vec2 {
    Vec2 { x: (a.x - b.x) as i64, y: (a.y - b.y) as i64 }
}

pub open spec fn zero() -> Vec2 {
    Vec2 { x: 0, y: 0 }
}

impl Vec2 {
    pub fn new(x: i64, y: i64) -> (r: Vec2)
        ensures
            r == (Vec2 { x, y }),
    {
        Vec2 { x, y }
    }

    pub fn is_zero(&self) -> (r: bool)
        ensures
            r == (self.x == 0 && self.y == 0),
    {
        self.x == 0 && self.y == 0
    }

    pub fn add(&self, o: &Vec2) -> (r: Vec2)
        requires
            i64::MIN <= self.x + o.x <= i64::MAX,
            i64::MIN <= self.y + o.y <= i64::MAX,
        ensures
            r == add_spec(*self, *o),
    {
        Vec2 { x: self.x + o.x, y: self.y + o.y }
    }

    pub fn sub(&self, o: &Vec2) -> (r: Vec2)
        requires
            i64::MIN <= self.x - o.x <= i64::MAX,
            i64::MIN <= self.y - o.y <= i64::MAX,
        ensures
            r == sub_spec(*self, *o),
    {
        Vec2 { x: self.x - o.x, y: self.y - o.y }
    }

    /// Squared length.
    pub fn length_sq(&self) -> (r: u64)
        requires
            in_limits(*self),
        ensures
            r == len_sq(*self),
    {
        proof {
            lemma_square_bound(self.x);
            lemma_square_bound(self.y);
        }
        let ax = abs_of(self.x);
        let ay = abs_of(self.y);
        proof {
            assert(ax * ax == self.x * self.x) by (nonlinear_arith)
                requires ax == self.x || ax == -self.x;
            assert(ay * ay == self.y * self.y) by (nonlinear_arith)
                requires ay == self.y || ay == -self.y;
        }
        ax * ax + ay * ay
    }

    /// Length rounded up.
    pub fn length(&self) -> (r: u64)
        requires
            in_limits(*self),
        ensures
            is_ceil_sqrt(len_sq(*self), r as int),
            r == vlen(*self),
            r <= 2 * COORD_LIMIT,
    {
        let n = self.length_sq();
        proof {
            lemma_square_bound(self.x);
            lemma_square_bound(self.y);
        }
        let r = ceil_sqrt(n);
        proof {
            lemma_vlen_is(*self, r as int);
        }
        r
    }

    /// The vector turned toward the same direction with magnitude `mag`
    /// (a zero vector stays zero).
    pub fn scale_to(&self, mag: i64) -> (r: Vec2)
        requires
            in_limits(*self),
            0 <= mag <= COORD_LIMIT,
        ensures
            r == scale_spec(*self, mag as int),
            len_sq(r) <= mag * mag,
            in_limits(r),
            self.x >= 0 ==> r.x >= 0,
            self.x <= 0 ==> r.x <= 0,
            self.y >= 0 ==> r.y >= 0,
            self.y <= 0 ==> r.y <= 0,
    {
        let len = self.length();
        proof {
            lemma_component_le_len(*self, len as int);
        }
        if len == 0 {
            proof {
                assert(is_ceil_sqrt(len_sq(*self), 0));
            }
            return Vec2 { x: 0, y: 0 };
        }
        let l = len as i64;
        let rx = div_toward_zero(self.x, mag, l);
        let ry = div_toward_zero(self.y, mag, l);
        let r = Vec2 { x: rx, y: ry };
        proof {
            lemma_scaled_len(*self, len as int, mag as int);
            assert(r == scaled(*self, len as int, mag as int));
        }
        r
    }

    /// The vector, shortened to magnitude `max` when it is longer.
    pub fn clamp_length_max(&self, max: i64) -> (r: Vec2)
        requires
            in_limits(*self),
            0 <= max <= COORD_LIMIT,
        ensures
            r == clamp_spec(*self, max as int),
            len_sq(r) <= max * max,
            in_limits(r),
    {
        let n = self.length_sq();
        proof {
            assert(0 <= max * max <= COORD_LIMIT * COORD_LIMIT) by (nonlinear_arith)
                requires 0 <= max <= COORD_LIMIT;
        }
        if n <= (max as u64) * (max as u64) {
            *self
        } else {
            self.scale_to(max)
        }
    }

    /// Distance to another point, rounded up.
    pub fn distance(&self, o: &Vec2) -> (r: u64)
        requires
            in_limits(sub_spec(*self, *o)),
            i64::MIN <= self.x - o.x <= i64::MAX,
            i64::MIN <= self.y - o.y <= i64::MAX,
        ensures
            r == vlen(sub_spec(*self, *o)),
    {
        self.sub(o).length()
    }
}

/// The rounded-up square root is unique, so `vlen` is the one computed.
pub proof fn lemma_vlen_is(v: Vec2, r: int)
    requires
        is_ceil_sqrt(len_sq(v), r),
    ensures
        vlen(v) == r,
{
    let c = vlen(v);
    assert(is_ceil_sqrt(len_sq(v), c));
    lemma_ceil_sqrt_unique(len_sq(v), r, c);
}

proof fn lemma_ceil_sqrt_unique(n: int, a: int, b: int)
    requires
        is_ceil_sqrt(n, a),
        is_ceil_sqrt(n, b),
    ensures
        a == b,
{
    if a < b {
        assert(a * a <= (b - 1) * (b - 1)) by (nonlinear_arith)
            requires 0 <= a <= b - 1;
    }
    if b < a {
        assert(b * b <= (a - 1) * (a - 1)) by (nonlinear_arith)
            requires 0 <= b <= a - 1;
    }
}

proof fn lemma_ceil_sqrt_exists(n: int)
    requires
        0 <= n,
    ensures
        exists|r: int| #[trigger] is_ceil_sqrt(n, r),
    decreases n,
{
    if n == 0 {
        assert(is_ceil_sqrt(0, 0));
    } else {
        lemma_ceil_sqrt_exists(n - 1);
        let r = choose|r: int| #[trigger] is_ceil_sqrt(n - 1, r);
        if n <= r * r {
            assert(is_ceil_sqrt(n, r));
        } else {
            assert(n <= (r + 1) * (r + 1)) by (nonlinear_arith)
                requires n - 1 <= r * r, r >= 0;
            assert(is_ceil_sqrt(n, r + 1));
        }
    }
}

/// `vlen` is the rounded-up square root of the squared length.
pub proof fn lemma_vlen(v: Vec2)
    ensures
        is_ceil_sqrt(len_sq(v), vlen(v)),
{
    assert(len_sq(v) >= 0) by (nonlinear_arith);
    lemma_ceil_sqrt_exists(len_sq(v));
}

/// A vector turned to magnitude `mag` is no longer than `mag`.
pub proof fn lemma_scale_bound(v: Vec2, mag: int)
    requires
        in_limits(v),
        0 <= mag <= COORD_LIMIT,
    ensures
        len_sq(scale_spec(v, mag)) <= mag * mag,
        in_limits(scale_spec(v, mag)),
{
    lemma_vlen(v);
    let len = vlen(v);
    lemma_component_le_len(v, len);
    if len == 0 {
        assert(len_sq(Vec2 { x: 0, y: 0 }) == 0) by (nonlinear_arith);
        assert(mag * mag >= 0) by (nonlinear_arith);
    } else {
        lemma_scaled_len(v, len, mag);
    }
}

/// Rounding `a * m / l` down loses less than one unit, so its square times
/// `l * l` falls short of `(a * m)^2` by at most `2 * a * m * l`.
proof fn lemma_floor_square_lower(a: int, m: int, l: int)
    requires
        0 <= a <= l,
        0 <= m,
        0 < l,
    ensures
        ((a * m) / l) * ((a * m) / l) * (l * l) >= a * a * (m * m) - 2 * a * m * l,
{
    let p = (a * m) / l;
    assert(0 <= a * m) by (nonlinear_arith)
        requires 0 <= a, 0 <= m;
    assert(p * l <= a * m < p * l + l) by (nonlinear_arith)
        requires p == (a * m) / l, l > 0, a * m >= 0;
    assert(p >= 0) by (nonlinear_arith)
        requires p == (a * m) / l, l > 0, a * m >= 0;
    assert(p * p * (l * l) == (p * l) * (p * l)) by (nonlinear_arith);
    if a * m >= l {
        assert((p * l) * (p * l) >= (a * m - l) * (a * m - l)) by (nonlinear_arith)
            requires p * l > a * m - l, a * m - l >= 0;
        assert((a * m - l) * (a * m - l) >= a * a * (m * m) - 2 * a * m * l) by (nonlinear_arith);
    } else {
        assert((p * l) * (p * l) >= 0) by (nonlinear_arith);
        assert(a * a * (m * m) - 2 * a * m * l <= 0) by (nonlinear_arith)
            requires 0 <= a * m < l, 0 <= a, 0 <= m;
    }
}

proof fn lemma_trunc_square_lower(x: int, m: int, l: int)
    requires
        -l <= x <= l,
        0 <= m,
        0 < l,
    ensures
        div_trunc(x * m, l) * div_trunc(x * m, l) * (l * l) >= x * x * (m * m) - 2 * (if x >= 0 {
            x
        } else {
            -x
        }) * m * l,
{
    let a = if x >= 0 { x } else { -x };
    lemma_floor_square_lower(a, m, l);
    if x < 0 {
        assert(x * m == -(a * m)) by (nonlinear_arith)
            requires a == -x;
        assert(div_trunc(x * m, l) == -((a * m) / l));
    }
    let q = div_trunc(x * m, l);
    assert(q * q == ((a * m) / l) * ((a * m) / l)) by (nonlinear_arith)
        requires q == (a * m) / l || q == -((a * m) / l);
    assert(x * x == a * a) by (nonlinear_arith)
        requires a == x || a == -x;
}

/// Turned to magnitude `mag`, a vector at least a rounding-safe length long
/// keeps nearly all of `mag`: its squared length is at least
/// `mag * mag - 67 * mag`.
pub proof fn lemma_scale_lower(v: Vec2, mag: int)
    requires
        in_limits(v),
        vlen(v) >= 32_000,
        0 <= mag <= 1_000_000,
    ensures
        len_sq(scale_spec(v, mag)) >= mag * mag - 67 * mag,
{
    lemma_vlen(v);
    let l = vlen(v);
    lemma_component_le_len(v, l);
    lemma_scale_bound(v, mag);
    let x = v.x as int;
    let y = v.y as int;
    let ax = if x >= 0 { x } else { -x };
    let ay = if y >= 0 { y } else { -y };
    lemma_trunc_square_lower(x, mag, l);
    lemma_trunc_square_lower(y, mag, l);
    let qx = div_trunc(x * mag, l);
    let qy = div_trunc(y * mag, l);
    lemma_trunc_bound(x, mag, l);
    lemma_trunc_bound(y, mag, l);
    let r = scale_spec(v, mag);
    assert(r.x == qx && r.y == qy);
    // The squared length exceeds (l - 1)^2, and each component is at most l.
    assert((l - 1) * (l - 1) <= x * x + y * y);
    assert((qx * qx + qy * qy) * (l * l) >= (x * x + y * y) * (mag * mag) - 2 * (ax + ay) * mag * l)
        by (nonlinear_arith)
        requires
            qx * qx * (l * l) >= x * x * (mag * mag) - 2 * ax * mag * l,
            qy * qy * (l * l) >= y * y * (mag * mag) - 2 * ay * mag * l;
    assert((x * x + y * y) * (mag * mag) >= (l - 1) * (l - 1) * (mag * mag)) by (nonlinear_arith)
        requires (l - 1) * (l - 1) <= x * x + y * y, mag >= 0;
    assert(2 * (ax + ay) * mag * l <= 4 * mag * (l * l)) by (nonlinear_arith)
        requires 0 <= ax <= l, 0 <= ay <= l, mag >= 0, l >= 0;
    assert((l - 1) * (l - 1) * (mag * mag) >= (l * l) * (mag * mag) - 2 * l * (mag * mag)) by (nonlinear_arith);
    assert(2 * l * (mag * mag) <= 63 * mag * (l * l)) by (nonlinear_arith)
        requires 32_000 <= l, 0 <= mag <= 1_000_000;
    assert((qx * qx + qy * qy) * (l * l) >= (mag * mag - 67 * mag) * (l * l)) by (nonlinear_arith)
        requires
            (qx * qx + qy * qy) * (l * l) >= (x * x + y * y) * (mag * mag) - 2 * (ax + ay) * mag * l,
            (x * x + y * y) * (mag * mag) >= (l - 1) * (l - 1) * (mag * mag),
            2 * (ax + ay) * mag * l <= 4 * mag * (l * l),
            (l - 1) * (l - 1) * (mag * mag) >= (l * l) * (mag * mag) - 2 * l * (mag * mag),
            2 * l * (mag * mag) <= 63 * mag * (l * l);
    assert(qx * qx + qy * qy >= mag * mag - 67 * mag) by (nonlinear_arith)
        requires (qx * qx + qy * qy) * (l * l) >= (mag * mag - 67 * mag) * (l * l), l > 0;
}

pub proof fn lemma_square_bound(a: i64)
    requires
        -COORD_LIMIT <= a <= COORD_LIMIT,
    ensures
        0 <= a * a <= COORD_LIMIT * COORD_LIMIT,
{
    assert(0 <= a * a <= COORD_LIMIT * COORD_LIMIT) by (nonlinear_arith)
        requires -COORD_LIMIT <= a <= COORD_LIMIT;
}

/// Absolute value.
fn abs_of(a: i64) -> (r: u64)
    requires
        a > i64::MIN,
    ensures
        r == (if a >= 0 { a as int } else { -a }),
{
    if a >= 0 {
        a as u64
    } else {
        (-a) as u64
    }
}

/// Square root of `n`, rounded up.
fn ceil_sqrt(n: u64) -> (r: u64)
    requires
        n <= 2 * COORD_LIMIT * COORD_LIMIT,
    ensures
        is_ceil_sqrt(n as int, r as int),
        r <= 2 * COORD_LIMIT,
{
    // Invariant: lo * lo <= n < hi * hi.
    let mut lo: u64 = 0;
    let mut hi: u64 = 1_500_000_000;
    proof {
        assert(1_500_000_000 * 1_500_000_000 > 2 * COORD_LIMIT * COORD_LIMIT);
    }
    while hi - lo > 1
        invariant
            lo < hi <= 1_500_000_000,
            lo * lo <= n,
            n < hi * hi,
            n <= 2 * COORD_LIMIT * COORD_LIMIT,
        decreases hi - lo,
    {
        let mid = lo + (hi - lo) / 2;
        proof {
            assert(mid * mid < 1_500_000_000 * 1_500_000_000) by (nonlinear_arith)
                requires mid < 1_500_000_000, 0 <= mid;
        }
        if mid * mid <= n {
            lo = mid;
        } else {
            hi = mid;
        }
    }
    proof {
        assert(hi == lo + 1);
    }
    if lo * lo == n {
        proof {
            if lo > 0 {
                assert((lo - 1) * (lo - 1) < lo * lo) by (nonlinear_arith)
                    requires lo > 0;
            }
        }
        lo
    } else {
        proof {
            assert(hi * hi > n);
            assert(hi >= 1);
            assert(hi <= 2 * COORD_LIMIT) by (nonlinear_arith)
                requires hi == lo + 1, lo * lo <= n, n <= 2 * COORD_LIMIT * COORD_LIMIT, hi > 0;
        }
        hi
    }
}

/// `a * m / l` rounded toward zero, where `|a| <= l`.
fn div_toward_zero(a: i64, m: i64, l: i64) -> (r: i64)
    requires
        0 < l <= 2 * COORD_LIMIT,
        0 <= m <= COORD_LIMIT,
        -l <= a <= l,
    ensures
        r == div_trunc(a * m, l as int),
        -m <= r <= m,
        a >= 0 ==> r >= 0,
        a <= 0 ==> r <= 0,
{
    let ua = abs_of(a);
    proof {
        assert(ua * m <= l * m) by (nonlinear_arith)
            requires ua <= l, 0 <= m;
        assert(l * m <= 2 * COORD_LIMIT * COORD_LIMIT) by (nonlinear_arith)
            requires 0 < l <= 2 * COORD_LIMIT, 0 <= m <= COORD_LIMIT;
        assert(0 <= ua * m);
        assert((ua * m) / (l as int) <= m) by (nonlinear_arith)
            requires ua * m <= l * m, l > 0, 0 <= m;
        assert(0 <= (ua * m) / (l as int)) by (nonlinear_arith)
            requires 0 <= ua * m, l > 0;
    }
    let q = (ua * (m as u64)) / (l as u64);
    if a >= 0 {
        proof {
            assert(ua == a);
            if a == 0 {
                assert(ua * m == 0) by (nonlinear_arith)
                    requires ua == 0;
            }
        }
        q as i64
    } else {
        proof {
            assert(ua == -a);
            assert(ua * m == -(a * m)) by (nonlinear_arith)
                requires ua == -a;
        }
        -(q as i64)
    }
}

proof fn lemma_component_le_len(v: Vec2, len: int)
    requires
        is_ceil_sqrt(len_sq(v), len),
    ensures
        -len <= v.x <= len,
        -len <= v.y <= len,
{
    assert(v.x * v.x <= len * len) by (nonlinear_arith)
        requires v.x * v.x + v.y * v.y <= len * len;
    assert(v.y * v.y <= len * len) by (nonlinear_arith)
        requires v.x * v.x + v.y * v.y <= len * len;
    lemma_abs_le_of_square_le(v.x as int, len);
    lemma_abs_le_of_square_le(v.y as int, len);
}

proof fn lemma_abs_le_of_square_le(a: int, l: int)
    requires
        0 <= l,
        a * a <= l * l,
    ensures
        -l <= a <= l,
{
    if a > l {
        assert(a * a > l * l) by (nonlinear_arith)
            requires a > l, l >= 0;
    }
    if a < -l {
        assert(a * a > l * l) by (nonlinear_arith)
            requires a < -l, l >= 0;
    }
}

/// `|div_trunc(a * m, len)| * len <= |a| * m`.
proof fn lemma_trunc_square(a: int, m: int, len: int)
    requires
        len > 0,
        m >= 0,
    ensures
        div_trunc(a * m, len) * div_trunc(a * m, len) * (len * len) <= a * a * (m * m),
{
    let q = div_trunc(a * m, len);
    let aa = if a >= 0 { a } else { -a };
    assert(aa * m >= 0) by (nonlinear_arith)
        requires aa >= 0, m >= 0;
    let p = (aa * m) / len;
    assert(0 <= p * len <= aa * m) by (nonlinear_arith)
        requires p == (aa * m) / len, len > 0, aa * m >= 0;
    if a >= 0 {
        assert(q == p);
    } else {
        assert(a * m == -(aa * m)) by (nonlinear_arith)
            requires aa == -a;
        assert(q == -p);
    }
    assert(q * q == p * p) by (nonlinear_arith)
        requires q == p || q == -p;
    assert((p * len) * (p * len) <= (aa * m) * (aa * m)) by (nonlinear_arith)
        requires 0 <= p * len <= aa * m;
    assert(p * p * (len * len) == (p * len) * (p * len)) by (nonlinear_arith);
    assert((aa * m) * (aa * m) == a * a * (m * m)) by (nonlinear_arith)
        requires aa == a || aa == -a;
}

proof fn lemma_scaled_len(v: Vec2, len: int, mag: int)
    requires
        is_ceil_sqrt(len_sq(v), len),
        len > 0,
        0 <= mag <= COORD_LIMIT,
        -len <= v.x <= len,
        -len <= v.y <= len,
    ensures
        len_sq(scaled(v, len, mag)) <= mag * mag,
        in_limits(scaled(v, len, mag)),
{
    let qx = div_trunc(v.x * mag, len);
    let qy = div_trunc(v.y * mag, len);
    lemma_trunc_square(v.x as int, mag, len);
    lemma_trunc_square(v.y as int, mag, len);
    lemma_trunc_bound(v.x as int, mag, len);
    lemma_trunc_bound(v.y as int, mag, len);
    assert((qx * qx + qy * qy) * (len * len) <= (v.x * v.x + v.y * v.y) * (mag * mag)) by (nonlinear_arith)
        requires
            qx * qx * (len * len) <= v.x * v.x * (mag * mag),
            qy * qy * (len * len) <= v.y * v.y * (mag * mag);
    assert((v.x * v.x + v.y * v.y) * (mag * mag) <= (len * len) * (mag * mag)) by (nonlinear_arith)
        requires v.x * v.x + v.y * v.y <= len * len;
    assert(qx * qx + qy * qy <= mag * mag) by (nonlinear_arith)
        requires
            (qx * qx + qy * qy) * (len * len) <= (len * len) * (mag * mag),
            len > 0;
}

proof fn lemma_trunc_bound(a: int, m: int, len: int)
    requires
        len > 0,
        0 <= m,
        -len <= a <= len,
    ensures
        -m <= div_trunc(a * m, len) <= m,
{
    let aa = if a >= 0 { a } else { -a };
    assert(0 <= aa * m <= len * m) by (nonlinear_arith)
        requires 0 <= aa <= len, 0 <= m;
    assert(0 <= (aa * m) / len <= m) by (nonlinear_arith)
        requires 0 <= aa * m <= len * m, len > 0;
    if a < 0 {
        assert(a * m == -(aa * m)) by (nonlinear_arith)
            requires aa == -a;
    }
}

/// `v` turned by the angle whose cosine and sine are `cos` and `sin` in
/// ten-thousandths, each component rounded toward zero.
pub open spec fn rotated(v: Vec2, cos: int, sin: int) -> Vec2 {
    Vec2 {
        x: div_trunc(v.x * cos - v.y * sin, 10_000) as i64,
        y: div_trunc(v.x * sin + v.y * cos, 10_000) as i64,
    }
}

/// `a / b` rounded toward zero.
pub fn div_toward_zero_exec(a: i64, b: i64) -> (r: i64)
    requires
        b > 0,
        a > i64::MIN,
    ensures
        r == div_trunc(a as int, b as int),
{
    if a >= 0 {
        a / b
    } else {
        proof {
            assert((-a) / (b as int) <= -a) by (nonlinear_arith)
                requires -a > 0, b > 0;
            assert((-a) / (b as int) >= 0) by (nonlinear_arith)
                requires -a > 0, b > 0;
        }
        -((-a) / b)
    }
}

impl Vec2 {
    /// The vector turned by an angle given by its cosine and sine in
    /// ten-thousandths.
    pub fn rotate(&self, cos: i64, sin: i64) -> (r: Vec2)
        requires
            in_limits(*self),
            -10_000 <= cos <= 10_000,
            -10_000 <= sin <= 10_000,
        ensures
            r == rotated(*self, cos as int, sin as int),
    {
        proof {
            assert(-COORD_LIMIT * 10_000 <= self.x * cos <= COORD_LIMIT * 10_000) by (nonlinear_arith)
                requires -COORD_LIMIT <= self.x <= COORD_LIMIT, -10_000 <= cos <= 10_000;
            assert(-COORD_LIMIT * 10_000 <= self.y * sin <= COORD_LIMIT * 10_000) by (nonlinear_arith)
                requires -COORD_LIMIT <= self.y <= COORD_LIMIT, -10_000 <= sin <= 10_000;
            assert(-COORD_LIMIT * 10_000 <= self.x * sin <= COORD_LIMIT * 10_000) by (nonlinear_arith)
                requires -COORD_LIMIT <= self.x <= COORD_LIMIT, -10_000 <= sin <= 10_000;
            assert(-COORD_LIMIT * 10_000 <= self.y * cos <= COORD_LIMIT * 10_000) by (nonlinear_arith)
                requires -COORD_LIMIT <= self.y <= COORD_LIMIT, -10_000 <= cos <= 10_000;
        }
        let nx = self.x * cos - self.y * sin;
        let ny = self.x * sin + self.y * cos;
        let rx = div_toward_zero_exec(nx, 10_000);
        let ry = div_toward_zero_exec(ny, 10_000);
        Vec2 { x: rx, y: ry }
    }
}

} // verus!
