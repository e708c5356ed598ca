use vstd::prelude::*;

verus! {

/// A point or a vector in fixed-point screen units.
#[derive(Clone, Copy, Debug, PartialEq, Eq, Structural)]
pub struct Point {
    pub x: i64,
    pub y: i64,
}

/// The mathematical value of a `Point`.
pub struct PointM {
    pub x: int,
    pub y: int,
}

impl View for Point {
    type V = PointM;

    open spec fn view(&self) -> PointM {
        PointM { x: self.x as int, y: self.y as int }
    }
}

pub open spec fn pt(x: int, y: int) -> PointM {
    PointM { x, y }
}

pub open spec fn translate(a: PointM, b: PointM) -> PointM {
    PointM { x: a.x + b.x, y: a.y + b.y }
}

pub open spec fn abs(v: int) -> int {
    if v >= 0 { v } else { -v }
}

/// Integer division rounding toward zero, as Rust's `/` does.
pub open spec fn trunc_div(a: int, d: int) -> int {
    if a >= 0 { a / d } else { -((-a) / d) }
}

impl Point {
    pub fn new(x: i64, y: i64) -> (r: Point)
        ensures
            r@ == pt(x as int, y as int),
    {
        Point { x, y }
    }
}


/// `r` is the square root of `n`, rounded down.
pub open spec fn is_floor_sqrt(n: int, r: int) -> bool {
    0 <= r && r * r <= n < (r + 1) * (r + 1)
}

pub open spec fn floor_sqrt(n: int) -> int {
    choose|r: int| is_floor_sqrt(n, r)
}

/// One component of magnitude `a` of a vector of squared length `s`, scaled
/// to length `speed`: `a * speed / sqrt(s)`, rounded down.
pub open spec fn scaled_magnitude(a: int, speed: int, s: int) -> int {
    floor_sqrt((a * a * (speed * speed)) / s)
}

/// `v` scaled to length `speed`, each component rounded toward zero; the
/// zero vector stays.
pub open spec fn rescale(v: PointM, speed: int) -> PointM {
    let s = v.x * v.x + v.y * v.y;
    if s == 0 {
        pt(0, 0)
    } else {
        let mx = scaled_magnitude(abs(v.x), speed, s);
        let my = scaled_magnitude(abs(v.y), speed, s);
        pt(if v.x >= 0 { mx } else { -mx }, if v.y >= 0 { my } else { -my })
    }
}

pub proof fn lemma_floor_sqrt_unique(n: int, r: int, s: int)
    requires
        is_floor_sqrt(n, r),
        is_floor_sqrt(n, s),
    ensures
        r == s,
{
    if r < s {
        assert((r + 1) * (r + 1) <= s * s) by (nonlinear_arith)
            requires 0 <= r, r + 1 <= s;
    } else if s < r {
        assert((s + 1) * (s + 1) <= r * r) by (nonlinear_arith)
            requires 0 <= s, s + 1 <= r;
    }
}

pub proof fn lemma_floor_sqrt_exists(n: nat)
    ensures
        is_floor_sqrt(n as int, floor_sqrt(n as int)),
    decreases n,
{
    if n == 0 {
        assert(is_floor_sqrt(0, 0));
    } else {
        lemma_floor_sqrt_exists((n - 1) as nat);
        let r = floor_sqrt(n - 1);
        if (r + 1) * (r + 1) <= n {
            assert((r + 1) * (r + 1) + 1 <= (r + 2) * (r + 2)) by (nonlinear_arith)
                requires 0 <= r;
            assert(is_floor_sqrt(n as int, r + 1));
        } else {
            assert(is_floor_sqrt(n as int, r));
        }
    }
}

/// The scaled magnitude is the largest `q` with `q * q * s <= a * a * speed * speed`.
proof fn lemma_scaled_magnitude(a: int, speed: int, s: int)
    requires
        0 <= a,
        a * a <= s,
        0 < s,
        0 <= speed,
    ensures
        0 <= scaled_magnitude(a, speed, s) <= speed,
        scaled_magnitude(a, speed, s) * scaled_magnitude(a, speed, s) * s
            <= a * a * (speed * speed),
        a * a * (speed * speed)
            < (scaled_magnitude(a, speed, s) + 1) * (scaled_magnitude(a, speed, s) + 1) * s,
{
    let big = a * a * (speed * speed);
    assert(0 <= big) by (nonlinear_arith)
        requires big == a * a * (speed * speed);
    let t = big / s;
    vstd::arithmetic::div_mod::lemma_fundamental_div_mod(big, s);
    vstd::arithmetic::div_mod::lemma_mod_pos_bound(big, s);
    vstd::arithmetic::div_mod::lemma_div_pos_is_pos(big, s);
    lemma_floor_sqrt_exists(t as nat);
    let q = floor_sqrt(t);
    assert(t * s <= big < (t + 1) * s) by (nonlinear_arith)
        requires big == s * t + big % s, 0 <= big % s < s;
    assert(q * q * s <= big) by (nonlinear_arith)
        requires q * q <= t, t * s <= big, 0 < s;
    assert(big < (q + 1) * (q + 1) * s) by (nonlinear_arith)
        requires t + 1 <= (q + 1) * (q + 1), big < (t + 1) * s, 0 < s;
    assert(q * q <= speed * speed) by (nonlinear_arith)
        requires q * q * s <= big, big == a * a * (speed * speed), a * a <= s, 0 < s, 0 <= speed;
    assert(q <= speed) by (nonlinear_arith)
        requires q * q <= speed * speed, 0 <= q, 0 <= speed;
}

/// Each rescaled component keeps its sign, is at most `speed`, and is the
/// component of `v` scaled to length `speed`, rounded toward zero:
/// `r.x * r.x * s <= v.x * v.x * speed * speed < (|r.x| + 1) * (|r.x| + 1) * s`.
pub proof fn lemma_rescale_bounded(v: PointM, speed: int)
    requires
        0 <= speed,
    ensures
        abs(rescale(v, speed).x) <= speed,
        abs(rescale(v, speed).y) <= speed,
        v.x >= 0 ==> rescale(v, speed).x >= 0,
        v.x <= 0 ==> rescale(v, speed).x <= 0,
        v.y >= 0 ==> rescale(v, speed).y >= 0,
        v.y <= 0 ==> rescale(v, speed).y <= 0,
        ({
            let r = rescale(v, speed);
            let s = v.x * v.x + v.y * v.y;
            s > 0 ==> {
                &&& r.x * r.x * s <= v.x * v.x * (speed * speed)
                &&& v.x * v.x * (speed * speed) < (abs(r.x) + 1) * (abs(r.x) + 1) * s
                &&& r.y * r.y * s <= v.y * v.y * (speed * speed)
                &&& v.y * v.y * (speed * speed) < (abs(r.y) + 1) * (abs(r.y) + 1) * s
            }
        }),
{
    let s = v.x * v.x + v.y * v.y;
    assert(0 <= v.x * v.x && 0 <= v.y * v.y) by (nonlinear_arith);
    if s != 0 {
        let ax = abs(v.x);
        let ay = abs(v.y);
        assert(ax * ax == v.x * v.x && ay * ay == v.y * v.y) by (nonlinear_arith)
            requires ax == abs(v.x), ay == abs(v.y);
        lemma_scaled_magnitude(ax, speed, s);
        lemma_scaled_magnitude(ay, speed, s);
        let r = rescale(v, speed);
        let mx = scaled_magnitude(ax, speed, s);
        let my = scaled_magnitude(ay, speed, s);
        assert(r.x * r.x == mx * mx && r.y * r.y == my * my) by (nonlinear_arith)
            requires r.x == mx || r.x == -mx, r.y == my || r.y == -my;
        if v.x == 0 {
            assert(ax * ax * (speed * speed) == 0) by (nonlinear_arith) requires ax == 0;
            assert(mx * mx * s <= 0);
            assert(mx == 0) by (nonlinear_arith) requires mx * mx * s <= 0, s > 0, mx >= 0;
        }
        if v.y == 0 {
            assert(ay * ay * (speed * speed) == 0) by (nonlinear_arith) requires ay == 0;
            assert(my * my * s <= 0);
            assert(my == 0) by (nonlinear_arith) requires my * my * s <= 0, s > 0, my >= 0;
        }
    }
}

/// A rescaled non-zero vector has length at most `speed`, and its
/// components rounded up by one reach past `speed`.
pub proof fn lemma_rescale_length(v: PointM, speed: int)
    requires
        0 <= speed,
        v.x != 0 || v.y != 0,
    ensures
        ({
            let r = rescale(v, speed);
            &&& r.x * r.x + r.y * r.y <= speed * speed
            &&& (abs(r.x) + 1) * (abs(r.x) + 1) + (abs(r.y) + 1) * (abs(r.y) + 1) > speed * speed
        }),
{
    let s = v.x * v.x + v.y * v.y;
    assert(s > 0) by (nonlinear_arith)
        requires s == v.x * v.x + v.y * v.y, v.x != 0 || v.y != 0;
    lemma_rescale_bounded(v, speed);
    let r = rescale(v, speed);
    let ux = abs(r.x) + 1;
    let uy = abs(r.y) + 1;
    assert((r.x * r.x + r.y * r.y) * s <= (speed * speed) * s) by (nonlinear_arith)
        requires
            r.x * r.x * s <= v.x * v.x * (speed * speed),
            r.y * r.y * s <= v.y * v.y * (speed * speed),
            s == v.x * v.x + v.y * v.y;
    assert(r.x * r.x + r.y * r.y <= speed * speed) by (nonlinear_arith)
        requires (r.x * r.x + r.y * r.y) * s <= (speed * speed) * s, s > 0;
    assert((speed * speed) * s < (ux * ux + uy * uy) * s) by (nonlinear_arith)
        requires
            v.x * v.x * (speed * speed) < ux * ux * s,
            v.y * v.y * (speed * speed) < uy * uy * s,
            s == v.x * v.x + v.y * v.y;
    assert(ux * ux + uy * uy > speed * speed) by (nonlinear_arith)
        requires (speed * speed) * s < (ux * ux + uy * uy) * s, s > 0;
}

/// `m * k / d` rounded down, computed without a wider type.
pub fn mul_div(m: u128, k: u128, d: u128) -> (q: u128)
    requires
        0 < d <= 0x4_0000_0000_0000_0000_0000_0000_0000,
        m <= d,
        k <= 0x200_0000_0000,
    ensures
        q as int == (m as int * k as int) / (d as int),
{
    let mut q: u128 = 0;
    let mut r: u128 = 0;
    let mut cq: u128 = m / d;
    let mut cr: u128 = m % d;
    let mut kk: u128 = k;
    proof {
        vstd::arithmetic::div_mod::lemma_fundamental_div_mod(m as int, d as int);
        vstd::arithmetic::div_mod::lemma_mod_pos_bound(m as int, d as int);
        assert(cq <= 1) by (nonlinear_arith)
            requires m == d * cq + cr, 0 <= cr, m <= d, d > 0, 0 <= cq;
        assert(m * k == (cq * d + cr) * kk) by (nonlinear_arith)
            requires m == d * cq + cr, kk == k;
    }
    while kk > 0
        invariant
            0 < d <= 0x4_0000_0000_0000_0000_0000_0000_0000,
            m <= d,
            k <= 0x200_0000_0000,
            r < d,
            cr < d,
            q <= k,
            kk > 0 ==> cq <= k,
            m * k == (q * d + r) + (cq * d + cr) * kk,
        decreases kk,
    {
        let ghost oq = q as int;
        let ghost or = r as int;
        let ghost ocq = cq as int;
        let ghost ocr = cr as int;
        let ghost k0 = kk as int;
        let ghost cur = ocq * d + ocr;
        if kk % 2 == 1 {
            let nr = r + cr;
            if nr >= d {
                q = q + cq + 1;
                r = nr - d;
            } else {
                q = q + cq;
                r = nr;
            }
        }
        kk = kk / 2;
        if kk > 0 {
            let nr = cr + cr;
            if nr >= d {
                cq = cq + cq + 1;
                cr = nr - d;
            } else {
                cq = cq + cq;
                cr = nr;
            }
        }
        proof {
            let acc = oq * d + or;
            if k0 % 2 == 1 {
                assert(q * d + r == acc + cur) by (nonlinear_arith)
                    requires
                        (q == oq + ocq + 1 && r == or + ocr - d) || (q == oq + ocq && r == or + ocr),
                        acc == oq * d + or,
                        cur == ocq * d + ocr;
                assert(m * k == (q * d + r) + cur * (2 * kk)) by (nonlinear_arith)
                    requires m * k == acc + cur * k0, q * d + r == acc + cur, k0 == 2 * kk + 1;
            } else {
                assert(m * k == (q * d + r) + cur * (2 * kk)) by (nonlinear_arith)
                    requires m * k == acc + cur * k0, q == oq, r == or, acc == oq * d + or,
                        k0 == 2 * kk;
            }
            if kk > 0 {
                assert(cq * d + cr == 2 * cur) by (nonlinear_arith)
                    requires
                        (cq == 2 * ocq + 1 && cr == 2 * ocr - d) || (cq == 2 * ocq && cr == 2 * ocr),
                        cur == ocq * d + ocr;
                assert(m * k == (q * d + r) + (cq * d + cr) * kk) by (nonlinear_arith)
                    requires m * k == (q * d + r) + cur * (2 * kk), cq * d + cr == 2 * cur;
                assert(cq <= k) by (nonlinear_arith)
                    requires m * k == (q * d + r) + (cq * d + cr) * kk, kk >= 1, 0 <= q, 0 <= r,
                        0 <= cr, 0 <= cq, m <= d, 0 < d, 0 <= k;
            } else {
                assert(m * k == (q * d + r) + (cq * d + cr) * kk) by (nonlinear_arith)
                    requires m * k == (q * d + r) + cur * (2 * kk), kk == 0;
            }
            assert(q <= k) by (nonlinear_arith)
                requires m * k == (q * d + r) + (cq * d + cr) * kk, kk >= 0, 0 <= q, 0 <= r,
                    0 <= cr, 0 <= cq, m <= d, 0 < d, 0 <= k;
        }
    }
    proof {
        vstd::arithmetic::div_mod::lemma_fundamental_div_mod_converse(
            m as int * k as int, d as int, q as int, r as int);
    }
    q
}

/// The square root of `n`, rounded down.
pub fn isqrt(n: u128) -> (r: u128)
    requires
        n <= 0x4_0000_0000_0000_0000_0000_0000_0000,
    ensures
        is_floor_sqrt(n as int, r as int),
        r <= 0x200_0000_0000_0000,
{
    let mut lo: u128 = 0;
    let mut hi: u128 = 0x200_0000_0000_0001;
    assert(n < hi * hi) by (nonlinear_arith)
        requires n <= 0x4_0000_0000_0000_0000_0000_0000_0000, hi == 0x200_0000_0000_0001u128;
    while lo + 1 < hi
        invariant
            lo < hi <= 0x200_0000_0000_0001,
            lo * lo <= n,
            n < hi * hi,
        decreases hi - lo,
    {
        let mid = lo + (hi - lo) / 2;
        assert(mid * mid <= 0x5_0000_0000_0000_0000_0000_0000_0000) by (nonlinear_arith)
            requires mid <= 0x200_0000_0000_0001u128;
        if mid * mid <= n {
            lo = mid;
        } else {
            hi = mid;
        }
    }
    assert(lo <= 0x200_0000_0000_0000) by (nonlinear_arith)
        requires lo * lo <= n, n <= 0x4_0000_0000_0000_0000_0000_0000_0000, lo >= 0;
    lo
}

/// `v` scaled to length `speed` (see `rescale`).
pub fn rescaled(v: Point, speed: i64) -> (r: Point)
    requires
        abs(v.x as int) <= 0x100_0000_0000_0000,
        abs(v.y as int) <= 0x100_0000_0000_0000,
        0 <= speed <= 0x10_0000,
    ensures
        r@ == rescale(v@, speed as int),
        abs(r.x as int) <= speed,
        abs(r.y as int) <= speed,
{
    proof {
        lemma_rescale_bounded(v@, speed as int);
    }
    let ax: u128 = if v.x >= 0 { v.x as u128 } else { (-(v.x as i128)) as u128 };
    let ay: u128 = if v.y >= 0 { v.y as u128 } else { (-(v.y as i128)) as u128 };
    assert(ax * ax <= 0x1_0000_0000_0000_0000_0000_0000_0000) by (nonlinear_arith)
        requires ax <= 0x100_0000_0000_0000u128;
    assert(ay * ay <= 0x1_0000_0000_0000_0000_0000_0000_0000) by (nonlinear_arith)
        requires ay <= 0x100_0000_0000_0000u128;
    assert(ax * ax == v.x * v.x && ay * ay == v.y * v.y) by (nonlinear_arith)
        requires ax == abs(v.x as int), ay == abs(v.y as int);
    let s = ax * ax + ay * ay;
    if s == 0 {
        Point { x: 0, y: 0 }
    } else {
        let sp = speed as u128;
        assert(sp * sp <= 0x100_0000_0000) by (nonlinear_arith)
            requires sp <= 0x10_0000u128;
        let sp2 = sp * sp;
        let tx = mul_div(ax * ax, sp2, s);
        let ty = mul_div(ay * ay, sp2, s);
        assert(tx <= sp2 && ty <= sp2) by {
            assert((ax * ax) as int * sp2 as int <= s as int * sp2 as int) by (nonlinear_arith)
                requires ax * ax <= s, 0 <= sp2;
            assert((ay * ay) as int * sp2 as int <= s as int * sp2 as int) by (nonlinear_arith)
                requires ay * ay <= s, 0 <= sp2;
            vstd::arithmetic::div_mod::lemma_div_is_ordered(
                (ax * ax) as int * sp2 as int, s as int * sp2 as int, s as int);
            vstd::arithmetic::div_mod::lemma_div_is_ordered(
                (ay * ay) as int * sp2 as int, s as int * sp2 as int, s as int);
            vstd::arithmetic::div_mod::lemma_div_multiples_vanish(sp2 as int, s as int);
        }
        let qx = isqrt(tx);
        let qy = isqrt(ty);
        proof {
            assert(tx as int == (v.x * v.x * (speed * speed)) / (s as int));
            assert(ty as int == (v.y * v.y * (speed * speed)) / (s as int));
            assert(ax as int == abs(v.x as int) && ay as int == abs(v.y as int));
            lemma_floor_sqrt_unique(tx as int, qx as int, floor_sqrt(tx as int));
            lemma_floor_sqrt_unique(ty as int, qy as int, floor_sqrt(ty as int));
            lemma_floor_sqrt_exists(tx as nat);
            lemma_floor_sqrt_exists(ty as nat);
        }
        let mx = qx as i64;
        let my = qy as i64;
        Point { x: if v.x >= 0 { mx } else { -mx }, y: if v.y >= 0 { my } else { -my } }
    }
}

} // verus!
