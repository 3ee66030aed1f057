use vstd::prelude::*;

use crate::units::{Length, Time};

verus! {

/// Bound on the magnitude of a coordinate: 2^62 nanometres.
pub const COORD_LIMIT: i64 = 0x4000_0000_0000_0000;

/// Two nodes are never placed closer than this, 0.05 m, which pathloss needs.
pub const MIN_DISTANCE_NM: i64 = 50_000_000;

/// An edge of a graph topology, with the distance it stands for.
#[derive(Clone, Copy, Debug, PartialEq, Eq, Structural)]
pub struct Edge {
    pub to: usize,
    pub weight: Length,
}

/// A position in the plane.
#[derive(Clone, Copy, Debug, PartialEq, Eq, Structural)]
pub struct Point {
    pub x: Length,
    pub y: Length,
}

pub open spec fn coord_ok(v: int) -> bool {
    -COORD_LIMIT <= v <= COORD_LIMIT
}

impl Point {
    pub open spec fn wf(self) -> bool {
        coord_ok(self.x@) && coord_ok(self.y@)
    }

    pub open spec fn norm_sq(self) -> int {
        self.x@ * self.x@ + self.y@ * self.y@
    }

    /// Distance from the origin, rounded down to a whole nanometre.
    pub fn mag(self) -> (r: Length)
        requires
            self.wf(),
        ensures
            0 <= r@,
            r@ * r@ <= self.norm_sq() < (r@ + 1) * (r@ + 1),
    {
        let x = self.x.nanometres as i128;
        let y = self.y.nanometres as i128;
        assert(x * x <= 0x1000_0000_0000_0000_0000_0000_0000_0000i128) by (nonlinear_arith)
            requires
                -0x4000_0000_0000_0000i128 <= x <= 0x4000_0000_0000_0000i128,
        ;
        assert(y * y <= 0x1000_0000_0000_0000_0000_0000_0000_0000i128) by (nonlinear_arith)
            requires
                -0x4000_0000_0000_0000i128 <= y <= 0x4000_0000_0000_0000i128,
        ;
        assert(x * x >= 0 && y * y >= 0) by (nonlinear_arith);
        let n = (x * x + y * y) as u128;
        let r = isqrt(n);
        Length { nanometres: r as i64 }
    }

    /// The point with its distance from the origin cut down to at most `max`,
    /// keeping its direction: each coordinate scaled by `max / mag`, rounded
    /// toward zero.
    pub fn clamp_mag(self, max: Length) -> (r: Point)
        requires
            self.wf(),
            max@ >= 0,
        ensures
            ({
                let m = self.mag_spec();
                &&& m <= max@ ==> r == self
                &&& m > max@ ==> r@ == (trunc_div(self.x@ * max@, m), trunc_div(self.y@ * max@, m))
            }),
            r.wf(),
    {
        let m = self.mag();
        proof {
            lemma_isqrt_unique(self.norm_sq(), m@, self.mag_spec());
        }
        if m.nanometres > max.nanometres {
            let xi = self.x.nanometres as i128;
            let yi = self.y.nanometres as i128;
            let mi = max.nanometres as i128;
            assert(-0x4000_0000_0000_0000i128 * 0x8000_0000_0000_0000i128 <= xi * mi
                <= 0x4000_0000_0000_0000i128 * 0x8000_0000_0000_0000i128) by (nonlinear_arith)
                requires
                    -0x4000_0000_0000_0000i128 <= xi <= 0x4000_0000_0000_0000i128,
                    0 <= mi <= 0x8000_0000_0000_0000i128,
            ;
            assert(-0x4000_0000_0000_0000i128 * 0x8000_0000_0000_0000i128 <= yi * mi
                <= 0x4000_0000_0000_0000i128 * 0x8000_0000_0000_0000i128) by (nonlinear_arith)
                requires
                    -0x4000_0000_0000_0000i128 <= yi <= 0x4000_0000_0000_0000i128,
                    0 <= mi <= 0x8000_0000_0000_0000i128,
            ;
            let xm = (self.x.nanometres as i128) * (max.nanometres as i128);
            let ym = (self.y.nanometres as i128) * (max.nanometres as i128);
            assert(-COORD_LIMIT * max@ <= xm <= COORD_LIMIT * max@) by (nonlinear_arith)
                requires
                    xm == self.x@ * max@,
                    coord_ok(self.x@),
                    max@ >= 0,
            ;
            assert(-COORD_LIMIT * max@ <= ym <= COORD_LIMIT * max@) by (nonlinear_arith)
                requires
                    ym == self.y@ * max@,
                    coord_ok(self.y@),
                    max@ >= 0,
            ;
            assert(self.x@ * self.x@ <= m@ * m@ + 2 * m@) by (nonlinear_arith)
                requires
                    self.x@ * self.x@ + self.y@ * self.y@ < (m@ + 1) * (m@ + 1),
            ;
            let x = tdiv(xm, m.nanometres as i128);
            let y = tdiv(ym, m.nanometres as i128);
            proof {
                lemma_scaled_coord(self.x@, self.y@, m@, max@);
                lemma_scaled_coord(self.y@, self.x@, m@, max@);
            }
            Point { x: Length { nanometres: x as i64 }, y: Length { nanometres: y as i64 } }
        } else {
            self
        }
    }

    pub open spec fn view(self) -> (int, int) {
        (self.x@, self.y@)
    }

    /// The whole-nanometre distance from the origin, rounded down.
    pub open spec fn mag_spec(self) -> int {
        choose|r: int| is_isqrt(self.norm_sq(), r)
    }
}

/// `r` is the square root of `n` rounded down.
pub open spec fn is_isqrt(n: int, r: int) -> bool {
    0 <= r && r * r <= n < (r + 1) * (r + 1)
}

/// Division rounded toward zero, as Rust's integer division does.
pub open spec fn trunc_div(a: int, b: int) -> int {
    if a >= 0 {
        a / b
    } else {
        -((-a) / b)
    }
}

fn tdiv(a: i128, b: i128) -> (r: i128)
    requires
        b > 0,
        a > i128::MIN,
    ensures
        r == trunc_div(a as int, b as int),
        a >= 0 ==> 0 <= r <= a,
        a < 0 ==> a <= r <= 0,
{
    if a >= 0 {
        assert(a / b <= a) by (nonlinear_arith)
            requires
                a >= 0,
                b > 0,
        ;
        a / b
    } else {
        let na: i128 = -a;
        assert(na / b <= na) by (nonlinear_arith)
            requires
                na >= 0,
                b > 0,
        ;
        -(na / b)
    }
}

/// A scaled coordinate `trunc(c · max / m)` stays within `max` where
/// `c² ≤ m²` roughly; it then fits a coordinate.
proof fn lemma_scaled_coord(c: int, other: int, m: int, max: int)
    requires
        0 <= max < m,
        coord_ok(c),
        c * c + other * other < (m + 1) * (m + 1),
        m * m <= c * c + other * other,
    ensures
        coord_ok(trunc_div(c * max, m)),
{
    assert(c * c <= m * m + 2 * m) by (nonlinear_arith)
        requires
            c * c + other * other < (m + 1) * (m + 1),
    ;
    if c >= 0 {
        assert((c * max) / m <= c) by (nonlinear_arith)
            requires
                0 <= c,
                0 <= max < m,
        ;
        assert((c * max) / m >= 0) by (nonlinear_arith)
            requires
                0 <= c,
                0 <= max,
                m > 0,
        ;
    } else {
        assert(((-c) * max) / m <= -c) by (nonlinear_arith)
            requires
                c < 0,
                0 <= max < m,
        ;
        assert(((-c) * max) / m >= 0) by (nonlinear_arith)
            requires
                c < 0,
                0 <= max,
                m > 0,
        ;
        assert(-(c * max) == (-c) * max) by (nonlinear_arith);
    }
}

/// The integer square root is unique.
proof fn lemma_isqrt_unique(n: int, a: int, b: int)
    requires
        0 <= a && a * a <= n < (a + 1) * (a + 1),
    ensures
        is_isqrt(n, b) ==> a == b,
        a == choose|r: int| is_isqrt(n, r),
{
    assert forall|c: int| is_isqrt(n, c) implies c == a by {
        if c < a {
            assert((c + 1) * (c + 1) <= a * a) by (nonlinear_arith)
                requires
                    0 <= c < a,
            ;
        } else if c > a {
            assert((a + 1) * (a + 1) <= c * c) by (nonlinear_arith)
                requires
                    0 <= a < c,
            ;
        }
    }
    assert(is_isqrt(n, a));
    let ch = choose|r: int| is_isqrt(n, r);
    assert(is_isqrt(n, ch));
}

/// Floor of the square root of `n`, which must be below 2^126.
pub fn isqrt(n: u128) -> (r: u64)
    requires
        n < 0x4000_0000_0000_0000_0000_0000_0000_0000u128,
    ensures
        r * r <= n < (r + 1) * (r + 1),
        r < 0x8000_0000_0000_0000u64,
{
    let mut lo: u128 = 0;
    let mut hi: u128 = 0x8000_0000_0000_0000;
    assert(hi * hi == 0x4000_0000_0000_0000_0000_0000_0000_0000u128) by (nonlinear_arith)
        requires
            hi == 0x8000_0000_0000_0000u128,
    ;
    while hi - lo > 1
        invariant
            lo < hi <= 0x8000_0000_0000_0000u128,
            lo * lo <= n < hi * hi,
        decreases hi - lo,
    {
        let mid = lo + (hi - lo) / 2;
        assert(mid * mid <= 0x4000_0000_0000_0000_0000_0000_0000_0000u128) by (nonlinear_arith)
            requires
                mid <= 0x8000_0000_0000_0000u128,
        ;
        if mid * mid <= n {
            lo = mid;
        } else {
            hi = mid;
        }
    }
    lo as u64
}

/// Node positions at one moment; the index is the node id.
#[derive(Clone, Debug)]
pub struct Timepoint {
    pub time: Time,
    pub node_points: Vec<Point>,
}

/// Bound on the magnitude of a node's coordinate: 2^61 nanometres, so that
/// differences of positions are points too.
pub const POSITION_LIMIT: i64 = 0x2000_0000_0000_0000;

pub open spec fn position_ok(p: Point) -> bool {
    -POSITION_LIMIT <= p.x@ <= POSITION_LIMIT && -POSITION_LIMIT <= p.y@ <= POSITION_LIMIT
}

/// The coordinate `num / den` of the way from `a` to `b`, rounded toward `a`.
pub open spec fn lerp_coord(a: int, b: int, num: int, den: int) -> int {
    a + trunc_div((b - a) * num, den)
}

pub open spec fn lerp_point(a: Point, b: Point, num: int, den: int) -> Point {
    Point {
        x: Length { nanometres: lerp_coord(a.x@, b.x@, num, den) as i64 },
        y: Length { nanometres: lerp_coord(a.y@, b.y@, num, den) as i64 },
    }
}

proof fn lemma_lerp_between(a: int, b: int, num: int, den: int)
    requires
        0 <= num < den,
    ensures
        a <= b ==> a <= lerp_coord(a, b, num, den) <= b,
        b < a ==> b <= lerp_coord(a, b, num, den) <= a,
{
    let d = b - a;
    if d >= 0 {
        assert(0 <= (d * num) / den <= d) by (nonlinear_arith)
            requires
                d >= 0,
                0 <= num < den,
        ;
    } else {
        assert(0 <= ((-d) * num) / den <= -d) by (nonlinear_arith)
            requires
                d < 0,
                0 <= num < den,
        ;
        assert(-(d * num) == (-d) * num) by (nonlinear_arith);
    }
}

fn lerp_exec(a: i64, b: i64, num: u64, den: u64) -> (r: i64)
    requires
        -POSITION_LIMIT <= a <= POSITION_LIMIT,
        -POSITION_LIMIT <= b <= POSITION_LIMIT,
        num < den,
    ensures
        r == lerp_coord(a as int, b as int, num as int, den as int),
        -POSITION_LIMIT <= r <= POSITION_LIMIT,
{
    let d = (b as i128) - (a as i128);
    let n = num as i128;
    assert(-0x4000_0000_0000_0000i128 * 0x1_0000_0000_0000_0000i128 <= d * n
        <= 0x4000_0000_0000_0000i128 * 0x1_0000_0000_0000_0000i128) by (nonlinear_arith)
        requires
            -0x4000_0000_0000_0000i128 <= d <= 0x4000_0000_0000_0000i128,
            0 <= n <= 0x1_0000_0000_0000_0000i128,
    ;
    let q = tdiv(d * n, den as i128);
    proof {
        lemma_lerp_between(a as int, b as int, num as int, den as int);
    }
    (a as i128 + q) as i64
}

/// Frames of node positions, ordered by time, every frame with a point for
/// every node; positions between frames are interpolated linearly.
#[derive(Clone, Debug)]
pub struct Points {
    pub data: Vec<Timepoint>,
}

/// The position of node `id` at `t` in frames `data`: the first frame's before
/// it, the last frame's from the last on, and between two frames the point
/// that part of the way from the one to the other.
pub open spec fn location_ok(data: Seq<Timepoint>, t: int, id: int, p: Point) -> bool {
    &&& (data.len() == 1 || t < data[0].time@) ==> p == data[0].node_points@[id]
    &&& t >= data.last().time@ ==> p == data.last().node_points@[id]
    &&& forall|k: int|
        0 <= k < data.len() - 1 && #[trigger] data[k].time@ <= t < data[k + 1].time@ ==> p == lerp_point(
            data[k].node_points@[id],
            data[k + 1].node_points@[id],
            t - data[k].time@,
            data[k + 1].time@ - data[k].time@,
        )
}

/// Frame times increase strictly.
pub open spec fn times_increase(data: Seq<Timepoint>) -> bool {
    forall|i: int, j: int| 0 <= i < j < data.len() ==> data[i].time@ < data[j].time@
}

/// Only one pair of neighbouring frames brackets a time.
proof fn lemma_bracket_unique(data: Seq<Timepoint>, t: int, k: int)
    requires
        times_increase(data),
        0 <= k < data.len() - 1,
        data[k].time@ <= t < data[k + 1].time@,
    ensures
        forall|j: int|
            0 <= j < data.len() - 1 && #[trigger] data[j].time@ <= t < data[j + 1].time@ ==> j == k,
{
    assert forall|j: int|
        0 <= j < data.len() - 1 && #[trigger] data[j].time@ <= t < data[j + 1].time@ implies j == k by {
        if j < k {
            assert(data[j + 1].time@ <= data[k].time@) by {
                if j + 1 < k {
                }
            }
        } else if j > k {
            assert(data[k + 1].time@ <= data[j].time@) by {
                if k + 1 < j {
                }
            }
        }
    }
}

impl Points {
    /// Frames present, in strictly increasing time, each with the same number
    /// of points, all within range.
    pub open spec fn wf(&self) -> bool {
        &&& self.data@.len() > 0
        &&& times_increase(self.data@)
        &&& forall|i: int|
            0 <= i < self.data@.len() ==> (#[trigger] self.data@[i]).node_points@.len()
                == self.data@[0].node_points@.len()
        &&& forall|i: int, j: int|
            0 <= i < self.data@.len() && 0 <= j < self.data@[i].node_points@.len() ==> position_ok(
                self.data@[i].node_points@[j],
            )
    }

    pub fn new(data: Vec<Timepoint>) -> (r: Points)
        ensures
            r.data@ == data@,
    {
        Points { data }
    }

    /// Number of nodes: the first frame's count, or 0 without frames.
    pub fn len(&self) -> (r: usize)
        ensures
            self.data@.len() == 0 ==> r == 0,
            self.data@.len() > 0 ==> r == self.data@[0].node_points@.len(),
    {
        if self.data.len() == 0 {
            0
        } else {
            self.data[0].node_points.len()
        }
    }

    /// Where node `id` is at `at_time`.
    pub fn location(&self, at_time: Time, id: usize) -> (r: Point)
        requires
            self.wf(),
            id < self.data@[0].node_points@.len(),
        ensures
            location_ok(self.data@, at_time@, id as int, r),
            position_ok(r),
    {
        let n = self.data.len();
        let last = &self.data[n - 1];
        if n == 1 || at_time.micros < self.data[0].time.micros {
            return self.data[0].node_points[id];
        }
        if at_time.micros >= last.time.micros {
            return last.node_points[id];
        }
        let mut k: usize = 0;
        while self.data[k + 1].time.micros <= at_time.micros
            invariant
                self.wf(),
                n == self.data@.len(),
                n >= 2,
                k < n - 1,
                self.data@[k as int].time@ <= at_time@ < self.data@[n - 1].time@,
            decreases n - k,
        {
            k += 1;
        }
        let prev = &self.data[k];
        let next = &self.data[k + 1];
        let a = prev.node_points[id];
        let b = next.node_points[id];
        let num = at_time.micros - prev.time.micros;
        let den = next.time.micros - prev.time.micros;
        let x = lerp_exec(a.x.nanometres, b.x.nanometres, num, den);
        let y = lerp_exec(a.y.nanometres, b.y.nanometres, num, den);
        let p = Point { x: Length { nanometres: x }, y: Length { nanometres: y } };
        proof {
            lemma_bracket_unique(self.data@, at_time@, k as int);
        }
        p
    }

    /// Distance between nodes `from_id` and `to_id` at `at_time`, rounded down
    /// to a whole nanometre and never below `MIN_DISTANCE_NM`.
    pub fn distance_to(&self, at_time: Time, from_id: usize, to_id: usize) -> (r: Length)
        requires
            self.wf(),
            from_id < self.data@[0].node_points@.len(),
            to_id < self.data@[0].node_points@.len(),
        ensures
            exists|a: Point, b: Point|
                #![trigger location_ok(self.data@, at_time@, from_id as int, a), location_ok(self.data@, at_time@, to_id as int, b)]
                location_ok(self.data@, at_time@, from_id as int, a) && location_ok(
                    self.data@,
                    at_time@,
                    to_id as int,
                    b,
                ) && {
                    let d = (Point {
                        x: Length { nanometres: (a.x@ - b.x@) as i64 },
                        y: Length { nanometres: (a.y@ - b.y@) as i64 },
                    }).mag_spec();
                    r@ == if d < MIN_DISTANCE_NM { MIN_DISTANCE_NM as int } else { d }
                },
    {
        let a = self.location(at_time, from_id);
        let b = self.location(at_time, to_id);
        let diff = Point {
            x: Length { nanometres: a.x.nanometres - b.x.nanometres },
            y: Length { nanometres: a.y.nanometres - b.y.nanometres },
        };
        let m = diff.mag();
        proof {
            lemma_isqrt_unique(diff.norm_sq(), m@, diff.mag_spec());
        }
        if m.nanometres < MIN_DISTANCE_NM {
            Length { nanometres: MIN_DISTANCE_NM }
        } else {
            m
        }
    }

    /// Every node but `node_id`: all pairs of nodes are in range of each other.
    pub fn get_adj(&self, node_id: usize) -> (r: Vec<usize>)
        ensures
            forall|i: int| 0 <= i < r@.len() ==> r@[i] != node_id,
            forall|v: usize| v < self.len_spec() && v != node_id ==> r@.contains(v),
            forall|i: int| 0 <= i < r@.len() ==> r@[i] < self.len_spec(),
    {
        let n = self.len();
        let mut out: Vec<usize> = Vec::new();
        let mut v: usize = 0;
        while v < n
            invariant
                v <= n,
                n == self.len_spec(),
                forall|i: int| 0 <= i < out@.len() ==> out@[i] != node_id && out@[i] < v,
                forall|w: usize| w < v && w != node_id ==> out@.contains(w),
            decreases n - v,
        {
            if v != node_id {
                let ghost before = out@;
                out.push(v);
                proof {
                    assert forall|w: usize| w < v + 1 && w != node_id implies out@.contains(w) by {
                        if w == v {
                            assert(out@[out@.len() - 1] == w);
                        } else {
                            assert(before.contains(w));
                            let i = choose|i: int| 0 <= i < before.len() && before[i] == w;
                            assert(out@[i] == w);
                        }
                    }
                }
            }
            v += 1;
        }
        out
    }

    pub open spec fn len_spec(&self) -> int {
        if self.data@.len() == 0 {
            0
        } else {
            self.data@[0].node_points@.len() as int
        }
    }

    /// Every node's position at `at_time`.
    pub fn display_locations(&self, at_time: Time) -> (r: Vec<Point>)
        requires
            self.wf(),
        ensures
            r@.len() == self.data@[0].node_points@.len(),
            forall|i: int| 0 <= i < r@.len() ==> location_ok(self.data@, at_time@, i, r@[i]),
    {
        let n = self.data[0].node_points.len();
        let mut out: Vec<Point> = Vec::new();
        let mut i: usize = 0;
        while i < n
            invariant
                self.wf(),
                n == self.data@[0].node_points@.len(),
                i <= n,
                out@.len() == i,
                forall|j: int| 0 <= j < i ==> location_ok(self.data@, at_time@, j, out@[j]),
            decreases n - i,
        {
            out.push(self.location(at_time, i));
            i += 1;
        }
        out
    }
}

/// The frames with nodes renumbered: node `j` of each new frame is node
/// `projection[j]` of the old one.
pub fn reorder_locations(map: Vec<Timepoint>, projection: Vec<usize>) -> (r: Vec<Timepoint>)
    requires
        forall|i: int, j: int|
            0 <= i < map@.len() && 0 <= j < projection@.len() ==> projection@[j]
                < map@[i].node_points@.len(),
    ensures
        r@.len() == map@.len(),
        forall|i: int|
            0 <= i < r@.len() ==> r@[i].time == map@[i].time && r@[i].node_points@.len()
                == projection@.len() && forall|j: int|
                0 <= j < projection@.len() ==> r@[i].node_points@[j] == map@[i].node_points@[projection@[j] as int],
{
    let mut out: Vec<Timepoint> = Vec::new();
    let mut i: usize = 0;
    while i < map.len()
        invariant
            i <= map@.len(),
            out@.len() == i,
            forall|a: int, j: int|
                0 <= a < map@.len() && 0 <= j < projection@.len() ==> projection@[j]
                    < map@[a].node_points@.len(),
            forall|a: int|
                0 <= a < i ==> out@[a].time == map@[a].time && out@[a].node_points@.len()
                    == projection@.len() && forall|j: int|
                    0 <= j < projection@.len() ==> out@[a].node_points@[j] == map@[a].node_points@[projection@[j] as int],
        decreases map@.len() - i,
    {
        let frame = &map[i];
        let mut pts: Vec<Point> = Vec::new();
        let mut j: usize = 0;
        while j < projection.len()
            invariant
                i < map@.len(),
                frame == &map@[i as int],
                j <= projection@.len(),
                pts@.len() == j,
                forall|a: int, k: int|
                    0 <= a < map@.len() && 0 <= k < projection@.len() ==> projection@[k]
                        < map@[a].node_points@.len(),
                forall|k: int| 0 <= k < j ==> pts@[k] == frame.node_points@[projection@[k] as int],
            decreases projection@.len() - j,
        {
            pts.push(frame.node_points[projection[j]]);
            j += 1;
        }
        out.push(Timepoint { time: frame.time, node_points: pts });
        i += 1;
    }
    out
}

/// A topology given as a weighted adjacency list.
#[derive(Clone, Debug)]
pub struct Graph {
    pub data: Vec<Vec<Edge>>,
}

impl Graph {
    pub fn new(edges: Vec<Vec<Edge>>) -> (r: Graph)
        ensures
            r.data@ == edges@,
    {
        Graph { data: edges }
    }

    /// Number of nodes.
    pub fn len(&self) -> (r: usize)
        ensures
            r == self.data@.len(),
    {
        self.data.len()
    }

    /// The weight of the first edge from `from_id` to `to_id`, or `None`
    /// where there is none.
    pub fn distance_to(&self, from_id: usize, to_id: usize) -> (r: Option<Length>)
        requires
            from_id < self.data@.len(),
        ensures
            r is None <==> forall|i: int|
                0 <= i < self.data@[from_id as int]@.len() ==> self.data@[from_id as int]@[i].to
                    != to_id,
            r matches Some(w) ==> exists|i: int|
                0 <= i < self.data@[from_id as int]@.len() && self.data@[from_id as int]@[i].to
                    == to_id && self.data@[from_id as int]@[i].weight == w && forall|j: int|
                    0 <= j < i ==> self.data@[from_id as int]@[j].to != to_id,
    {
        let edges = &self.data[from_id];
        let mut i: usize = 0;
        while i < edges.len()
            invariant
                i <= edges@.len(),
                edges@ == self.data@[from_id as int]@,
                forall|j: int| 0 <= j < i ==> edges@[j].to != to_id,
            decreases edges@.len() - i,
        {
            if edges[i].to == to_id {
                return Some(edges[i].weight);
            }
            i += 1;
        }
        None
    }

    /// The ends of `node_id`'s edges, in order.
    pub fn get_adj(&self, node_id: usize) -> (r: Vec<usize>)
        requires
            node_id < self.data@.len(),
        ensures
            r@.len() == self.data@[node_id as int]@.len(),
            forall|i: int| 0 <= i < r@.len() ==> r@[i] == self.data@[node_id as int]@[i].to,
    {
        let edges = &self.data[node_id];
        let mut out: Vec<usize> = Vec::new();
        let mut i: usize = 0;
        while i < edges.len()
            invariant
                i <= edges@.len(),
                edges@ == self.data@[node_id as int]@,
                out@.len() == i,
                forall|j: int| 0 <= j < i ==> out@[j] == edges@[j].to,
            decreases edges@.len() - i,
        {
            out.push(edges[i].to);
            i += 1;
        }
        out
    }
}

/// Where the nodes are: a graph of links with distances, or positions over time.
#[derive(Clone, Debug)]
pub enum NodeLocation {
    Graph(Graph),
    Points(Points),
}

impl NodeLocation {
    pub open spec fn len_spec(&self) -> int {
        match self {
            NodeLocation::Graph(g) => g.data@.len() as int,
            NodeLocation::Points(p) => p.len_spec(),
        }
    }

    /// Every edge ends at a node of the graph; positions are well formed.
    pub open spec fn wf(&self) -> bool {
        match self {
            NodeLocation::Graph(g) => forall|i: int, j: int|
                0 <= i < g.data@.len() && 0 <= j < g.data@[i]@.len() ==> (#[trigger] g.data@[i]@[j]).to
                    < g.data@.len(),
            NodeLocation::Points(p) => p.wf(),
        }
    }

    /// A node that hears another is a node of the topology.
    pub proof fn lemma_adjacent_in_range(&self, from: usize, to: usize)
        requires
            self.wf(),
            self.is_adjacent(from, to),
        ensures
            to < self.len_spec(),
    {
        match self {
            NodeLocation::Graph(g) => {
                let i = choose|i: int|
                    0 <= i < g.data@[from as int]@.len() && g.data@[from as int]@[i].to == to;
                assert(g.data@[from as int]@[i].to < g.data@.len());
            },
            NodeLocation::Points(p) => {},
        }
    }

    /// `to` hears what `from` sends: a graph edge from `from` to `to`, or any
    /// other node among positions.
    pub open spec fn is_adjacent(&self, from: usize, to: usize) -> bool {
        match self {
            NodeLocation::Graph(g) => from < g.data@.len() && exists|i: int|
                0 <= i < g.data@[from as int]@.len() && g.data@[from as int]@[i].to == to,
            NodeLocation::Points(p) => to < p.len_spec() && to != from,
        }
    }

    /// Number of nodes.
    pub fn len(&self) -> (r: usize)
        ensures
            r == self.len_spec(),
    {
        match self {
            NodeLocation::Graph(g) => g.len(),
            NodeLocation::Points(p) => p.len(),
        }
    }

    /// The nodes that hear what `node_id` sends.
    pub fn get_adj(&self, node_id: usize) -> (r: Vec<usize>)
        requires
            node_id < self.len_spec(),
        ensures
            forall|i: int| 0 <= i < r@.len() ==> self.is_adjacent(node_id, #[trigger] r@[i]),
            forall|v: usize| #[trigger] self.is_adjacent(node_id, v) ==> r@.contains(v),
    {
        match self {
            NodeLocation::Graph(g) => {
                let r = g.get_adj(node_id);
                assert forall|i: int| 0 <= i < r@.len() implies self.is_adjacent(node_id, #[trigger] r@[i]) by {
                    assert(g.data@[node_id as int]@[i].to == r@[i]);
                }
                assert forall|v: usize| #[trigger] self.is_adjacent(node_id, v) implies r@.contains(v) by {
                    let i = choose|i: int|
                        0 <= i < g.data@[node_id as int]@.len() && g.data@[node_id as int]@[i].to == v;
                    assert(r@[i] == v);
                }
                r
            },
            NodeLocation::Points(p) => p.get_adj(node_id),
        }
    }
}

/// Every edge from a node of `s` ends in `s`.
pub open spec fn closed_under_edges(graph: Seq<Vec<Edge>>, s: Set<usize>) -> bool {
    forall|u: usize, j: int|
        s.contains(u) && u < graph.len() && 0 <= j < graph[u as int]@.len() ==> s.contains(
            #[trigger] graph[u as int]@[j].to,
        )
}

/// `v` can be reached from node 0 along edges: it lies in every set that
/// holds node 0 and is closed under edges.
pub open spec fn reachable(graph: Seq<Vec<Edge>>, v: usize) -> bool {
    forall|c: Set<usize>| closed_under_edges(graph, c) && c.contains(0) ==> #[trigger] c.contains(v)
}

/// Number of unmarked entries.
pub open spec fn count_false(s: Seq<bool>) -> nat
    decreases s.len(),
{
    if s.len() == 0 {
        0
    } else {
        count_false(s.drop_last()) + if s.last() {
            0nat
        } else {
            1nat
        }
    }
}

proof fn lemma_mark(s: Seq<bool>, i: int)
    requires
        0 <= i < s.len(),
        !s[i],
    ensures
        count_false(s.update(i, true)) + 1 == count_false(s),
    decreases s.len(),
{
    let t = s.update(i, true);
    if i < s.len() - 1 {
        assert(t.drop_last() =~= s.drop_last().update(i, true));
        lemma_mark(s.drop_last(), i);
    } else {
        assert(t.drop_last() =~= s.drop_last());
    }
}

/// Whether every node can be reached from node 0.
pub fn graph_is_connected(graph: &Vec<Vec<Edge>>) -> (r: bool)
    requires
        graph@.len() > 0,
        forall|u: int, j: int|
            0 <= u < graph@.len() && 0 <= j < graph@[u]@.len() ==> (#[trigger] graph@[u]@[j]).to
                < graph@.len(),
    ensures
        r == forall|v: usize| v < graph@.len() ==> reachable(graph@, v),
{
    let n = graph.len();
    let mut visited: Vec<bool> = Vec::new();
    let mut k: usize = 0;
    while k < n
        invariant
            k <= n,
            visited@.len() == k,
            forall|v: int| 0 <= v < k ==> !visited@[v],
        decreases n - k,
    {
        visited.push(false);
        k += 1;
    }
    let mut queue: Vec<usize> = Vec::new();
    queue.push(0);
    visited.set(0, true);
    assert forall|c: Set<usize>| closed_under_edges(graph@, c) && c.contains(0) implies #[trigger] c.contains(
        queue@[0],
    ) by {}
    assert forall|v: int| 0 <= v < n && visited@[v] implies exists|i: int| 0 <= i < queue@.len() && queue@[i] == v by {
        assert(v == 0);
        assert(queue@[0] == 0);
    }
    let mut head: usize = 0;
    while head < queue.len()
        invariant
            n == graph@.len(),
            n > 0,
            forall|u: int, j: int|
                0 <= u < graph@.len() && 0 <= j < graph@[u]@.len() ==> (#[trigger] graph@[u]@[j]).to
                    < graph@.len(),
            visited@.len() == n,
            visited@[0],
            head <= queue@.len(),
            forall|i: int| 0 <= i < queue@.len() ==> (#[trigger] queue@[i]) < n && visited@[queue@[i] as int],
            forall|v: int| 0 <= v < n && visited@[v] ==> exists|i: int| 0 <= i < queue@.len() && queue@[i] == v,
            forall|i: int| 0 <= i < queue@.len() ==> reachable(graph@, #[trigger] queue@[i]),
            forall|i: int, j: int|
                0 <= i < head && 0 <= j < graph@[queue@[i] as int]@.len() ==> visited@[(#[trigger] graph@[queue@[i] as int]@[j]).to as int],
        decreases count_false(visited@), queue@.len() - head,
    {
        let u = queue[head];
        let edges = &graph[u];
        let ghost cf0 = count_false(visited@);
        let ghost ql0 = queue@.len();
        let mut j: usize = 0;
        while j < edges.len()
            invariant
                n == graph@.len(),
                u < n,
                edges@ == graph@[u as int]@,
                forall|a: int, b: int|
                    0 <= a < graph@.len() && 0 <= b < graph@[a]@.len() ==> (#[trigger] graph@[a]@[b]).to
                        < graph@.len(),
                visited@.len() == n,
                visited@[0],
                head < queue@.len(),
                queue@[head as int] == u,
                reachable(graph@, u),
                j <= edges@.len(),
                forall|i: int| 0 <= i < queue@.len() ==> (#[trigger] queue@[i]) < n && visited@[queue@[i] as int],
                forall|v: int| 0 <= v < n && visited@[v] ==> exists|i: int| 0 <= i < queue@.len() && queue@[i] == v,
                forall|i: int| 0 <= i < queue@.len() ==> reachable(graph@, #[trigger] queue@[i]),
                forall|i: int, b: int|
                    0 <= i < head && 0 <= b < graph@[queue@[i] as int]@.len() ==> visited@[(#[trigger] graph@[queue@[i] as int]@[b]).to as int],
                forall|b: int| 0 <= b < j ==> visited@[(#[trigger] edges@[b]).to as int],
                count_false(visited@) <= cf0,
                count_false(visited@) == cf0 ==> queue@.len() == ql0,
            decreases edges@.len() - j,
        {
            let w = edges[j].to;
            assert(graph@[u as int]@[j as int].to == w);
            if !visited[w] {
                proof {
                    lemma_mark(visited@, w as int);
                    assert forall|c: Set<usize>| closed_under_edges(graph@, c) && c.contains(0) implies #[trigger] c.contains(w) by {
                        assert(c.contains(u));
                        assert(c.contains(graph@[u as int]@[j as int].to));
                    }
                }
                let ghost vq = queue@;
                visited.set(w, true);
                queue.push(w);
                assert forall|v: int| 0 <= v < n && visited@[v] implies exists|i: int| 0 <= i < queue@.len() && queue@[i] == v by {
                    if v == w {
                        assert(queue@[queue@.len() - 1] == w);
                    } else {
                        let i = choose|i: int| 0 <= i < vq.len() && vq[i] == v;
                        assert(queue@[i] == v);
                    }
                }
            }
            j += 1;
        }
        head += 1;
    }
    let mut v: usize = 0;
    while v < n
        invariant
            n == graph@.len(),
            visited@.len() == n,
            v <= n,
            forall|i: int| 0 <= i < v ==> visited@[i],
            forall|i: int| 0 <= i < queue@.len() ==> (#[trigger] queue@[i]) < n && visited@[queue@[i] as int],
            forall|x: int| 0 <= x < n && visited@[x] ==> exists|i: int| 0 <= i < queue@.len() && queue@[i] == x,
            forall|i: int| 0 <= i < queue@.len() ==> reachable(graph@, #[trigger] queue@[i]),
            forall|i: int, j: int|
                0 <= i < queue@.len() && 0 <= j < graph@[queue@[i] as int]@.len() ==> visited@[(#[trigger] graph@[queue@[i] as int]@[j]).to as int],
            forall|u: int, j: int|
                0 <= u < graph@.len() && 0 <= j < graph@[u]@.len() ==> (#[trigger] graph@[u]@[j]).to
                    < graph@.len(),
            visited@[0],
        decreases n - v,
    {
        if !visited[v] {
            proof {
                let c = Set::new(|x: usize| x < n && visited@[x as int]);
                assert(c.contains(0));
                assert forall|a: usize, j: int|
                    c.contains(a) && a < graph@.len() && 0 <= j < graph@[a as int]@.len() implies c.contains(
                        #[trigger] graph@[a as int]@[j].to,
                    ) by {
                    let i = choose|i: int| 0 <= i < queue@.len() && queue@[i] == a;
                    assert(visited@[graph@[queue@[i] as int]@[j].to as int]);
                    assert(graph@[a as int]@[j].to < n);
                }
                assert(closed_under_edges(graph@, c));
                assert(!c.contains(v));
                assert(!reachable(graph@, v));
            }
            return false;
        }
        v += 1;
    }
    assert forall|x: usize| x < graph@.len() implies reachable(graph@, x) by {
        assert(visited@[x as int]);
        let i = choose|i: int| 0 <= i < queue@.len() && queue@[i] == x;
        assert(reachable(graph@, queue@[i]));
    }
    true
}

} // verus!
