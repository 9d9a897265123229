use vstd::prelude::*;

verus! {

/// A pixel position: `x` grows to the right, `y` grows downward.
#[derive(Clone, Copy, Debug, PartialEq, Eq, Structural)]
pub struct Point {
    pub x: i32,
    pub y: i32,
}

/// Largest magnitude of the cross product of two points with `i32` coordinates.
pub open spec fn cross_bound() -> int {
    0x8000_0000_0000_0000
}

/// The cross product `a × b` of two positions taken as vectors.
pub open spec fn cross(a: Point, b: Point) -> int {
    a.x * b.y - a.y * b.x
}

/// The vertex before vertex `i` in a closed polygon of `n` vertices.
pub open spec fn prev_index(n: nat, i: int) -> int {
    if i == 0 {
        n - 1
    } else {
        i - 1
    }
}

/// Sum, over the first `k` vertices, of the cross product of each vertex's
/// predecessor with it (the first vertex's predecessor is the last one).
pub open spec fn shoelace(pts: Seq<Point>, k: nat) -> int
    decreases k,
{
    if k == 0 || pts.len() == 0 {
        0
    } else {
        shoelace(pts, (k - 1) as nat) + cross(pts[prev_index(pts.len(), k - 1)], pts[k - 1])
    }
}

/// Twice the area enclosed by a closed polygon: the absolute value of its
/// shoelace sum. An empty contour encloses nothing.
pub open spec fn twice_area(pts: Seq<Point>) -> nat {
    let s = shoelace(pts, pts.len());
    if s < 0 {
        (-s) as nat
    } else {
        s as nat
    }
}

/// Twice the area enclosed by `contour`, read as a closed polygon.
///
/// The result is exact; with `i128` partial sums no vertex count that fits
/// in memory can overflow.
pub fn doubled_area(contour: &Vec<Point>) -> (a: u128)
    ensures
        a == twice_area(contour@),
{
    let n = contour.len();
    if n == 0 {
        return 0;
    }
    let mut acc: i128 = 0;
    let mut prev = contour[n - 1];
    let mut i: usize = 0;
    while i < n
        invariant
            0 <= i <= n,
            n == contour@.len(),
            n > 0,
            acc == shoelace(contour@, i as nat),
            prev == contour@[prev_index(n as nat, i as int)],
            -(i * cross_bound()) <= acc <= i * cross_bound(),
        decreases n - i,
    {
        let p = contour[i];
        proof {
            let (ax, ay, bx, by) = (prev.x as int, prev.y as int, p.x as int, p.y as int);
            assert(-0x4000_0000_0000_0000 <= ax * by <= 0x4000_0000_0000_0000) by (nonlinear_arith)
                requires
                    -0x8000_0000 <= ax <= 0x7fff_ffff,
                    -0x8000_0000 <= by <= 0x7fff_ffff,
            ;
            assert(-0x4000_0000_0000_0000 <= ay * bx <= 0x4000_0000_0000_0000) by (nonlinear_arith)
                requires
                    -0x8000_0000 <= ay <= 0x7fff_ffff,
                    -0x8000_0000 <= bx <= 0x7fff_ffff,
            ;
        }
        let term = (prev.x as i128) * (p.y as i128) - (prev.y as i128) * (p.x as i128);
        acc = acc + term;
        prev = p;
        i = i + 1;
    }
    if acc < 0 {
        (-acc) as u128
    } else {
        acc as u128
    }
}

/// Twice the area of contour `j` of `cs`.
pub open spec fn area_of(cs: Seq<Vec<Point>>, j: int) -> nat {
    twice_area(cs[j]@)
}

/// Contour `i` encloses at least as much as every contour, and strictly more
/// than every contour after it: it is the last of the largest.
pub open spec fn is_last_largest(cs: Seq<Vec<Point>>, i: int) -> bool {
    &&& 0 <= i < cs.len()
    &&& forall|j: int| 0 <= j < cs.len() ==> area_of(cs, j) <= area_of(cs, i)
    &&& forall|j: int| i < j < cs.len() ==> area_of(cs, j) < area_of(cs, i)
}

/// The index of the contour that encloses the largest area, the last one
/// where several enclose the same largest area; `None` where there is no
/// contour.
pub fn largest_contour(contours: &Vec<Vec<Point>>) -> (r: Option<usize>)
    ensures
        r is None <==> contours@.len() == 0,
        r matches Some(i) ==> is_last_largest(contours@, i as int),
{
    let n = contours.len();
    if n == 0 {
        return None;
    }
    let mut best: usize = 0;
    let mut best_area = doubled_area(&contours[0]);
    let mut i: usize = 1;
    while i < n
        invariant
            1 <= i <= n,
            n == contours@.len(),
            best < i,
            best_area == area_of(contours@, best as int),
            forall|j: int| 0 <= j < i ==> area_of(contours@, j) <= area_of(contours@, best as int),
            forall|j: int| best < j < i ==> area_of(contours@, j) < area_of(contours@, best as int),
        decreases n - i,
    {
        let a = doubled_area(&contours[i]);
        if a >= best_area {
            best = i;
            best_area = a;
        }
        i = i + 1;
    }
    Some(best)
}

/// The same closed polygon traversed from vertex `k` on.
pub open spec fn rotated(pts: Seq<Point>, k: int) -> Seq<Point> {
    pts.subrange(k, pts.len() as int) + pts.subrange(0, k)
}

proof fn lemma_shoelace_step(pts: Seq<Point>, k: nat)
    requires
        k < pts.len(),
    ensures
        shoelace(pts, k + 1) == shoelace(pts, k) + cross(pts[prev_index(pts.len(), k as int)], pts[k as int]),
{
}

proof fn lemma_rotate_one_prefix(p: Seq<Point>, q: Seq<Point>, k: nat)
    requires
        p.len() >= 2,
        q == rotated(p, 1),
        k <= p.len() - 1,
    ensures
        shoelace(q, k) == shoelace(p, k + 1) - shoelace(p, 1),
    decreases k,
{
    let n = p.len();
    if k == 0 {
        assert(shoelace(q, 0) == 0);
    } else {
        let j = (k - 1) as nat;
        lemma_rotate_one_prefix(p, q, j);
        lemma_shoelace_step(q, j);
        lemma_shoelace_step(p, j + 1);
        assert(q[j as int] == p[j + 1int]);
        if j == 0 {
            assert(q[n - 1] == p[0]);
        } else {
            assert(q[j - 1int] == p[j as int]);
        }
    }
}

proof fn lemma_rotate_one(p: Seq<Point>)
    ensures
        shoelace(rotated(p, 1), p.len()) == shoelace(p, p.len()),
{
    let n = p.len();
    let q = rotated(p, 1);
    if n == 0 {
    } else if n == 1 {
        assert(q =~= p);
    } else {
        lemma_rotate_one_prefix(p, q, (n - 1) as nat);
        lemma_shoelace_step(q, (n - 1) as nat);
        lemma_shoelace_step(p, 0);
        assert(q[n - 2] == p[n - 1]);
        assert(q[n - 1] == p[0]);
    }
}

/// Where a closed polygon's traversal starts does not change the area it
/// encloses.
pub proof fn lemma_area_rotation(pts: Seq<Point>, k: int)
    requires
        0 <= k <= pts.len(),
    ensures
        twice_area(rotated(pts, k)) == twice_area(pts),
    decreases k,
{
    if k == 0 {
        assert(rotated(pts, 0) =~= pts);
    } else {
        lemma_area_rotation(pts, k - 1);
        let r = rotated(pts, k - 1);
        lemma_rotate_one(r);
        if k - 1 < pts.len() {
            assert(rotated(r, 1) =~= rotated(pts, k));
        }
    }
}

proof fn lemma_cross_antisymmetric(a: Point, b: Point)
    ensures
        cross(a, b) == -cross(b, a),
{
    let (ax, ay, bx, by) = (a.x as int, a.y as int, b.x as int, b.y as int);
    assert(ax * by - ay * bx == -(bx * ay - by * ax)) by (nonlinear_arith);
}

proof fn lemma_reverse_prefix(p: Seq<Point>, r: Seq<Point>, k: nat)
    requires
        p.len() >= 1,
        r == p.reverse(),
        1 <= k <= p.len(),
    ensures
        shoelace(r, k) == -(shoelace(p, 1) + shoelace(p, p.len()) - shoelace(p, (p.len() - k + 1) as nat)),
    decreases k,
{
    let n = p.len();
    if k == 1 {
        lemma_shoelace_step(r, 0);
        lemma_shoelace_step(p, 0);
        assert(r[n - 1] == p[0]);
        assert(r[0] == p[n - 1]);
        lemma_cross_antisymmetric(p[n - 1], p[0]);
    } else {
        let j = (k - 1) as nat;
        lemma_reverse_prefix(p, r, j);
        lemma_shoelace_step(r, j);
        lemma_shoelace_step(p, (n - k) as nat);
        assert(r[j - 1int] == p[n - j]);
        assert(r[j as int] == p[n - 1 - j]);
        lemma_cross_antisymmetric(p[n - j - 1], p[n - j]);
    }
}

/// Traversing a closed polygon the other way round does not change the
/// area it encloses.
pub proof fn lemma_area_reversal(pts: Seq<Point>)
    ensures
        twice_area(pts.reverse()) == twice_area(pts),
{
    let n = pts.len();
    if n > 0 {
        lemma_reverse_prefix(pts, pts.reverse(), n);
        assert(shoelace(pts, 0) == 0);
    }
}

/// `b` lists the vertices of the closed polygon `a`, from some starting
/// vertex, in either direction.
pub open spec fn same_polygon(a: Seq<Point>, b: Seq<Point>) -> bool {
    exists|k: int|
        0 <= k <= a.len() && (b == rotated(a, k) || b == rotated(a, k).reverse())
}

/// Listing the same closed polygon from another vertex or the other way
/// round does not change the area it encloses.
pub proof fn lemma_area_same_polygon(a: Seq<Point>, b: Seq<Point>)
    requires
        same_polygon(a, b),
    ensures
        twice_area(a) == twice_area(b),
{
    let k = choose|k: int|
        0 <= k <= a.len() && (b == rotated(a, k) || b == rotated(a, k).reverse());
    lemma_area_rotation(a, k);
    lemma_area_reversal(rotated(a, k));
}

/// Which contour is the last of the largest does not depend on where the
/// traversal of each contour starts, nor on which way round it goes.
pub proof fn lemma_largest_ignores_traversal(cs1: Seq<Vec<Point>>, cs2: Seq<Vec<Point>>, i: int)
    requires
        cs1.len() == cs2.len(),
        forall|j: int| 0 <= j < cs1.len() ==> same_polygon(#[trigger] cs1[j]@, cs2[j]@),
    ensures
        is_last_largest(cs1, i) <==> is_last_largest(cs2, i),
{
    assert forall|j: int| 0 <= j < cs1.len() implies area_of(cs1, j) == area_of(cs2, j) by {
        lemma_area_same_polygon(cs1[j]@, cs2[j]@);
    }
}

/// The axis-aligned rectangle with opposite corners `(x0, y0)` and
/// `(x1, y1)`, listed corner by corner.
pub open spec fn rectangle(x0: i32, y0: i32, x1: i32, y1: i32) -> Seq<Point> {
    seq![
        Point { x: x0, y: y0 },
        Point { x: x1, y: y0 },
        Point { x: x1, y: y1 },
        Point { x: x0, y: y1 },
    ]
}

/// `m` lies on the straight line through `a` and `b`.
pub open spec fn on_line(a: Point, b: Point, m: Point) -> bool {
    (m.x - a.x) * (b.y - a.y) == (m.y - a.y) * (b.x - a.x)
}

/// The magnitude of `x`.
pub open spec fn abs_int(x: int) -> int {
    if x < 0 {
        -x
    } else {
        x
    }
}

proof fn lemma_abs_mul(u: int, v: int)
    ensures
        abs_int(u * v) == abs_int(u) * abs_int(v),
{
    if u >= 0 && v >= 0 {
        assert(u * v >= 0) by (nonlinear_arith)
            requires
                u >= 0,
                v >= 0,
        ;
    } else if u < 0 && v < 0 {
        assert(u * v > 0 && u * v == (-u) * (-v)) by (nonlinear_arith)
            requires
                u < 0,
                v < 0,
        ;
    } else if u < 0 {
        assert(u * v <= 0 && -(u * v) == (-u) * v) by (nonlinear_arith)
            requires
                u < 0,
                v >= 0,
        ;
    } else {
        assert(u * v <= 0 && -(u * v) == u * (-v)) by (nonlinear_arith)
            requires
                u >= 0,
                v < 0,
        ;
    }
}

/// A `w` by `h` rectangle encloses `w * h`: twice that is `2 * |w| * |h|`.
pub proof fn lemma_area_rectangle(x0: i32, y0: i32, x1: i32, y1: i32)
    ensures
        twice_area(rectangle(x0, y0, x1, y1)) == 2 * abs_int(x1 - x0) * abs_int(y1 - y0),
{
    let r = rectangle(x0, y0, x1, y1);
    reveal_with_fuel(shoelace, 5);
    let (a, b, c, d) = (x0 as int, y0 as int, x1 as int, y1 as int);
    assert(shoelace(r, 4) == (a * b - d * a) + (a * b - b * c) + (c * d - b * c) + (c * d - d * a));
    assert((a * b - d * a) + (a * b - b * c) + (c * d - b * c) + (c * d - d * a) == 2 * ((c - a) * (
        d - b))) by (nonlinear_arith);
    lemma_abs_mul(c - a, d - b);
    assert(2 * (abs_int(c - a) * abs_int(d - b)) == 2 * abs_int(c - a) * abs_int(d - b)) by (nonlinear_arith);
}

/// A right triangle with legs along the axes, from `(x0, y0)` to `x1` and
/// to `y1`, encloses half the product of its legs: twice that is
/// `|x1 - x0| * |y1 - y0|`.
pub proof fn lemma_area_right_triangle(x0: i32, y0: i32, x1: i32, y1: i32)
    ensures
        twice_area(seq![Point { x: x0, y: y0 }, Point { x: x1, y: y0 }, Point { x: x0, y: y1 }])
            == abs_int(x1 - x0) * abs_int(y1 - y0),
{
    let t = seq![Point { x: x0, y: y0 }, Point { x: x1, y: y0 }, Point { x: x0, y: y1 }];
    reveal_with_fuel(shoelace, 4);
    let (a, b, c, d) = (x0 as int, y0 as int, x1 as int, y1 as int);
    assert(shoelace(t, 3) == (a * b - d * a) + (a * b - b * c) + (c * d - b * a));
    assert((a * b - d * a) + (a * b - b * c) + (c * d - b * a) == (c - a) * (d - b)) by (
    nonlinear_arith);
    lemma_abs_mul(c - a, d - b);
}

proof fn lemma_cross_split(a: Point, b: Point, m: Point)
    requires
        on_line(a, b, m),
    ensures
        cross(a, m) + cross(m, b) == cross(a, b),
{
    let (ax, ay, bx, by, mx, my) = (
        a.x as int,
        a.y as int,
        b.x as int,
        b.y as int,
        m.x as int,
        m.y as int,
    );
    assert(ax * my - ay * mx + (mx * by - my * bx) == ax * by - ay * bx) by (nonlinear_arith)
        requires
            (mx - ax) * (by - ay) == (my - ay) * (bx - ax),
    ;
}

proof fn lemma_insert_prefix(p: Seq<Point>, m: Point, j: nat)
    requires
        p.len() >= 2,
        2 <= j <= p.len(),
    ensures
        shoelace(p.insert(1, m), j + 1) == shoelace(p, j) + cross(p[0], m) + cross(m, p[1]) - cross(
            p[0],
            p[1],
        ),
    decreases j,
{
    let q = p.insert(1, m);
    let n = p.len();
    if j == 2 {
        lemma_shoelace_step(q, 0);
        lemma_shoelace_step(q, 1);
        lemma_shoelace_step(q, 2);
        lemma_shoelace_step(p, 0);
        lemma_shoelace_step(p, 1);
        assert(q[q.len() - 1] == p[n - 1]);
        assert(q[0] == p[0]);
        assert(q[1] == m);
        assert(q[2] == p[1]);
    } else {
        let i = (j - 1) as nat;
        lemma_insert_prefix(p, m, i);
        lemma_shoelace_step(q, j);
        lemma_shoelace_step(p, i);
        assert(q[j - 1] == p[i - 1]);
        assert(q[j as int] == p[i as int]);
    }
}

/// Adding a vertex that lies on the line of an edge (here the edge from the
/// first vertex to the second) leaves the enclosed area unchanged: the area
/// depends on the shape, not on how many vertices list it.
pub proof fn lemma_area_edge_vertex(pts: Seq<Point>, m: Point)
    requires
        pts.len() >= 2,
        on_line(pts[0], pts[1], m),
    ensures
        twice_area(pts.insert(1, m)) == twice_area(pts),
{
    lemma_insert_prefix(pts, m, pts.len());
    lemma_cross_split(pts[0], pts[1], m);
}

/// The measure by which contours are compared is the doubled area each
/// encloses, nothing else.
pub proof fn lemma_area_of_is_doubled_area(cs: Seq<Vec<Point>>, j: int)
    ensures
        area_of(cs, j) == twice_area(cs[j]@),
{
}

/// Which contour is the last of the largest depends only on the area each
/// contour encloses: two lists whose contours enclose the same areas, one
/// by one, choose the same contour, however many vertices each lists.
pub proof fn lemma_largest_depends_on_areas(cs1: Seq<Vec<Point>>, cs2: Seq<Vec<Point>>, i: int)
    requires
        cs1.len() == cs2.len(),
        forall|j: int| 0 <= j < cs1.len() ==> twice_area(#[trigger] cs1[j]@) == twice_area(cs2[j]@),
    ensures
        is_last_largest(cs1, i) <==> is_last_largest(cs2, i),
{
    assert forall|j: int| 0 <= j < cs1.len() implies area_of(cs1, j) == area_of(cs2, j) by {
        assert(twice_area(cs1[j]@) == twice_area(cs2[j]@));
    }
}

/// At most one contour is the last of the largest, and a non-empty list
/// always has one.
pub proof fn lemma_last_largest_unique(cs: Seq<Vec<Point>>, i: int, k: int)
    requires
        is_last_largest(cs, i),
        is_last_largest(cs, k),
    ensures
        i == k,
{
    if i < k {
        assert(area_of(cs, k) < area_of(cs, i));
        assert(area_of(cs, k) <= area_of(cs, i));
        assert(area_of(cs, i) <= area_of(cs, k));
    } else if k < i {
        assert(area_of(cs, i) < area_of(cs, k));
        assert(area_of(cs, k) <= area_of(cs, i));
    }
}

/// Appending a contour to the list: it becomes the choice when it encloses
/// at least as much as the previous choice; otherwise the choice stays.
pub proof fn lemma_largest_after_push(cs: Seq<Vec<Point>>, c: Vec<Point>, i: int)
    requires
        is_last_largest(cs, i),
    ensures
        twice_area(c@) >= twice_area(cs[i]@) ==> is_last_largest(cs.push(c), cs.len() as int),
        twice_area(c@) < twice_area(cs[i]@) ==> is_last_largest(cs.push(c), i),
{
    let cs2 = cs.push(c);
    assert forall|j: int| 0 <= j < cs.len() implies area_of(cs2, j) == area_of(cs, j) by {
        assert(cs2[j] == cs[j]);
    }
    assert(cs2[cs.len() as int] == c);
}

} // verus!
