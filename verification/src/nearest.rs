use vstd::prelude::*;
use crate::vector::Vector3;

verus! {

/// The square of the Euclidean distance of two lattice points.
pub open spec fn distance_squared(a: Vector3, b: Vector3) -> int {
    (a.x - b.x) * (a.x - b.x) + (a.y - b.y) * (a.y - b.y) + (a.z - b.z) * (a.z - b.z)
}

/// The square of the Euclidean distance of two lattice points.
pub fn squared_distance(a: Vector3, b: Vector3) -> (d: i128)
    ensures
        d == distance_squared(a, b),
        d >= 0,
{
    let dx = a.x as i128 - b.x as i128;
    let dy = a.y as i128 - b.y as i128;
    let dz = a.z as i128 - b.z as i128;
    assert(0 <= dx * dx <= 0x1_0000_0000_0000_0000) by (nonlinear_arith)
        requires
            -0x1_0000_0000 <= dx <= 0x1_0000_0000,
    ;
    assert(0 <= dy * dy <= 0x1_0000_0000_0000_0000) by (nonlinear_arith)
        requires
            -0x1_0000_0000 <= dy <= 0x1_0000_0000,
    ;
    assert(0 <= dz * dz <= 0x1_0000_0000_0000_0000) by (nonlinear_arith)
        requires
            -0x1_0000_0000 <= dz <= 0x1_0000_0000,
    ;
    dx * dx + dy * dy + dz * dz
}

/// A list that is ordered by distance from `from`, with `v` put behind
/// the last element that is not farther than `v`.
pub open spec fn insert_by_distance(s: Seq<Vector3>, v: Vector3, from: Vector3) -> Seq<Vector3>
    decreases s.len(),
{
    if s.len() == 0 {
        seq![v]
    } else if distance_squared(s.last(), from) <= distance_squared(v, from) {
        s.push(v)
    } else {
        insert_by_distance(s.drop_last(), v, from).push(s.last())
    }
}

/// The list ordered by distance from `from`, nearest first; points at the
/// same distance keep their order.
pub open spec fn sort_by_distance(s: Seq<Vector3>, from: Vector3) -> Seq<Vector3>
    decreases s.len(),
{
    if s.len() == 0 {
        Seq::empty()
    } else {
        insert_by_distance(sort_by_distance(s.drop_last(), from), s.last(), from)
    }
}

/// Whether a list is ordered by distance from `from`, nearest first.
pub open spec fn nearest_first(s: Seq<Vector3>, from: Vector3) -> bool {
    forall|i: int, j: int|
        0 <= i <= j < s.len() ==> distance_squared(#[trigger] s[i], from) <= distance_squared(
            #[trigger] s[j],
            from,
        )
}

/// Putting a point into an ordered list keeps the list ordered and adds
/// the point to what the list holds.
pub proof fn lemma_insert_by_distance(s: Seq<Vector3>, v: Vector3, from: Vector3)
    requires
        nearest_first(s, from),
    ensures
        nearest_first(insert_by_distance(s, v, from), from),
        insert_by_distance(s, v, from).to_multiset() == s.to_multiset().insert(v),
        insert_by_distance(s, v, from).len() == s.len() + 1,
    decreases s.len(),
{
    broadcast use vstd::seq_lib::group_to_multiset_ensures;

    let r = insert_by_distance(s, v, from);
    if s.len() == 0 {
        assert(s =~= Seq::<Vector3>::empty());
        assert(r =~= s.push(v));
    } else if distance_squared(s.last(), from) <= distance_squared(v, from) {
        assert forall|i: int, j: int| 0 <= i <= j < r.len() implies distance_squared(
            #[trigger] r[i],
            from,
        ) <= distance_squared(#[trigger] r[j], from) by {
            if j == s.len() {
                if i < s.len() {
                    assert(distance_squared(s[i], from) <= distance_squared(s[s.len() - 1], from));
                }
            }
        }
    } else {
        let front = s.drop_last();
        assert forall|i: int, j: int| 0 <= i <= j < front.len() implies distance_squared(
            #[trigger] front[i],
            from,
        ) <= distance_squared(#[trigger] front[j], from) by {
            assert(front[i] == s[i] && front[j] == s[j]);
        }
        lemma_insert_by_distance(front, v, from);
        let inner = insert_by_distance(front, v, from);
        assert(r == inner.push(s.last()));
        assert forall|i: int, j: int| 0 <= i <= j < r.len() implies distance_squared(
            #[trigger] r[i],
            from,
        ) <= distance_squared(#[trigger] r[j], from) by {
            if j == inner.len() && i < inner.len() {
                assert(inner.to_multiset().count(inner[i]) > 0);
                assert(front.to_multiset().insert(v).count(inner[i]) > 0);
                if inner[i] != v {
                    assert(front.to_multiset().count(inner[i]) > 0);
                    assert(front.contains(inner[i]));
                    let k = choose|k: int| 0 <= k < front.len() && front[k] == inner[i];
                    assert(front[k] == s[k]);
                    assert(distance_squared(s[k], from) <= distance_squared(s[s.len() - 1], from));
                }
            }
        }
        assert(s =~= front.push(s.last()));
        assert(r.to_multiset() =~= s.to_multiset().insert(v));
    }
}

/// Sorting by distance orders the list, nearest first, and keeps every
/// point as often as it was there.
pub proof fn lemma_sort_by_distance(s: Seq<Vector3>, from: Vector3)
    ensures
        nearest_first(sort_by_distance(s, from), from),
        sort_by_distance(s, from).to_multiset() == s.to_multiset(),
        sort_by_distance(s, from).len() == s.len(),
    decreases s.len(),
{
    broadcast use vstd::seq_lib::group_to_multiset_ensures;

    if s.len() == 0 {
        assert(s =~= Seq::<Vector3>::empty());
    } else {
        lemma_sort_by_distance(s.drop_last(), from);
        lemma_insert_by_distance(sort_by_distance(s.drop_last(), from), s.last(), from);
        assert(s =~= s.drop_last().push(s.last()));
    }
}

/// Putting `v` into a list whose elements from `j` on are all farther than
/// `v` leaves those elements where they are.
proof fn lemma_insert_keeps_tail(s: Seq<Vector3>, v: Vector3, from: Vector3, j: int)
    requires
        0 <= j <= s.len(),
        forall|k: int| j <= k < s.len() ==> distance_squared(#[trigger] s[k], from) > distance_squared(v, from),
    ensures
        insert_by_distance(s, v, from) == insert_by_distance(s.take(j), v, from) + s.skip(j),
    decreases s.len() - j,
{
    if j == s.len() {
        assert(s.take(j) =~= s);
        assert(s.skip(j) =~= Seq::<Vector3>::empty());
        assert(insert_by_distance(s, v, from) + Seq::<Vector3>::empty() =~= insert_by_distance(
            s,
            v,
            from,
        ));
    } else {
        let front = s.drop_last();
        assert(distance_squared(s[s.len() - 1], from) > distance_squared(v, from));
        assert forall|k: int| j <= k < front.len() implies distance_squared(
            #[trigger] front[k],
            from,
        ) > distance_squared(v, from) by {
            assert(front[k] == s[k]);
        }
        lemma_insert_keeps_tail(front, v, from, j);
        assert(front.take(j) =~= s.take(j));
        assert(front.skip(j).push(s.last()) =~= s.skip(j));
        assert((insert_by_distance(s.take(j), v, from) + front.skip(j)).push(s.last())
            =~= insert_by_distance(s.take(j), v, from) + s.skip(j));
    }
}

/// Orders the points by their distance from `from`, nearest first.
pub fn sort_nearest_first(points: &Vec<Vector3>, from: Vector3) -> (sorted: Vec<Vector3>)
    ensures
        sorted@ == sort_by_distance(points@, from),
        nearest_first(sorted@, from),
        sorted@.to_multiset() == points@.to_multiset(),
{
    let mut sorted: Vec<Vector3> = Vec::with_capacity(points.len());
    let mut i: usize = 0;
    assert(points@.take(0) =~= Seq::<Vector3>::empty());
    while i < points.len()
        invariant
            i <= points@.len(),
            sorted@ == sort_by_distance(points@.take(i as int), from),
        decreases points@.len() - i,
    {
        let v = points[i];
        let d = squared_distance(v, from);
        let mut j: usize = sorted.len();
        while j > 0 && squared_distance(sorted[j - 1], from) > d
            invariant
                j <= sorted@.len(),
                d == distance_squared(v, from),
                forall|k: int|
                    j <= k < sorted@.len() ==> distance_squared(#[trigger] sorted@[k], from) > d,
            decreases j,
        {
            j = j - 1;
        }
        proof {
            lemma_insert_keeps_tail(sorted@, v, from, j as int);
            let head = sorted@.take(j as int);
            if j > 0 {
                assert(head.last() == sorted@[j - 1]);
            }
            assert(insert_by_distance(head, v, from) =~= head.push(v));
            assert(points@.take(i as int + 1).drop_last() =~= points@.take(i as int));
            assert(points@.take(i as int + 1).last() == v);
        }
        let ghost before = sorted@;
        sorted.insert(j, v);
        assert(sorted@ =~= before.take(j as int).push(v) + before.skip(j as int));
        i = i + 1;
    }
    proof {
        assert(points@.take(points@.len() as int) =~= points@);
        lemma_sort_by_distance(points@, from);
    }
    sorted
}

} // verus!
