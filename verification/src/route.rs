//! One legal destination for a piece: a plain move or a capture.

use vstd::prelude::*;

use crate::position::Position;

verus! {

/// A route computed for one piece: either a plain relocation, or a capture
/// carrying the ordered list of enemy positions taken on the way.
#[derive(Debug)]
pub enum Route {
    /// A move to an empty cell.
    Movement(Position),
    /// A capture chain: the final landing cell, and the positions of the
    /// enemy pieces taken, in capture order.
    Taking(Position, Vec<Position>),
}

/// The mathematical value of a `Route`: the captured positions as a sequence.
pub enum RouteModel {
    Movement(Position),
    Taking(Position, Seq<Position>),
}

impl RouteModel {
    /// The destination cell of a route.
    pub open spec fn dest(self) -> Position {
        match self {
            RouteModel::Movement(p) => p,
            RouteModel::Taking(p, _) => p,
        }
    }
}

impl View for Route {
    type V = RouteModel;

    open spec fn view(&self) -> RouteModel {
        match self {
            Route::Movement(p) => RouteModel::Movement(*p),
            Route::Taking(p, taken) => RouteModel::Taking(*p, taken@),
        }
    }
}

/// The views of every route in a vector, in order.
pub open spec fn route_views(s: Seq<Route>) -> Seq<RouteModel> {
    s.map_values(|r: Route| r@)
}

/// Some route with index in `[a, b)` of `s` has the value `rm`.
pub open spec fn among(s: Seq<Route>, a: int, b: int, rm: RouteModel) -> bool {
    exists|i: int| a <= i < b && i < s.len() && (#[trigger] s[i])@ == rm
}

/// The route at any index contributes its value to the views of the vector.
pub proof fn lemma_route_views_contains(s: Seq<Route>, i: int)
    requires
        0 <= i < s.len(),
    ensures
        route_views(s).contains(s[i]@),
{
    assert(route_views(s)[i] == s[i]@);
}

/// A value among the views of a vector comes from a route at some index.
pub proof fn lemma_route_views_index(s: Seq<Route>, rm: RouteModel)
    requires
        route_views(s).contains(rm),
    ensures
        exists|i: int| 0 <= i < s.len() && (#[trigger] s[i])@ == rm,
{
    let i = choose|i: int|
        0 <= i < route_views(s).len() && route_views(s)[i] == rm;
    assert(s[i]@ == rm);
}

/// The views of a vector hold exactly the values found at indices `0..len`.
pub proof fn lemma_among_is_contains(s: Seq<Route>, rm: RouteModel)
    ensures
        among(s, 0, s.len() as int, rm) <==> route_views(s).contains(rm),
{
    if among(s, 0, s.len() as int, rm) {
        let i = choose|i: int|
            0 <= i < s.len() as int && i < s.len() && (#[trigger] s[i])@ == rm;
        lemma_route_views_contains(s, i);
    }
    if route_views(s).contains(rm) {
        lemma_route_views_index(s, rm);
    }
}

/// Whether `rm` occurs in `[a, b)` depends only on the routes at those
/// indices.
pub proof fn lemma_among_frame(s1: Seq<Route>, s2: Seq<Route>, a: int, b: int, rm: RouteModel)
    requires
        b <= s1.len(),
        b <= s2.len(),
        forall|i: int| a <= i < b ==> s1[i] == s2[i],
    ensures
        among(s1, a, b, rm) == among(s2, a, b, rm),
{
    if among(s1, a, b, rm) {
        let i = choose|i: int| a <= i < b && i < s1.len() && (#[trigger] s1[i])@ == rm;
        assert(s2[i]@ == rm);
    }
    if among(s2, a, b, rm) {
        let i = choose|i: int| a <= i < b && i < s2.len() && (#[trigger] s2[i])@ == rm;
        assert(s1[i]@ == rm);
    }
}

/// Appending one element adds exactly that element to a sequence's contents.
pub proof fn lemma_seq_push_contains<T>(s: Seq<T>, x: T, y: T)
    ensures
        s.push(x).contains(y) <==> (s.contains(y) || x == y),
{
    if s.contains(y) {
        let i = choose|i: int| 0 <= i < s.len() && s[i] == y;
        assert(s.push(x)[i] == y);
    }
    assert(s.push(x)[s.len() as int] == x);
    if s.push(x).contains(y) {
        let i = choose|i: int| 0 <= i < s.push(x).len() && s.push(x)[i] == y;
        if i < s.len() {
            assert(s[i] == y);
        }
    }
}

/// Appending one route adds exactly its value to the views of a vector.
pub proof fn lemma_route_views_push(s: Seq<Route>, r: Route, rm: RouteModel)
    ensures
        route_views(s.push(r)).contains(rm) <==> (route_views(s).contains(rm) || r@ == rm),
{
    assert(route_views(s.push(r)) =~= route_views(s).push(r@));
    lemma_seq_push_contains(route_views(s), r@, rm);
}

/// The values of a concatenation are the values of the two parts.
pub proof fn lemma_route_views_concat(a: Seq<Route>, b: Seq<Route>, rm: RouteModel)
    ensures
        route_views(a + b).contains(rm) <==> (route_views(a).contains(rm) || route_views(b)
            .contains(rm)),
{
    if route_views(a + b).contains(rm) {
        lemma_route_views_index(a + b, rm);
        let i = choose|i: int| 0 <= i < (a + b).len() && (#[trigger] (a + b)[i])@ == rm;
        if i < a.len() {
            assert(a[i] == (a + b)[i]);
            lemma_route_views_contains(a, i);
        } else {
            assert(b[i - a.len()] == (a + b)[i]);
            lemma_route_views_contains(b, i - a.len());
        }
    }
    if route_views(a).contains(rm) {
        lemma_route_views_index(a, rm);
        let i = choose|i: int| 0 <= i < a.len() && (#[trigger] a[i])@ == rm;
        assert((a + b)[i] == a[i]);
        lemma_route_views_contains(a + b, i);
    }
    if route_views(b).contains(rm) {
        lemma_route_views_index(b, rm);
        let i = choose|i: int| 0 <= i < b.len() && (#[trigger] b[i])@ == rm;
        assert((a + b)[a.len() + i] == b[i]);
        lemma_route_views_contains(a + b, a.len() + i);
    }
}

/// An occurrence in `[a, b)` is one in `[a, m)` or one in `[m, b)`.
pub proof fn lemma_among_split(s: Seq<Route>, a: int, m: int, b: int, rm: RouteModel)
    requires
        a <= m <= b,
    ensures
        among(s, a, b, rm) <==> among(s, a, m, rm) || among(s, m, b, rm),
{
    if among(s, a, b, rm) {
        let i = choose|i: int| a <= i < b && i < s.len() && (#[trigger] s[i])@ == rm;
        if i < m {
            assert(among(s, a, m, rm));
        } else {
            assert(among(s, m, b, rm));
        }
    }
    if among(s, a, m, rm) {
        let i = choose|i: int| a <= i < m && i < s.len() && (#[trigger] s[i])@ == rm;
        assert(among(s, a, b, rm));
    }
    if among(s, m, b, rm) {
        let i = choose|i: int| m <= i < b && i < s.len() && (#[trigger] s[i])@ == rm;
        assert(among(s, a, b, rm));
    }
}

impl Route {
    /// The destination cell of this route.
    pub fn position(&self) -> (r: Position)
        ensures
            r == self@.dest(),
    {
        match self {
            Self::Movement(position) => *position,
            Self::Taking(position, ..) => *position,
        }
    }
}

impl Clone for Route {
    /// The copy has the same destination and the same captured positions.
    fn clone(&self) -> (r: Self)
        ensures
            r@ == self@,
    {
        match self {
            Self::Movement(position) => Self::Movement(*position),
            Self::Taking(position, taken) => {
                let mut copy: Vec<Position> = Vec::new();
                let mut i: usize = 0;
                while i < taken.len()
                    invariant
                        i <= taken.len(),
                        copy@ == taken@.take(i as int),
                    decreases taken.len() - i,
                {
                    copy.push(taken[i]);
                    proof {
                        assert(copy@ =~= taken@.take(i + 1 as int));
                    }
                    i = i + 1;
                }
                proof {
                    assert(copy@ =~= taken@);
                }
                Self::Taking(*position, copy)
            },
        }
    }
}

} // verus!
