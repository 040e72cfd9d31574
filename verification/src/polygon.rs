use vstd::prelude::*;

verus! {

/// The sides of a polygon with `n` vertices, as pairs of vertex indices:
/// each vertex joined to the next, the last one to the first. Fewer than
/// three vertices make no polygon and no sides.
pub open spec fn spec_polygon_edges(n: nat) -> Seq<(usize, usize)> {
    if n < 3 {
        seq![]
    } else {
        Seq::new(n, |i: int| (i as usize, ((i + 1) % (n as int)) as usize))
    }
}

/// The sides that outline a polygon of `n` vertices.
pub fn polygon_edges(n: usize) -> (edges: Vec<(usize, usize)>)
    ensures
        edges@ == spec_polygon_edges(n as nat),
        n < 3 ==> edges@.len() == 0,
        n >= 3 ==> edges@.len() == n,
        n >= 3 ==> forall|i: int| 0 <= i < n ==> #[trigger] edges@[i] == (i as usize, (if i + 1 == n {
            0
        } else {
            i + 1
        }) as usize),
{
    let mut edges: Vec<(usize, usize)> = Vec::new();
    if n < 3 {
        return edges;
    }
    for i in 0..n
        invariant
            n >= 3,
            edges@ == spec_polygon_edges(n as nat).take(i as int),
    {
        let next = if i + 1 == n { 0 } else { i + 1 };
        assert(next as int == (i + 1) % (n as int)) by (nonlinear_arith)
            requires
                i < n,
                next == (if i + 1 == n { 0 } else { i + 1 }),
        ;
        edges.push((i, next));
        assert(edges@ == spec_polygon_edges(n as nat).take(i + 1));
    }
    assert(spec_polygon_edges(n as nat).take(n as int) == spec_polygon_edges(n as nat));
    assert forall|i: int| 0 <= i < n implies #[trigger] edges@[i] == (i as usize, (if i + 1 == n {
        0
    } else {
        i + 1
    }) as usize) by {
        assert((i + 1) % (n as int) == (if i + 1 == n {
            0
        } else {
            i + 1
        })) by (nonlinear_arith)
            requires
                0 <= i < n,
        ;
    }
    edges
}

/// The spans a scanline fills under the even-odd rule: the crossings taken
/// two by two, the first pair, the second pair, and so on; a crossing left
/// without a partner fills nothing.
pub open spec fn spec_fill_spans(xs: Seq<usize>) -> Seq<(usize, usize)> {
    Seq::new(xs.len() / 2, |k: int| (xs[2 * k], xs[2 * k + 1]))
}

/// Pairs the crossings of a scanline with the polygon's sides into the
/// spans to fill.
pub fn fill_spans(xs: &Vec<usize>) -> (spans: Vec<(usize, usize)>)
    ensures
        spans@ == spec_fill_spans(xs@),
        spans@.len() == xs@.len() / 2,
        forall|k: int| 0 <= k < spans@.len() ==> #[trigger] spans@[k] == (xs@[2 * k], xs@[2 * k + 1]),
{
    let mut spans: Vec<(usize, usize)> = Vec::new();
    let len = xs.len();
    let pairs = len / 2;
    for k in 0..pairs
        invariant
            len == xs@.len(),
            pairs == xs@.len() / 2,
            spans@ == spec_fill_spans(xs@).take(k as int),
    {
        spans.push((xs[2 * k], xs[2 * k + 1]));
        assert(spans@ == spec_fill_spans(xs@).take(k + 1));
    }
    assert(spec_fill_spans(xs@).take(pairs as int) == spec_fill_spans(xs@));
    spans
}

/// The crossings that a list of spans covers, in order: each span's start
/// then its end.
pub open spec fn span_ends(spans: Seq<(usize, usize)>) -> Seq<usize> {
    Seq::new(2 * spans.len(), |m: int| if m % 2 == 0 { spans[m / 2].0 } else { spans[m / 2].1 })
}

/// The outline of a polygon of at least three vertices is one closed loop
/// through all of them: there is a side per vertex, side `i` leaves vertex
/// `i`, each side starts where the one before it ended, and the last side
/// comes back to vertex 0.
pub proof fn law_polygon_edges_close(n: nat)
    requires
        3 <= n <= usize::MAX,
    ensures
        spec_polygon_edges(n).len() == n,
        forall|i: int| 0 <= i < n ==> #[trigger] spec_polygon_edges(n)[i].0 == i,
        forall|i: int| 0 <= i < n ==> (#[trigger] spec_polygon_edges(n)[i]).1 < n,
        forall|i: int|
            0 <= i < n - 1 ==> #[trigger] spec_polygon_edges(n)[i].1 == spec_polygon_edges(n)[i + 1].0,
        spec_polygon_edges(n)[n - 1].1 == 0,
{
    assert forall|i: int| 0 <= i < n implies (#[trigger] spec_polygon_edges(n)[i]).1 < n by {
        assert(0 <= (i + 1) % (n as int) < n) by (nonlinear_arith)
            requires
                n >= 3,
        ;
    }
    assert forall|i: int| 0 <= i < n - 1 implies #[trigger] spec_polygon_edges(n)[i].1
        == spec_polygon_edges(n)[i + 1].0 by {
        assert((i + 1) % (n as int) == i + 1) by (nonlinear_arith)
            requires
                0 <= i < n - 1,
        ;
    }
    assert((n - 1 + 1) % (n as int) == 0) by (nonlinear_arith)
        requires
            n >= 3,
    ;
}

/// The spans of a scanline use up its crossings in order, two by two: read
/// back end after end they give every crossing once, all of them when there
/// is an even number, all but the last otherwise.
pub proof fn law_fill_spans_cover_crossings(xs: Seq<usize>)
    ensures
        span_ends(spec_fill_spans(xs)) == xs.take(2 * (xs.len() / 2) as int),
        xs.len() % 2 == 0 ==> span_ends(spec_fill_spans(xs)) == xs,
{
    let spans = spec_fill_spans(xs);
    let ends = span_ends(spans);
    let want = xs.take(2 * (xs.len() / 2) as int);
    assert(ends.len() == want.len());
    assert forall|m: int| 0 <= m < ends.len() implies ends[m] == want[m] by {
        let k = m / 2;
        assert(m == 2 * k + m % 2);
        assert(0 <= k < spans.len());
    }
    assert(ends == want);
    if xs.len() % 2 == 0 {
        assert(want == xs);
    }
}

} // verus!
