//! In which order a source DFA is read, and at which edge it is rejected.
//!
//! The edges of the numbered states are counted through: state by state in the
//! order of their numbers, and for each state symbol by symbol.

use vstd::prelude::*;

use crate::dfa_laws::{has_full_rows, law_numbering};
use crate::regex_dfa::{
    explore, number_edge, number_edges, numbering, Edge, Rejection, Row,
};

verus! {

/// The edge with a number.
pub open spec fn edge_at(source: spec_fn(u32) -> Row, order: Seq<u32>, number: int) -> Edge {
    source(order[number / 65]).edges[number % 65]
}

/// Whether an edge neither matches nor dies and leads to a state.
pub open spec fn points_to(edge: Edge, state: u32) -> bool {
    !edge.matching && !edge.dead && edge.state == state
}

/// Whether one of the first edges leads to a state.
pub open spec fn is_led_to(
    source: spec_fn(u32) -> Row,
    order: Seq<u32>,
    state: u32,
    count: int,
) -> bool {
    exists|f: int| 0 <= f < count && points_to(#[trigger] edge_at(source, order, f), state)
}

/// Whether `order` is what the first `count` edges make of the numbers. The
/// start state is first. To every other state an edge leads from a state with a
/// lower number, no state has two numbers, and of two states the one has the lower number to
/// which an edge leads first. No edge so far leads to a quit state, and no end
/// of the input does in the first `rows` states.
pub open spec fn is_read(
    source: spec_fn(u32) -> Row,
    start: u32,
    order: Seq<u32>,
    count: int,
    rows: int,
) -> bool {
    &&& 0 < order.len() <= 4096
    &&& order[0] == start
    &&& order.no_duplicates()
    &&& 0 <= count <= 65 * order.len()
    &&& 0 <= rows <= order.len()
    &&& rows * 261 <= 1_048_576
    &&& forall|i: int| 0 <= i < rows ==> !source(#[trigger] order[i]).eoi.quit
    &&& forall|f: int|
        0 <= f < count && !(#[trigger] edge_at(source, order, f)).matching && !edge_at(
            source,
            order,
            f,
        ).dead ==> !edge_at(source, order, f).quit && order.contains(
            edge_at(source, order, f).state,
        )
    &&& forall|j: int|
        #![trigger order[j]]
        0 < j < order.len() ==> is_led_to(source, order, order[j], least(count, 65 * j))
    &&& forall|j: int, l: int, f: int|
        0 < j < l < order.len() && 0 <= f < count && #[trigger] points_to(
            edge_at(source, order, f),
            order[l],
        ) ==> #[trigger] is_led_to(source, order, order[j], f)
}

/// The lesser of two numbers.
pub open spec fn least(one: int, other: int) -> int {
    if one < other {
        one
    } else {
        other
    }
}

/// One edge more.
proof fn lemma_edge_read(
    source: spec_fn(u32) -> Row,
    start: u32,
    order: Seq<u32>,
    count: int,
    rows: int,
)
    requires
        is_read(source, start, order, count, rows),
        count < 65 * order.len(),
    ensures
        number_edge(edge_at(source, order, count), order) matches Ok(longer) ==> is_read(
            source,
            start,
            longer,
            count + 1,
            rows,
        ),
{
    let edge = edge_at(source, order, count);
    if let Ok(longer) = number_edge(edge, order) {
        assert forall|f: int| 0 <= f <= count implies #[trigger] edge_at(source, longer, f)
            == edge_at(source, order, f) by {
            assert(0 <= f / 65 < order.len());
        }
        assert forall|f: int|
            0 <= f < count + 1 && !(#[trigger] edge_at(source, longer, f)).matching && !edge_at(
                source,
                longer,
                f,
            ).dead implies !edge_at(source, longer, f).quit && longer.contains(
            edge_at(source, longer, f).state,
        ) by {
            assert(edge_at(source, longer, f) == edge_at(source, order, f));
            if f < count {
                let at = choose|at: int|
                    0 <= at < order.len() && order[at] == edge_at(source, order, f).state;
                assert(longer[at] == order[at]);
            } else if !order.contains(edge.state) {
                assert(longer[order.len() as int] == edge.state);
            }
        }
        assert forall|state: u32, bound: int| bound <= count + 1 && is_led_to(
            source,
            order,
            state,
            bound,
        ) implies #[trigger] is_led_to(source, longer, state, bound) by {
            let f = choose|f: int|
                0 <= f < bound && points_to(#[trigger] edge_at(source, order, f), state);
            assert(points_to(edge_at(source, longer, f), state));
        }
        assert forall|j: int| #![trigger longer[j]] 0 < j < longer.len() implies is_led_to(
            source,
            longer,
            longer[j],
            least(count + 1, 65 * j),
        ) by {
            if j < order.len() {
                assert(order[j] == longer[j]);
                assert(is_led_to(source, order, order[j], least(count, 65 * j)));
                let f = choose|f: int|
                    0 <= f < least(count, 65 * j) && points_to(
                        #[trigger] edge_at(source, order, f),
                        order[j],
                    );
                assert(points_to(edge_at(source, longer, f), longer[j]));
            } else {
                assert(points_to(edge_at(source, longer, count), longer[j]));
            }
        }
        assert forall|j: int, l: int, f: int|
            0 < j < l < longer.len() && 0 <= f < count + 1 && #[trigger] points_to(
                edge_at(source, longer, f),
                longer[l],
            ) implies #[trigger] is_led_to(source, longer, longer[j], f) by {
            assert(edge_at(source, longer, f) == edge_at(source, order, f));
            assert(order[j] == longer[j]);
            if f < count {
                if l < order.len() {
                    assert(points_to(edge_at(source, order, f), order[l]));
                    assert(is_led_to(source, order, order[j], f));
                } else {
                    assert(order.contains(edge_at(source, order, f).state));
                    assert(false);
                }
            } else {
                assert(is_led_to(source, order, order[j], least(count, 65 * j)));
                let g = choose|g: int|
                    0 <= g < least(count, 65 * j) && points_to(
                        #[trigger] edge_at(source, order, g),
                        order[j],
                    );
                assert(points_to(edge_at(source, longer, g), longer[j]));
            }
        }
        assert forall|i: int| 0 <= i < rows implies !source(#[trigger] longer[i]).eoi.quit by {
            assert(longer[i] == order[i]);
        }
    }
}

/// The first edges of a row.
proof fn lemma_edges_read(
    source: spec_fn(u32) -> Row,
    start: u32,
    order: Seq<u32>,
    rows: int,
    k: int,
) -> (at: (Seq<u32>, int))
    requires
        has_full_rows(source),
        is_read(source, start, order, 65 * rows, rows),
        rows < order.len(),
        0 <= k <= 65,
    ensures
        match number_edges(source(order[rows]).edges.take(k), order) {
            Ok(longer) => {
                &&& is_read(source, start, longer, 65 * rows + k, rows)
                &&& order.is_prefix_of(longer)
            },
            Err(rejection) => {
                &&& is_read(source, start, at.0, at.1, rows)
                &&& order.is_prefix_of(at.0)
                &&& 65 * rows <= at.1 < 65 * (rows + 1)
                &&& number_edge(edge_at(source, at.0, at.1), at.0) == Err::<Seq<u32>, Rejection>(
                    rejection,
                )
            },
        },
    decreases k,
{
    let row = source(order[rows]);
    let edges = row.edges.take(k);
    if k == 0 {
        (order, 0)
    } else {
        let at = lemma_edges_read(source, start, order, rows, k - 1);
        assert(edges.drop_last() =~= row.edges.take(k - 1));
        assert(edges.last() == row.edges[k - 1]);
        match number_edges(row.edges.take(k - 1), order) {
            Err(_) => at,
            Ok(before) => {
                let count = 65 * rows + (k - 1);
                assert(before[rows] == order[rows]);
                assert(count / 65 == rows && count % 65 == k - 1);
                assert(edge_at(source, before, count) == row.edges[k - 1]);
                lemma_edge_read(source, start, before, count, rows);
                (before, count)
            },
        }
    }
}

/// Whether a rejection has its reason at an edge or an end of the input that the
/// reading has come to, and at none before it.
pub open spec fn rejected_at(
    source: spec_fn(u32) -> Row,
    start: u32,
    order: Seq<u32>,
    count: int,
    rows: int,
    rejection: Rejection,
) -> bool {
    &&& is_read(source, start, order, count, rows)
    &&& rows < order.len()
    &&& match rejection {
        Rejection::TooManyStates => {
            &&& 65 * rows <= count < 65 * (rows + 1)
            &&& order.len() == 4096
            &&& points_to(edge_at(source, order, count), edge_at(source, order, count).state)
            &&& !edge_at(source, order, count).quit
            &&& !order.contains(edge_at(source, order, count).state)
        },
        Rejection::Quit => {
            ||| 65 * rows <= count < 65 * (rows + 1) && points_to(
                edge_at(source, order, count),
                edge_at(source, order, count).state,
            ) && edge_at(source, order, count).quit
            ||| count == 65 * (rows + 1) && source(order[rows]).eoi.quit
        },
        Rejection::TableTooLarge { rows: read } => {
            &&& count == 65 * (rows + 1)
            &&& !source(order[rows]).eoi.quit
            &&& read == rows + 1
            &&& read * 261 > 1_048_576
        },
    }
}

proof fn lemma_explored(
    source: spec_fn(u32) -> Row,
    start: u32,
    count: nat,
) -> (at: (Seq<u32>, int, int))
    requires
        has_full_rows(source),
    ensures
        match explore(source, start, count) {
            Ok(order) => {
                let rows = if count < order.len() {
                    count as int
                } else {
                    order.len() as int
                };
                is_read(source, start, order, 65 * rows, rows)
            },
            Err(rejection) => rejected_at(source, start, at.0, at.1, at.2, rejection),
        },
    decreases count,
{
    if count == 0 {
        let order = seq![start];
        assert(is_read(source, start, order, 0, 0));
        (order, 0, 0)
    } else {
        let at = lemma_explored(source, start, (count - 1) as nat);
        match explore(source, start, (count - 1) as nat) {
            Err(_) => at,
            Ok(order) => {
                if order.len() < count {
                    at
                } else {
                    let rows = count - 1;
                    let row = source(order[rows]);
                    let (read, number) = lemma_edges_read(source, start, order, rows, 65);
                    assert(row.edges.take(65) =~= row.edges);
                    match number_edges(row.edges, order) {
                        Err(rejection) => {
                            assert(rejected_at(source, start, read, number, rows, rejection));
                            (read, number, rows)
                        },
                        Ok(longer) => {
                            assert(longer[rows] == order[rows]);
                            if !row.eoi.quit && count * 261 <= 1_048_576 {
                                assert forall|i: int| 0 <= i < count implies !source(
                                    #[trigger] longer[i],
                                ).eoi.quit by {
                                    if i < rows {
                                        assert(!source(longer[i]).eoi.quit);
                                    }
                                }
                                assert(is_read(source, start, longer, 65 * count as int, count as int));
                            }
                            (longer, 65 * count as int, rows)
                        },
                    }
                }
            },
        }
    }
}

/// The numbers of a compact table are given in the order in which edges first
/// lead to the states, reading state by state in the order of the numbers and
/// symbol by symbol; all edges of all states have been read, and all ends of
/// the input.
pub proof fn law_numbers_follow_the_edges(
    source: spec_fn(u32) -> Row,
    start: u32,
    order: Seq<u32>,
)
    requires
        has_full_rows(source),
        numbering(source, start) == Ok::<Seq<u32>, Rejection>(order),
    ensures
        is_read(source, start, order, 65 * order.len() as int, order.len() as int),
{
    law_numbering(source, start, order);
    let rows = (crate::regex_dfa::GPU_TABLE_LIMIT / crate::regex_dfa::ROW_BYTES + 1) as nat;
    let at = lemma_explored(source, start, rows);
}

/// A rejection comes at the first edge, end of the input or row that is a reason
/// for it: the reading up to there has met none.
pub proof fn law_rejected_at_first_reason(
    source: spec_fn(u32) -> Row,
    start: u32,
    rejection: Rejection,
) -> (at: (Seq<u32>, int, int))
    requires
        has_full_rows(source),
        numbering(source, start) == Err::<Seq<u32>, Rejection>(rejection),
    ensures
        rejected_at(source, start, at.0, at.1, at.2, rejection),
{
    let rows = (crate::regex_dfa::GPU_TABLE_LIMIT / crate::regex_dfa::ROW_BYTES + 1) as nat;
    lemma_explored(source, start, rows)
}

/// What the first edges make of the numbers is determined: two readings of the
/// same edges give the same numbers.
pub proof fn law_reading_is_unique(
    source: spec_fn(u32) -> Row,
    start: u32,
    one: Seq<u32>,
    other: Seq<u32>,
    count: int,
    rows: int,
)
    requires
        is_read(source, start, one, count, rows),
        is_read(source, start, other, count, rows),
    ensures
        one == other,
{
    lemma_same_prefix(source, start, one, other, count, rows, one.len() as int);
    lemma_same_prefix(source, start, other, one, count, rows, other.len() as int);
    assert(one =~= other);
}

proof fn lemma_same_prefix(
    source: spec_fn(u32) -> Row,
    start: u32,
    one: Seq<u32>,
    other: Seq<u32>,
    count: int,
    rows: int,
    n: int,
)
    requires
        is_read(source, start, one, count, rows),
        is_read(source, start, other, count, rows),
        0 <= n <= one.len(),
    ensures
        n <= other.len(),
        forall|i: int| 0 <= i < n ==> one[i] == other[i],
    decreases n,
{
    if n > 1 {
        lemma_same_prefix(source, start, one, other, count, rows, n - 1);
        let last = n - 1;
        let state = one[last];
        assert(is_led_to(source, one, one[last], least(count, 65 * last)));
        let f = choose|f: int|
            0 <= f < least(count, 65 * last) && points_to(
                #[trigger] edge_at(source, one, f),
                state,
            );
        lemma_first_edge(source, start, one, other, count, rows, last, f);
    }
}

/// Where two readings agree so far, they agree on the next state.
proof fn lemma_first_edge(
    source: spec_fn(u32) -> Row,
    start: u32,
    one: Seq<u32>,
    other: Seq<u32>,
    count: int,
    rows: int,
    last: int,
    f: int,
)
    requires
        is_read(source, start, one, count, rows),
        is_read(source, start, other, count, rows),
        0 < last < one.len(),
        last <= other.len(),
        forall|i: int| 0 <= i < last ==> one[i] == other[i],
        0 <= f < count,
        f < 65 * last,
        points_to(edge_at(source, one, f), one[last]),
    ensures
        last < other.len(),
        one[last] == other[last],
    decreases f,
{
    let state = one[last];
    assert(edge_at(source, other, f) == edge_at(source, one, f));
    assert(other.contains(state));
    let at = choose|at: int| 0 <= at < other.len() && other[at] == state;
    if at < last {
        assert(one[at] == one[last]);
    } else if at > last {
        assert(points_to(edge_at(source, other, f), other[at]));
        assert(is_led_to(source, other, other[last], f));
        let g = choose|g: int|
            0 <= g < f && points_to(#[trigger] edge_at(source, other, g), other[last]);
        assert(edge_at(source, other, g) == edge_at(source, one, g));
        assert(one.contains(other[last]));
        let p = choose|p: int| 0 <= p < one.len() && one[p] == other[last];
        if p < last {
            assert(other[p] == other[last]);
        } else if p > last {
            assert(points_to(edge_at(source, one, g), one[p]));
            assert(is_led_to(source, one, one[last], g));
            let h = choose|h: int|
                0 <= h < g && points_to(#[trigger] edge_at(source, one, h), one[last]);
            lemma_first_edge(source, start, one, other, count, rows, last, h);
        } else {
            assert(other[last] == other[at]);
        }
    }
}

} // verus!
