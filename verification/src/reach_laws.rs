//! Which source DFAs have a compact table, in terms of the states that a search
//! can reach.

use vstd::prelude::*;

use crate::dfa_laws::{is_closed, law_numbering, leads_to, lemma_edges, lemma_explore};
use crate::regex_dfa::{explore, number_edges, numbering, Edge, Rejection, Row};

verus! {

/// Whether an edge of the row that neither matches nor dies leads to the state.
pub open spec fn goes_on(row: Row, next: u32) -> bool {
    exists|k: int|
        0 <= k < row.edges.len() && !(#[trigger] row.edges[k]).matching && !row.edges[k].dead
            && row.edges[k].state == next
}

/// Whether a walk begins with `start` and follows live edges.
pub open spec fn is_walk(source: spec_fn(u32) -> Row, start: u32, walk: Seq<u32>) -> bool {
    &&& walk.len() > 0
    &&& walk[0] == start
    &&& forall|i: int|
        #![trigger walk[i]]
        0 <= i < walk.len() - 1 ==> goes_on(source(walk[i]), walk[i + 1])
}

/// Whether a search that begins with `start` can come to `state`.
pub open spec fn reachable(source: spec_fn(u32) -> Row, start: u32, state: u32) -> bool {
    exists|walk: Seq<u32>| #[trigger] is_walk(source, start, walk) && walk.last() == state
}

/// Whether states are pairwise different and can all be reached.
pub open spec fn all_reachable(
    source: spec_fn(u32) -> Row,
    start: u32,
    states: Seq<u32>,
) -> bool {
    &&& states.no_duplicates()
    &&& forall|i: int| 0 <= i < states.len() ==> reachable(source, start, #[trigger] states[i])
}

/// Whether a search in a state can give up: an edge that neither matches nor
/// dies leads to a quit state, or the end of the input does.
pub open spec fn can_quit(row: Row) -> bool {
    ||| row.eoi.quit
    ||| exists|k: int|
        0 <= k < row.edges.len() && (#[trigger] row.edges[k]).quit && !row.edges[k].matching
            && !row.edges[k].dead
}

proof fn lemma_start_reachable(source: spec_fn(u32) -> Row, start: u32)
    ensures
        reachable(source, start, start),
{
    assert(is_walk(source, start, seq![start]));
    assert(seq![start].last() == start);
}

proof fn lemma_step_reachable(source: spec_fn(u32) -> Row, start: u32, from: u32, to: u32)
    requires
        reachable(source, start, from),
        leads_to(source(from), to),
    ensures
        reachable(source, start, to),
{
    let walk = choose|walk: Seq<u32>|
        #[trigger] is_walk(source, start, walk) && walk.last() == from;
    let longer = walk.push(to);
    assert forall|i: int| #![trigger longer[i]] 0 <= i < longer.len() - 1 implies goes_on(
        source(longer[i]),
        longer[i + 1],
    ) by {
        assert(longer[i] == walk[i]);
        if i < walk.len() - 1 {
            assert(longer[i + 1] == walk[i + 1]);
        } else {
            let row = source(from);
            let k = choose|k: int|
                0 <= k < row.edges.len() && (#[trigger] row.edges[k]).is_live()
                    && row.edges[k].state == to;
            assert(!row.edges[k].matching);
        }
    }
    assert(is_walk(source, start, longer));
    assert(longer.last() == to);
}

/// States each of which is led to from an earlier one can all be reached.
proof fn lemma_order_reachable(source: spec_fn(u32) -> Row, start: u32, order: Seq<u32>, j: int)
    requires
        0 <= j < order.len(),
        order[0] == start,
        forall|j: int|
            #![trigger order[j]]
            0 < j < order.len() ==> exists|i: int|
                0 <= i < j && leads_to(source(#[trigger] order[i]), order[j]),
    ensures
        reachable(source, start, order[j]),
    decreases j,
{
    if j == 0 {
        lemma_start_reachable(source, start);
    } else {
        let i = choose|i: int| 0 <= i < j && leads_to(source(#[trigger] order[i]), order[j]);
        lemma_order_reachable(source, start, order, i);
        lemma_step_reachable(source, start, order[i], order[j]);
    }
}

/// A walk does not leave states that no live edge leaves.
proof fn lemma_walk_stays(
    source: spec_fn(u32) -> Row,
    start: u32,
    order: Seq<u32>,
    walk: Seq<u32>,
    i: int,
)
    requires
        order.contains(start),
        forall|i: int| 0 <= i < order.len() ==> is_closed(source(#[trigger] order[i]), order),
        is_walk(source, start, walk),
        0 <= i < walk.len(),
    ensures
        order.contains(walk[i]),
    decreases i,
{
    if i > 0 {
        lemma_walk_stays(source, start, order, walk, i - 1);
        let at = choose|at: int| 0 <= at < order.len() && order[at] == walk[i - 1];
        assert(is_closed(source(order[at]), order));
        let row = source(walk[i - 1]);
        assert(goes_on(row, walk[i - 1 + 1]));
        let k = choose|k: int|
            0 <= k < row.edges.len() && !(#[trigger] row.edges[k]).matching && !row.edges[k].dead
                && row.edges[k].state == walk[i];
        assert(row.edges[k].is_live());
    }
}

proof fn lemma_count(states: Seq<u32>, order: Seq<u32>)
    requires
        states.no_duplicates(),
        forall|i: int| 0 <= i < states.len() ==> order.contains(#[trigger] states[i]),
    ensures
        states.len() <= order.len(),
{
    states.unique_seq_to_set();
    vstd::seq_lib::seq_to_set_is_finite(order);
    assert(states.to_set().subset_of(order.to_set())) by {
        assert forall|s: u32| states.to_set().contains(s) implies order.to_set().contains(s) by {
            let i = choose|i: int| 0 <= i < states.len() && states[i] == s;
            assert(order.contains(states[i]));
        }
    }
    vstd::set_lib::lemma_len_subset(states.to_set(), order.to_set());
    order.lemma_cardinality_of_set();
}

/// The numbered states are exactly those that a search can reach, each of them
/// once and the start state first; there are no more than 4096 of them, their
/// rows of 261 bytes fit into 1 MiB, and in none of them a search can give up.
pub proof fn law_numbered_are_reachable(
    source: spec_fn(u32) -> Row,
    start: u32,
    order: Seq<u32>,
    states: Seq<u32>,
)
    requires
        numbering(source, start) == Ok::<Seq<u32>, Rejection>(order),
    ensures
        order.len() > 0,
        order[0] == start,
        order.no_duplicates(),
        forall|state: u32|
            order.contains(state) <==> #[trigger] reachable(source, start, state),
        forall|state: u32|
            #[trigger] reachable(source, start, state) ==> !can_quit(source(state)),
        all_reachable(source, start, states) ==> states.len() <= 4096 && states.len() * 261
            <= 1_048_576,
{
    law_numbering(source, start, order);
    assert(order.contains(start)) by {
        assert(order[0] == start);
    }
    assert forall|state: u32| order.contains(state) <==> #[trigger] reachable(
        source,
        start,
        state,
    ) by {
        if order.contains(state) {
            let j = choose|j: int| 0 <= j < order.len() && order[j] == state;
            lemma_order_reachable(source, start, order, j);
        }
        if reachable(source, start, state) {
            let walk = choose|walk: Seq<u32>|
                #[trigger] is_walk(source, start, walk) && walk.last() == state;
            lemma_walk_stays(source, start, order, walk, walk.len() - 1);
        }
    }
    assert forall|state: u32| #[trigger] reachable(source, start, state) implies !can_quit(
        source(state),
    ) by {
        assert(order.contains(state));
        let i = choose|i: int| 0 <= i < order.len() && order[i] == state;
        assert(is_closed(source(order[i]), order));
        let row = source(state);
        assert forall|k: int| 0 <= k < row.edges.len() && (#[trigger] row.edges[k]).quit implies
            row.edges[k].matching || row.edges[k].dead by {
            if !row.edges[k].matching && !row.edges[k].dead {
                assert(row.edges[k].is_live());
            }
        }
    }
    if all_reachable(source, start, states) {
        assert forall|i: int| 0 <= i < states.len() implies order.contains(
            #[trigger] states[i],
        ) by {
            assert(reachable(source, start, states[i]));
        }
        lemma_count(states, order);
    }
}

/// Edges are rejected for a quit state that a live edge leads to, or for one
/// state more than there are numbers.
proof fn lemma_edges_rejected(edges: Seq<Edge>, order: Seq<u32>) -> (states: Seq<u32>)
    requires
        order.no_duplicates(),
        order.len() <= 4096,
        number_edges(edges, order) is Err,
    ensures
        match number_edges(edges, order)->Err_0 {
            Rejection::Quit => exists|k: int|
                0 <= k < edges.len() && (#[trigger] edges[k]).is_live() && edges[k].quit,
            Rejection::TooManyStates => {
                &&& states.len() == 4097
                &&& states.no_duplicates()
                &&& forall|i: int|
                    #![trigger states[i]]
                    0 <= i < states.len() ==> order.contains(states[i]) || exists|k: int|
                        0 <= k < edges.len() && (#[trigger] edges[k]).is_live() && edges[k].state
                            == states[i]
            },
            Rejection::TableTooLarge { .. } => false,
        },
    decreases edges.len(),
{
    let shorter = edges.drop_last();
    let last = edges.last();
    assert(edges[edges.len() - 1] == last);
    if number_edges(shorter, order) is Err {
        let states = lemma_edges_rejected(shorter, order);
        if number_edges(shorter, order)->Err_0 is Quit {
            let k = choose|k: int|
                0 <= k < shorter.len() && (#[trigger] shorter[k]).is_live() && shorter[k].quit;
            assert(edges[k] == shorter[k]);
        }
        if number_edges(shorter, order)->Err_0 is TooManyStates {
            assert forall|i: int| #![trigger states[i]] 0 <= i < states.len() implies order.contains(
                states[i],
            ) || exists|k: int|
                0 <= k < edges.len() && (#[trigger] edges[k]).is_live() && edges[k].state
                    == states[i] by {
                if !order.contains(states[i]) {
                    let k = choose|k: int|
                        0 <= k < shorter.len() && (#[trigger] shorter[k]).is_live()
                            && shorter[k].state == states[i];
                    assert(edges[k] == shorter[k]);
                }
            }
        }
        states
    } else {
        lemma_edges(shorter, order);
        let before = number_edges(shorter, order)->Ok_0;
        let states = before.push(last.state);
        if number_edges(edges, order)->Err_0 is TooManyStates {
            assert forall|i: int| #![trigger states[i]] 0 <= i < states.len() implies order.contains(
                states[i],
            ) || exists|k: int|
                0 <= k < edges.len() && (#[trigger] edges[k]).is_live() && edges[k].state
                    == states[i] by {
                if i < order.len() {
                    assert(before[i] == order[i]);
                    assert(order.contains(states[i]));
                } else if i < before.len() {
                    assert(before[i] == states[i]);
                    let k = choose|k: int|
                        0 <= k < shorter.len() && (#[trigger] shorter[k]).is_live()
                            && shorter[k].state == before[i];
                    assert(edges[k] == shorter[k]);
                }
            }
        }
        states
    }
}

proof fn lemma_rejected(source: spec_fn(u32) -> Row, start: u32, count: nat) -> (states: Seq<u32>)
    requires
        explore(source, start, count) is Err,
    ensures
        match explore(source, start, count)->Err_0 {
            Rejection::Quit => exists|state: u32|
                #[trigger] reachable(source, start, state) && can_quit(source(state)),
            Rejection::TooManyStates => states.len() == 4097 && all_reachable(
                source,
                start,
                states,
            ),
            Rejection::TableTooLarge { rows } => {
                &&& rows == 4018
                &&& states.len() == 4018
                &&& all_reachable(source, start, states)
            },
        },
    decreases count,
{
    let less = (count - 1) as nat;
    if explore(source, start, less) is Err {
        lemma_rejected(source, start, less)
    } else {
        lemma_explore(source, start, less);
        let order = explore(source, start, less)->Ok_0;
        let from = order[count - 1];
        let row = source(from);
        assert forall|j: int| 0 <= j < order.len() implies reachable(
            source,
            start,
            #[trigger] order[j],
        ) by {
            lemma_order_reachable(source, start, order, j);
        }
        assert(reachable(source, start, from));
        if number_edges(row.edges, order) is Err {
            let states = lemma_edges_rejected(row.edges, order);
            if number_edges(row.edges, order)->Err_0 is Quit {
                let k = choose|k: int|
                    0 <= k < row.edges.len() && (#[trigger] row.edges[k]).is_live()
                        && row.edges[k].quit;
                assert(row.edges[k].quit && !row.edges[k].matching);
                assert(can_quit(source(from)));
            } else {
                assert forall|i: int| 0 <= i < states.len() implies reachable(
                    source,
                    start,
                    #[trigger] states[i],
                ) by {
                    if order.contains(states[i]) {
                        let j = choose|j: int| 0 <= j < order.len() && order[j] == states[i];
                        assert(reachable(source, start, order[j]));
                    } else {
                        assert(leads_to(row, states[i]));
                        lemma_step_reachable(source, start, from, states[i]);
                    }
                }
            }
            states
        } else {
            if row.eoi.quit {
                assert(can_quit(source(from)));
            }
            let states = order.take(count as int);
            assert(states.no_duplicates());
            assert forall|i: int| 0 <= i < states.len() implies reachable(
                source,
                start,
                #[trigger] states[i],
            ) by {
                assert(states[i] == order[i]);
            }
            states
        }
    }
}

/// A source DFA is rejected for a reason only that holds of what a search can
/// reach: a state in which it can give up, more than 4096 states, or more rows
/// than the table holds, which are 4018.
pub proof fn law_rejection_is_justified(
    source: spec_fn(u32) -> Row,
    start: u32,
    rejection: Rejection,
)
    requires
        numbering(source, start) == Err::<Seq<u32>, Rejection>(rejection),
    ensures
        match rejection {
            Rejection::Quit => exists|state: u32|
                #[trigger] reachable(source, start, state) && can_quit(source(state)),
            Rejection::TooManyStates => exists|states: Seq<u32>|
                #[trigger] all_reachable(source, start, states) && states.len() == 4097,
            Rejection::TableTooLarge { rows } => rows == 4018 && exists|states: Seq<u32>|
                #[trigger] all_reachable(source, start, states) && states.len() == 4018,
        },
{
    let rows = (crate::regex_dfa::GPU_TABLE_LIMIT / crate::regex_dfa::ROW_BYTES + 1) as nat;
    let states = lemma_rejected(source, start, rows);
    assert(rejection is Quit || all_reachable(source, start, states));
}

/// A source DFA has a compact table exactly if a search can nowhere give up and
/// no more states can be reached than have numbers and fit the table.
pub proof fn law_table_exists(source: spec_fn(u32) -> Row, start: u32)
    ensures
        numbering(source, start) is Ok <==> {
            &&& forall|state: u32|
                #[trigger] reachable(source, start, state) ==> !can_quit(source(state))
            &&& forall|states: Seq<u32>| #[trigger]
                all_reachable(source, start, states) ==> states.len() <= 4096 && states.len() * 261
                    <= 1_048_576
        },
{
    match numbering(source, start) {
        Ok(order) => {
            assert forall|states: Seq<u32>| #[trigger]
                all_reachable(source, start, states) implies states.len() <= 4096 && states.len()
                * 261 <= 1_048_576 by {
                law_numbered_are_reachable(source, start, order, states);
            }
            law_numbered_are_reachable(source, start, order, seq![]);
        },
        Err(rejection) => {
            law_rejection_is_justified(source, start, rejection);
        },
    }
}

} // verus!
