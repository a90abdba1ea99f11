use vstd::prelude::*;
use crate::operating_system::process::ProcessModel;

verus! {

/// `sorted` with `p` put behind every process whose priority is not above its
/// own.
pub open spec fn insert_by_priority<L>(sorted: Seq<ProcessModel<L>>, p: ProcessModel<L>) -> Seq<
    ProcessModel<L>,
>
    decreases sorted.len(),
{
    if sorted.len() == 0 {
        seq![p]
    } else if sorted.last().priority <= p.priority {
        sorted.push(p)
    } else {
        insert_by_priority(sorted.drop_last(), p).push(sorted.last())
    }
}

/// `processes` in ascending priority, processes of one priority in the order
/// they had.
pub open spec fn sort_by_priority<L>(processes: Seq<ProcessModel<L>>) -> Seq<ProcessModel<L>>
    decreases processes.len(),
{
    if processes.len() == 0 {
        processes
    } else {
        insert_by_priority(sort_by_priority(processes.drop_last()), processes.last())
    }
}

/// Where `p` goes in `sorted`: to the position `at`, when every process from
/// there on has a higher priority and the one before it, if there is one,
/// has not.
pub proof fn lemma_insert_by_priority_at<L>(sorted: Seq<ProcessModel<L>>, p: ProcessModel<L>, at: int)
    requires
        0 <= at <= sorted.len(),
        forall|k: int| at <= k < sorted.len() ==> (#[trigger] sorted[k]).priority > p.priority,
        at > 0 ==> sorted[at - 1].priority <= p.priority,
    ensures
        insert_by_priority(sorted, p) == sorted.insert(at, p),
    decreases sorted.len(),
{
    if sorted.len() == 0 {
        assert(seq![p] =~= sorted.insert(at, p));
    } else if at == sorted.len() {
        assert(sorted.push(p) =~= sorted.insert(at, p));
    } else {
        let front = sorted.drop_last();
        assert(sorted.last().priority > p.priority);
        assert forall|k: int| at <= k < front.len() implies (#[trigger] front[k]).priority
            > p.priority by {
            assert(front[k] == sorted[k]);
        }
        lemma_insert_by_priority_at(front, p, at);
        assert(front.insert(at, p).push(sorted.last()) =~= sorted.insert(at, p));
    }
}

/// Inserting a process keeps what holds of every process of the list and of
/// the new one.
pub proof fn lemma_insert_by_priority_keeps<L>(
    sorted: Seq<ProcessModel<L>>,
    p: ProcessModel<L>,
    holds: spec_fn(ProcessModel<L>) -> bool,
)
    requires
        forall|i: int| 0 <= i < sorted.len() ==> holds(#[trigger] sorted[i]),
        holds(p),
    ensures
        insert_by_priority(sorted, p).len() == sorted.len() + 1,
        forall|i: int|
            0 <= i < insert_by_priority(sorted, p).len() ==> holds(
                #[trigger] insert_by_priority(sorted, p)[i],
            ),
    decreases sorted.len(),
{
    if sorted.len() > 0 && sorted.last().priority > p.priority {
        let front = sorted.drop_last();
        assert forall|i: int| 0 <= i < front.len() implies holds(#[trigger] front[i]) by {
            assert(front[i] == sorted[i]);
        }
        lemma_insert_by_priority_keeps(front, p, holds);
    }
}

/// Sorting keeps the length of the list and what holds of every process.
pub proof fn lemma_sort_by_priority_keeps<L>(
    processes: Seq<ProcessModel<L>>,
    holds: spec_fn(ProcessModel<L>) -> bool,
)
    requires
        forall|i: int| 0 <= i < processes.len() ==> holds(#[trigger] processes[i]),
    ensures
        sort_by_priority(processes).len() == processes.len(),
        forall|i: int|
            0 <= i < processes.len() ==> holds(#[trigger] sort_by_priority(processes)[i]),
    decreases processes.len(),
{
    if processes.len() > 0 {
        let front = processes.drop_last();
        assert forall|i: int| 0 <= i < front.len() implies holds(#[trigger] front[i]) by {
            assert(front[i] == processes[i]);
        }
        lemma_sort_by_priority_keeps(front, holds);
        lemma_insert_by_priority_keeps(sort_by_priority(front), processes.last(), holds);
    }
}

/// Whether the priorities of `processes` never fall along the list.
pub open spec fn in_priority_order<L>(processes: Seq<ProcessModel<L>>) -> bool {
    forall|i: int, j: int|
        0 <= i <= j < processes.len() ==> (#[trigger] processes[i]).priority <= (
        #[trigger] processes[j]).priority
}

/// Whether a process has the priority `priority`.
pub open spec fn of_priority<L>(priority: usize) -> spec_fn(ProcessModel<L>) -> bool {
    |p: ProcessModel<L>| p.priority == priority
}

/// The position that `p` takes in `sorted`: behind the last process whose
/// priority is not above its own.
pub open spec fn rank<L>(sorted: Seq<ProcessModel<L>>, p: ProcessModel<L>) -> int
    decreases sorted.len(),
{
    if sorted.len() == 0 {
        0
    } else if sorted.last().priority <= p.priority {
        sorted.len() as int
    } else {
        rank(sorted.drop_last(), p)
    }
}

/// `insert_by_priority` puts `p` at its rank: every process from there on
/// has a higher priority, and the one before, if there is one, has not.
pub proof fn lemma_insert_at_rank<L>(sorted: Seq<ProcessModel<L>>, p: ProcessModel<L>)
    ensures
        0 <= rank(sorted, p) <= sorted.len(),
        forall|k: int|
            rank(sorted, p) <= k < sorted.len() ==> (#[trigger] sorted[k]).priority > p.priority,
        rank(sorted, p) > 0 ==> sorted[rank(sorted, p) - 1].priority <= p.priority,
        insert_by_priority(sorted, p) == sorted.insert(rank(sorted, p), p),
    decreases sorted.len(),
{
    if sorted.len() > 0 && sorted.last().priority > p.priority {
        let front = sorted.drop_last();
        lemma_insert_at_rank(front, p);
        assert forall|k: int| rank(sorted, p) <= k < sorted.len() implies (
        #[trigger] sorted[k]).priority > p.priority by {
            if k < front.len() {
                assert(sorted[k] == front[k]);
            }
        }
        if rank(sorted, p) > 0 {
            assert(sorted[rank(sorted, p) - 1] == front[rank(front, p) - 1]);
        }
    }
    lemma_insert_by_priority_at(sorted, p, rank(sorted, p));
}

/// Inserting into an ordered list gives an ordered list.
proof fn lemma_insert_keeps_order<L>(sorted: Seq<ProcessModel<L>>, p: ProcessModel<L>)
    requires
        in_priority_order(sorted),
    ensures
        in_priority_order(insert_by_priority(sorted, p)),
{
    lemma_insert_at_rank(sorted, p);
    let at = rank(sorted, p);
    let out = sorted.insert(at, p);
    assert forall|i: int, j: int| 0 <= i <= j < out.len() implies (#[trigger] out[i]).priority <= (
    #[trigger] out[j]).priority by {
        if at > 0 {
            if i < at {
                assert(sorted[i].priority <= sorted[at - 1].priority);
            }
        }
        if i < at && j > at {
            assert(out[i] == sorted[i]);
            assert(out[j] == sorted[j - 1]);
        } else if i > at {
            assert(out[i] == sorted[i - 1]);
            assert(out[j] == sorted[j - 1]);
        } else if j < at {
            assert(out[i] == sorted[i]);
            assert(out[j] == sorted[j]);
        }
    }
}

/// Inserting `p` adds it at the end of the processes of its priority and
/// leaves the processes of every other priority as they were.
proof fn lemma_insert_is_stable<L>(
    sorted: Seq<ProcessModel<L>>,
    p: ProcessModel<L>,
    priority: usize,
)
    ensures
        insert_by_priority(sorted, p).filter(of_priority(priority)) == sorted.push(p).filter(
            of_priority(priority),
        ),
{
    lemma_insert_at_rank(sorted, p);
    let at = rank(sorted, p);
    let same = of_priority::<L>(priority);
    let front = sorted.take(at);
    let back = sorted.skip(at);
    assert(sorted =~= front + back);
    assert(sorted.insert(at, p) =~= front.push(p) + back);
    assert(sorted.push(p) =~= (front + back).push(p));
    Seq::filter_distributes_over_add(front.push(p), back, same);
    Seq::filter_distributes_over_add(front, back, same);
    front.lemma_filter_push(p, same);
    (front + back).lemma_filter_push(p, same);
    if p.priority == priority {
        assert(back.filter(same).len() == 0) by {
            assert forall|k: int| 0 <= k < back.len() implies !same(#[trigger] back[k]) by {
                assert(back[k] == sorted[at + k]);
            }
            assert(back.all(|q: ProcessModel<L>| !same(q)));
            back.lemma_all_neg_filter_empty(same);
        }
        assert(back.filter(same) =~= Seq::empty());
        assert(front.filter(same).push(p) + back.filter(same) =~= (front.filter(same)
            + back.filter(same)).push(p));
    }
}

/// The processes come out of the sort in ascending priority.
pub proof fn lemma_sort_orders<L>(processes: Seq<ProcessModel<L>>)
    ensures
        in_priority_order(sort_by_priority(processes)),
    decreases processes.len(),
{
    if processes.len() > 0 {
        lemma_sort_orders(processes.drop_last());
        lemma_insert_keeps_order(sort_by_priority(processes.drop_last()), processes.last());
    }
}

/// The sort is stable: the processes of one priority come out in the order
/// in which they went in.
pub proof fn lemma_sort_is_stable<L>(processes: Seq<ProcessModel<L>>, priority: usize)
    ensures
        sort_by_priority(processes).filter(of_priority(priority)) == processes.filter(
            of_priority(priority),
        ),
    decreases processes.len(),
{
    if processes.len() > 0 {
        let front = processes.drop_last();
        let same = of_priority::<L>(priority);
        lemma_sort_is_stable(front, priority);
        lemma_insert_is_stable(sort_by_priority(front), processes.last(), priority);
        sort_by_priority(front).lemma_filter_push(processes.last(), same);
        front.lemma_filter_push(processes.last(), same);
        assert(processes =~= front.push(processes.last()));
    }
}

/// The sort neither adds nor drops a process.
pub proof fn lemma_sort_permutes<L>(processes: Seq<ProcessModel<L>>)
    ensures
        sort_by_priority(processes).to_multiset() == processes.to_multiset(),
        sort_by_priority(processes).len() == processes.len(),
    decreases processes.len(),
{
    broadcast use vstd::seq_lib::group_to_multiset_ensures;

    if processes.len() > 0 {
        let front = processes.drop_last();
        lemma_sort_permutes(front);
        lemma_insert_at_rank(sort_by_priority(front), processes.last());
        assert(processes =~= front.push(processes.last()));
    }
}

} // verus!
