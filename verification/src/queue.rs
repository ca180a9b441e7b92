//! Conversions between lists and the queues that the schedulers serve.

use std::collections::VecDeque;
use vstd::prelude::*;

verus! {

/// The items as a queue, the first in front.
pub fn queue_of<T>(items: Vec<T>) -> (queue: VecDeque<T>)
    ensures
        queue@ == items@,
{
    let ghost given = items@;
    let mut items = items;
    let mut queue: VecDeque<T> = VecDeque::new();
    while items.len() > 0
        invariant
            items@ + queue@ == given,
        decreases items.len(),
    {
        let ghost before = items@;
        let ghost behind = queue@;
        match items.pop() {
            Some(last) => {
                queue.push_front(last);
                proof {
                    assert(items@ + queue@ =~= before + behind);
                }
            },
            None => {},
        }
    }
    proof {
        assert(items@ + queue@ =~= queue@);
    }
    queue
}

/// The items of a queue as a list, the first in front.
pub fn list_of<T>(queue: VecDeque<T>) -> (items: Vec<T>)
    ensures
        items@ == queue@,
{
    let ghost given = queue@;
    let mut queue = queue;
    let mut items: Vec<T> = Vec::new();
    while queue.len() > 0
        invariant
            items@ + queue@ == given,
        decreases queue.len(),
    {
        let ghost before = items@;
        let ghost behind = queue@;
        match queue.pop_front() {
            Some(first) => {
                items.push(first);
                proof {
                    assert(items@ + queue@ =~= before + behind);
                }
            },
            None => {},
        }
    }
    proof {
        assert(items@ + queue@ =~= items@);
    }
    items
}

} // verus!
