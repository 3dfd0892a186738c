use vstd::prelude::*;

verus! {

/// The number of open connections after one more opens.
pub open spec fn counter_after_increment(count: usize) -> int {
    count + 1
}

/// The number of open connections after one closes; it never goes below zero.
pub open spec fn counter_after_decrement(count: usize) -> int {
    if count > 0 {
        count - 1
    } else {
        0
    }
}

/// Counts one more open connection.
pub fn increment_thread_local_counter(counter: &mut usize)
    requires
        *old(counter) < usize::MAX,
    ensures
        *final(counter) == counter_after_increment(*old(counter)),
{
    *counter = *counter + 1;
}

/// Counts one connection fewer, staying at zero when none is counted.
pub fn decrement_thread_local_counter(counter: &mut usize)
    ensures
        *final(counter) == counter_after_decrement(*old(counter)),
{
    if *counter > 0 {
        *counter = *counter - 1;
    }
}

/// Closing a connection undoes opening one: the count returns to where it was.
pub proof fn lemma_decrement_undoes_increment(count: usize)
    requires
        count < usize::MAX,
    ensures
        counter_after_decrement(counter_after_increment(count) as usize) == count,
{
}

} // verus!
