//! The dispatcher's pool of channels. A channel carries one payload at a
//! time, so a request checks a channel out, uses it alone, and gives it
//! back; concurrent requests are served by as many channels.

use vstd::prelude::*;

verus! {

/// A bounded set of channels, numbered from 0, each free or in use.
pub struct ChannelPool {
    in_use: Vec<bool>,
}

/// The first free channel, if any is free.
pub open spec fn first_free(in_use: Seq<bool>) -> Option<int> {
    if exists|i: int| 0 <= i < in_use.len() && !in_use[i] {
        Some(
            choose|i: int|
                0 <= i < in_use.len() && !in_use[i] && forall|j: int| 0 <= j < i ==> in_use[j],
        )
    } else {
        None
    }
}

/// How many channels are in use.
pub open spec fn count_in_use(in_use: Seq<bool>) -> nat
    decreases in_use.len(),
{
    if in_use.len() == 0 {
        0
    } else {
        count_in_use(in_use.drop_last()) + if in_use.last() {
            1nat
        } else {
            0nat
        }
    }
}

impl View for ChannelPool {
    type V = Seq<bool>;

    /// For each channel, whether it is in use.
    closed spec fn view(&self) -> Seq<bool> {
        self.in_use@
    }
}

/// The first free channel is `at`, where `at` is free and all before it are in use.
pub proof fn lemma_first_free_unique(in_use: Seq<bool>, at: int)
    requires
        0 <= at < in_use.len(),
        !in_use[at],
        forall|j: int| 0 <= j < at ==> in_use[j],
    ensures
        first_free(in_use) == Some(at),
{
    let chosen = choose|i: int|
        0 <= i < in_use.len() && !in_use[i] && forall|j: int| 0 <= j < i ==> in_use[j];
    if chosen < at {
        assert(in_use[chosen]);
    } else if at < chosen {
        assert(in_use[at]);
    }
}

/// A channel that is checked out is not handed out again before it is
/// given back: whatever is checked out next is another channel.
pub proof fn lemma_channel_is_exclusive(in_use: Seq<bool>)
    requires
        first_free(in_use) is Some,
    ensures
        0 <= first_free(in_use)->0 < in_use.len(),
        !in_use[first_free(in_use)->0],
        first_free(in_use.update(first_free(in_use)->0, true)) != first_free(in_use),
{
    let witness = choose|i: int| 0 <= i < in_use.len() && !in_use[i];
    lemma_least_free(in_use, 0, witness);
    let at = first_free(in_use)->0;
    let after = in_use.update(at, true);
    if first_free(after) == Some(at) {
        if exists|i: int| 0 <= i < after.len() && !after[i] {
            let w = choose|i: int| 0 <= i < after.len() && !after[i];
            lemma_least_free(after, 0, w);
        }
    }
}

/// Where a channel is free, there is a first free channel.
proof fn lemma_least_free(in_use: Seq<bool>, start: int, witness: int)
    requires
        0 <= start <= witness < in_use.len(),
        !in_use[witness],
        forall|j: int| 0 <= j < start ==> in_use[j],
    ensures
        first_free(in_use) matches Some(at) && 0 <= at < in_use.len() && !in_use[at] && forall|
            j: int,
        | 0 <= j < at ==> in_use[j],
    decreases witness - start,
{
    if !in_use[start] {
        lemma_first_free_unique(in_use, start);
    } else {
        lemma_least_free(in_use, start + 1, witness);
    }
}

impl ChannelPool {
    /// A pool of `size` channels, all free.
    pub fn new(size: usize) -> (pool: ChannelPool)
        ensures
            pool@.len() == size,
            forall|i: int| 0 <= i < size ==> !pool@[i],
    {
        let mut in_use: Vec<bool> = Vec::new();
        while in_use.len() < size
            invariant
                in_use@.len() <= size,
                forall|i: int| 0 <= i < in_use@.len() ==> !in_use@[i],
            decreases size - in_use@.len(),
        {
            in_use.push(false);
        }
        ChannelPool { in_use }
    }

    /// How many channels the pool has.
    pub fn size(&self) -> (n: usize)
        ensures
            n == self@.len(),
    {
        self.in_use.len()
    }

    /// How many channels are in use.
    pub fn in_flight(&self) -> (n: usize)
        ensures
            n == count_in_use(self@),
    {
        let mut n: usize = 0;
        let mut i: usize = 0;
        assert(self.in_use@.take(0) =~= Seq::<bool>::empty());
        while i < self.in_use.len()
            invariant
                i <= self.in_use@.len(),
                n <= i,
                n == count_in_use(self.in_use@.take(i as int)),
            decreases self.in_use@.len() - i,
        {
            assert(self.in_use@.take(i + 1).drop_last() =~= self.in_use@.take(i as int));
            if self.in_use[i] {
                n += 1;
            }
            i += 1;
        }
        assert(self.in_use@.take(i as int) =~= self.in_use@);
        n
    }

    /// Checks out the first free channel, which is then in use until it is
    /// given back. `None`, and nothing changed, where every channel is in use.
    pub fn checkout(&mut self) -> (channel: Option<usize>)
        ensures
            match channel {
                Some(at) => first_free(old(self)@) == Some(at as int) && at < old(self)@.len()
                    && !old(self)@[at as int] && final(self)@ == old(self)@.update(
                    at as int,
                    true,
                ),
                None => first_free(old(self)@) is None && final(self)@ == old(self)@,
            },
    {
        let mut i: usize = 0;
        while i < self.in_use.len()
            invariant
                i <= self.in_use@.len(),
                self.in_use@ == old(self).in_use@,
                forall|j: int| 0 <= j < i ==> self.in_use@[j],
            decreases self.in_use@.len() - i,
        {
            if !self.in_use[i] {
                proof {
                    lemma_first_free_unique(self.in_use@, i as int);
                }
                self.in_use.set(i, true);
                return Some(i);
            }
            i += 1;
        }
        None
    }

    /// Gives a channel back. Says whether it was in use; if it was not, or
    /// is no channel of the pool, nothing is changed.
    pub fn give_back(&mut self, channel: usize) -> (was_in_use: bool)
        ensures
            was_in_use == (channel < old(self)@.len() && old(self)@[channel as int]),
            final(self)@ == if was_in_use {
                old(self)@.update(channel as int, false)
            } else {
                old(self)@
            },
    {
        if channel < self.in_use.len() && self.in_use[channel] {
            self.in_use.set(channel, false);
            true
        } else {
            false
        }
    }
}

} // verus!
