//! Task and resource identifiers.

use std::sync::atomic::AtomicUsize;
use std::sync::atomic::Ordering;
use vstd::prelude::*;

verus! {

/// An opaque identifier. Identifiers of one generator are ordered by creation.
#[derive(Copy, Clone, Debug, Hash, Eq, PartialEq, Structural)]
pub struct Id {
    index: usize,
}

impl View for Id {
    type V = usize;

    /// The position of this identifier in its generator's sequence.
    closed spec fn view(&self) -> usize {
        self.index
    }
}

impl Id {
    /// The position of this identifier in its generator's sequence.
    pub fn index(&self) -> (r: usize)
        ensures
            r == self@,
    {
        self.index
    }
}

impl From<Id> for usize {
    fn from(value: Id) -> (r: usize) {
        value.index
    }
}

impl vstd::std_specs::convert::FromSpecImpl<Id> for usize {
    open spec fn obeys_from_spec() -> bool {
        true
    }

    open spec fn from_spec(value: Id) -> usize {
        value@
    }
}

/// Two identifiers with the same position are the same identifier.
pub proof fn lemma_id_determined_by_index(a: Id, b: Id)
    ensures
        a@ == b@ <==> a == b,
{
}

/// Issues identifiers one at a time, each exactly once.
pub struct IdGenerator {
    next: usize,
}

impl Default for IdGenerator {
    fn default() -> (r: Self)
        ensures
            r.issued() == 0,
    {
        IdGenerator { next: 0 }
    }
}

impl IdGenerator {
    /// How many identifiers this generator has issued so far.
    pub closed spec fn issued(&self) -> nat {
        self.next as nat
    }

    /// Whether the generator can still issue an identifier.
    pub open spec fn has_next(&self) -> bool {
        self.issued() < usize::MAX
    }

    /// A generator that has already issued the identifiers below `next`.
    pub fn starting_at(next: usize) -> (r: Self)
        ensures
            r.issued() == next,
    {
        IdGenerator { next }
    }

    /// How many identifiers this generator has issued so far.
    pub fn count(&self) -> (r: usize)
        ensures
            r == self.issued(),
    {
        self.next
    }

    /// The step that one call of [`IdGenerator::next`] makes from `self` to
    /// `post` with result `r`.
    pub open spec fn issues(&self, r: Option<Id>, post: IdGenerator) -> bool {
        if self.has_next() {
            &&& r matches Some(id)
            &&& id@ == self.issued()
            &&& post.issued() == self.issued() + 1
        } else {
            &&& r is None
            &&& post.issued() == self.issued()
        }
    }

    /// Issues the next identifier, or `None` once the counter cannot advance.
    pub fn next(&mut self) -> (r: Option<Id>)
        ensures
            old(self).issues(r, *final(self)),
    {
        match self.next.checked_add(1) {
            Some(new) => {
                let ret = Id { index: self.next };
                self.next = new;
                Some(ret)
            },
            None => None,
        }
    }
}

/// A generator has issued no more identifiers than there are.
pub proof fn lemma_issue_count_bounded(g: IdGenerator)
    ensures
        g.issued() <= usize::MAX,
{
}

/// A generator never goes back: whatever a call of `next` returns, the number
/// of identifiers issued does not decrease.
pub proof fn lemma_issue_count_grows(pre: IdGenerator, r: Option<Id>, post: IdGenerator)
    requires
        pre.issues(r, post),
    ensures
        pre.issued() <= post.issued(),
        post.issued() <= usize::MAX,
{
}

/// Distinct issues give distinct identifiers: an identifier issued at state
/// `first` differs from one issued at any state `second` reached after it,
/// and is the smaller of the two.
pub proof fn lemma_later_id_differs(
    first: IdGenerator,
    id1: Id,
    after_first: IdGenerator,
    second: IdGenerator,
    id2: Id,
    after_second: IdGenerator,
)
    requires
        first.issues(Some(id1), after_first),
        after_first.issued() <= second.issued(),
        second.issues(Some(id2), after_second),
    ensures
        id1@ < id2@,
        id1 != id2,
{
}

/// An exhausted generator stays exhausted and issues nothing.
pub proof fn lemma_exhausted_issues_nothing(pre: IdGenerator, r: Option<Id>, post: IdGenerator)
    requires
        !pre.has_next(),
        pre.issues(r, post),
    ensures
        r is None,
        !post.has_next(),
{
}

/// The table `table` after the pairs of `pairs` were entered in order, each
/// under the position of its identifier, a later pair replacing an earlier
/// one with the same identifier.
pub open spec fn entered<V>(table: Map<usize, V>, pairs: Seq<(Id, V)>) -> Map<usize, V>
    decreases pairs.len(),
{
    if pairs.len() == 0 {
        table
    } else {
        entered(table.insert(pairs[0].0@, pairs[0].1), pairs.skip(1))
    }
}

/// Entering one more pair after the others is an insertion into the table
/// that the others give.
pub proof fn lemma_entered_push<V>(table: Map<usize, V>, pairs: Seq<(Id, V)>, id: Id, value: V)
    ensures
        entered(table, pairs.push((id, value))) == entered(table, pairs).insert(id@, value),
    decreases pairs.len(),
{
    let pushed = pairs.push((id, value));
    if pairs.len() == 0 {
        assert(pushed.skip(1) =~= Seq::<(Id, V)>::empty());
        assert(entered(table.insert(id@, value), pushed.skip(1)) == table.insert(id@, value));
    } else {
        assert(pushed.skip(1) =~= pairs.skip(1).push((id, value)));
        lemma_entered_push(table.insert(pairs[0].0@, pairs[0].1), pairs.skip(1), id, value);
    }
}

/// Entering pairs keeps every key of the table and adds the identifier of
/// every pair.
pub proof fn lemma_entered_keys<V>(table: Map<usize, V>, pairs: Seq<(Id, V)>, k: usize)
    ensures
        entered(table, pairs).contains_key(k) <==> table.contains_key(k) || exists|i: int|
            0 <= i < pairs.len() && (#[trigger] pairs[i]).0@ == k,
    decreases pairs.len(),
{
    if pairs.len() > 0 {
        let rest = pairs.skip(1);
        lemma_entered_keys(table.insert(pairs[0].0@, pairs[0].1), rest, k);
        if exists|i: int| 0 <= i < rest.len() && (#[trigger] rest[i]).0@ == k {
            let i = choose|i: int| 0 <= i < rest.len() && (#[trigger] rest[i]).0@ == k;
            assert(pairs[i + 1].0@ == k);
        }
        if exists|i: int| 0 <= i < pairs.len() && (#[trigger] pairs[i]).0@ == k {
            let i = choose|i: int| 0 <= i < pairs.len() && (#[trigger] pairs[i]).0@ == k;
            if i > 0 {
                assert(rest[i - 1].0@ == k);
            }
        }
    }
}

/// A pair whose identifier occurs once among the pairs is entered with its
/// own value.
pub proof fn lemma_entered_value<V>(table: Map<usize, V>, pairs: Seq<(Id, V)>, at: int)
    requires
        0 <= at < pairs.len(),
        forall|i: int| 0 <= i < pairs.len() && i != at ==> (#[trigger] pairs[i]).0@ != pairs[at].0@,
    ensures
        entered(table, pairs).contains_key(pairs[at].0@),
        entered(table, pairs)[pairs[at].0@] == pairs[at].1,
    decreases pairs.len(),
{
    let rest = pairs.skip(1);
    let first = table.insert(pairs[0].0@, pairs[0].1);
    if at == 0 {
        lemma_entered_untouched(first, rest, pairs[0].0@);
        assert forall|i: int| 0 <= i < rest.len() implies (#[trigger] rest[i]).0@ != pairs[0].0@ by {
            assert(rest[i] == pairs[i + 1]);
        }
    } else {
        assert(rest[at - 1] == pairs[at]);
        assert forall|i: int| 0 <= i < rest.len() && i != at - 1 implies (#[trigger] rest[i]).0@
            != rest[at - 1].0@ by {
            assert(rest[i] == pairs[i + 1]);
        }
        lemma_entered_value(first, rest, at - 1);
    }
}

/// A key that is the identifier of no pair keeps its value.
pub proof fn lemma_entered_untouched<V>(table: Map<usize, V>, pairs: Seq<(Id, V)>, k: usize)
    requires
        forall|i: int| 0 <= i < pairs.len() ==> (#[trigger] pairs[i]).0@ != k,
    ensures
        entered(table, pairs).contains_key(k) == table.contains_key(k),
        table.contains_key(k) ==> entered(table, pairs)[k] == table[k],
    decreases pairs.len(),
{
    if pairs.len() > 0 {
        let rest = pairs.skip(1);
        assert forall|i: int| 0 <= i < rest.len() implies (#[trigger] rest[i]).0@ != k by {
            assert(rest[i] == pairs[i + 1]);
        }
        assert(pairs[0].0@ != k);
        lemma_entered_untouched(table.insert(pairs[0].0@, pairs[0].1), rest, k);
    }
}

/// The position after `position`, if there is one.
pub fn successor(position: usize) -> (r: Option<usize>)
    ensures
        r == (if position < usize::MAX {
            Some((position + 1) as usize)
        } else {
            None::<usize>
        }),
{
    position.checked_add(1)
}

/// `AtomicUsize::fetch_update`: moves the counter on to the successor of its
/// value in one step, and returns the value it moved on from. Where the value
/// has no successor the counter stays as it is and nothing is returned. Which
/// value the counter has depends on the other threads.
#[verifier::external_body]
fn advance(counter: &AtomicUsize) -> (r: Option<usize>)
    ensures
        r matches Some(position) ==> position < usize::MAX,
{
    counter.fetch_update(Ordering::SeqCst, Ordering::SeqCst, successor).ok()
}

/// A generator that is shared between threads.
pub struct AtomicIdGenerator {
    next: AtomicUsize,
}

impl Default for AtomicIdGenerator {
    fn default() -> (r: Self) {
        AtomicIdGenerator { next: AtomicUsize::new(0) }
    }
}

impl AtomicIdGenerator {
    /// A generator whose counter stands at `next`.
    pub fn starting_at(next: usize) -> (r: Self) {
        AtomicIdGenerator { next: AtomicUsize::new(next) }
    }

    /// Issues the identifier at the counter's current position and advances
    /// the counter, or issues nothing once the counter cannot advance. The
    /// counter is shared, so the position depends on the issues that other
    /// holders made in the meantime; it never wraps around, so that no
    /// identifier is issued twice.
    pub fn next(&self) -> (r: Option<Id>)
        ensures
            r matches Some(id) ==> id@ < usize::MAX,
    {
        match advance(&self.next) {
            Some(position) => Some(Self::issue(position)),
            None => None,
        }
    }

    /// The identifier that is issued when the counter stood at `position`.
    pub fn issue(position: usize) -> (r: Id)
        ensures
            r@ == position,
    {
        Id { index: position }
    }
}

} // verus!
