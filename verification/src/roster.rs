//! Ordered lists of addresses without repetition: the members of a group,
//! its payout order, the contributors of a round.

use vstd::prelude::*;
use crate::address::Address;

verus! {

/// `list` with every occurrence of `who` left out; the others keep their order.
pub open spec fn without(list: Seq<Address>, who: Address) -> Seq<Address> {
    list.filter(|m: Address| m != who)
}

/// Leaving out the element at the end of a prefix either drops it or keeps it.
pub proof fn lemma_without_push(list: Seq<Address>, last: Address, who: Address)
    ensures
        without(list.push(last), who) == if last == who {
            without(list, who)
        } else {
            without(list, who).push(last)
        },
{
    reveal(Seq::filter);
    assert(list.push(last).drop_last() =~= list);
}

/// What `without` keeps: exactly the elements other than `who`.
pub proof fn lemma_without_contains(list: Seq<Address>, who: Address, x: Address)
    ensures
        without(list, who).contains(x) <==> (list.contains(x) && x != who),
    decreases list.len(),
{
    reveal(Seq::filter);
    if list.len() > 0 {
        let front = list.drop_last();
        let last = list.last();
        lemma_without_contains(front, who, x);
        assert(front.push(last) =~= list);
        lemma_without_push(front, last, who);
        let kept = without(front, who);
        if list.contains(x) && x != who {
            let i = choose|i: int| 0 <= i < list.len() && list[i] == x;
            if i < list.len() - 1 {
                assert(front[i] == x);
                assert(front.contains(x));
                let j = choose|j: int| 0 <= j < kept.len() && kept[j] == x;
                assert(without(list, who)[j] == x);
            } else {
                assert(without(list, who) == kept.push(last));
                assert(kept.push(last)[kept.len() as int] == x);
            }
        }
        if without(list, who).contains(x) {
            let j = choose|j: int| 0 <= j < without(list, who).len() && without(list, who)[j] == x;
            if last != who && j == kept.len() {
                assert(list[list.len() - 1] == x);
            } else {
                assert(kept[j] == x);
                assert(kept.contains(x));
                let i = choose|i: int| 0 <= i < front.len() && front[i] == x;
                assert(list[i] == x);
            }
        }
    }
}

/// Leaving an element out of a list without repetition leaves no repetition.
pub proof fn lemma_without_unique(list: Seq<Address>, who: Address)
    requires
        list.no_duplicates(),
    ensures
        without(list, who).no_duplicates(),
        without(list, who).len() <= list.len(),
    decreases list.len(),
{
    reveal(Seq::filter);
    if list.len() > 0 {
        let front = list.drop_last();
        let last = list.last();
        lemma_without_unique(front, who);
        assert(front.push(last) =~= list);
        lemma_without_push(front, last, who);
        if last != who {
            lemma_without_contains(front, who, last);
            assert(!front.contains(last)) by {
                if front.contains(last) {
                    let i = choose|i: int| 0 <= i < front.len() && front[i] == last;
                    assert(list[i] == list[list.len() - 1]);
                }
            }
        }
    }
}

/// Leaving out an address that is not in the list changes nothing.
pub proof fn lemma_without_absent(list: Seq<Address>, who: Address)
    requires
        !list.contains(who),
    ensures
        without(list, who) == list,
    decreases list.len(),
{
    reveal(Seq::filter);
    if list.len() > 0 {
        let front = list.drop_last();
        let last = list.last();
        assert(list[list.len() - 1] != who);
        assert(!front.contains(who)) by {
            if front.contains(who) {
                let i = choose|i: int| 0 <= i < front.len() && front[i] == who;
                assert(list[i] == who);
            }
        }
        lemma_without_absent(front, who);
        assert(front.push(last) =~= list);
        lemma_without_push(front, last, who);
    } else {
        assert(without(list, who) =~= list);
    }
}

/// A prefix that grows by one element gains that element, and it is new
/// where the list has no repetition.
pub proof fn lemma_take_step(list: Seq<Address>, n: int)
    requires
        0 <= n < list.len(),
    ensures
        list.take(n + 1) == list.take(n).push(list[n]),
        list.take(n + 1).drop_last() == list.take(n),
        list.take(n + 1).to_set() == list.take(n).to_set().insert(list[n]),
        list.no_duplicates() ==> !list.take(n).contains(list[n]),
{
    let shorter = list.take(n);
    let longer = list.take(n + 1);
    assert(longer =~= shorter.push(list[n]));
    assert(longer.drop_last() =~= shorter);
    assert forall|a: Address| longer.contains(a) <==> (shorter.contains(a) || a == list[n]) by {
        if longer.contains(a) {
            let k = choose|k: int| 0 <= k < longer.len() && longer[k] == a;
            if k < n {
                assert(shorter[k] == a);
            }
        }
        if shorter.contains(a) {
            let k = choose|k: int| 0 <= k < shorter.len() && shorter[k] == a;
            assert(longer[k] == a);
        }
        if a == list[n] {
            assert(longer[n] == a);
        }
    }
    assert(longer.to_set() =~= shorter.to_set().insert(list[n]));
    if list.no_duplicates() && shorter.contains(list[n]) {
        let k = choose|k: int| 0 <= k < shorter.len() && shorter[k] == list[n];
        assert(list[k] == list[n]);
    }
}

/// Is `who` one of `list`?
pub fn contains(list: &Vec<Address>, who: &Address) -> (found: bool)
    ensures
        found == list@.contains(*who),
{
    let mut i: usize = 0;
    while i < list.len()
        invariant
            i <= list.len(),
            forall|j: int| 0 <= j < i ==> list@[j] != *who,
        decreases list.len() - i,
    {
        if list[i] == *who {
            return true;
        }
        i += 1;
    }
    false
}

/// A copy of `list` in which `who` no longer occurs.
pub fn remove(list: &Vec<Address>, who: &Address) -> (rest: Vec<Address>)
    ensures
        rest@ == without(list@, *who),
{
    let mut rest: Vec<Address> = Vec::new();
    let mut i: usize = 0;
    proof {
        reveal(Seq::filter);
        assert(list@.take(0) =~= Seq::<Address>::empty());
    }
    while i < list.len()
        invariant
            i <= list.len(),
            rest@ == without(list@.take(i as int), *who),
        decreases list.len() - i,
    {
        proof {
            assert(list@.take(i as int).push(list@[i as int]) =~= list@.take(i + 1));
            lemma_without_push(list@.take(i as int), list@[i as int], *who);
        }
        if list[i] != *who {
            rest.push(list[i]);
        }
        i += 1;
    }
    proof {
        assert(list@.take(list.len() as int) =~= list@);
    }
    rest
}

/// Does every address occur at most once in `list`?
pub fn is_unique(list: &Vec<Address>) -> (unique: bool)
    ensures
        unique == list@.no_duplicates(),
{
    let mut i: usize = 0;
    while i < list.len()
        invariant
            i <= list.len(),
            list@.take(i as int).no_duplicates(),
        decreases list.len() - i,
    {
        let mut j: usize = 0;
        while j < i
            invariant
                j <= i,
                i < list.len(),
                forall|k: int| 0 <= k < j ==> list@[k] != list@[i as int],
            decreases i - j,
        {
            if list[j] == list[i] {
                return false;
            }
            j += 1;
        }
        assert(list@.take(i + 1).no_duplicates()) by {
            let longer = list@.take(i + 1);
            let shorter = list@.take(i as int);
            assert forall|a: int, b: int|
                0 <= a < longer.len() && 0 <= b < longer.len() && a != b implies longer[a]
                != longer[b] by {
                if a < i && b < i {
                    assert(shorter[a] != shorter[b]);
                }
            }
        }
        i += 1;
    }
    assert(list@.take(list.len() as int) =~= list@);
    true
}

} // verus!
