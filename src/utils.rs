//! Small helpers, and a bounded sorted container of the best entries seen.
use vstd::prelude::*;

verus! {

/// The characters of a string slice, in order.
pub fn chars_of(s: &str) -> (r: Vec<char>)
    ensures
        r@ == s@,
{
    let mut v: Vec<char> = Vec::new();
    for c in it: s.chars()
        invariant
            v@ == it.seq().take(it.index() as int),
    {
        v.push(c);
    }
    assert(v@ =~= s@);
    v
}

} // verus!

verus! {

/// Entries that a `ConstrainedSortedList` orders: a larger rank is kept
/// in preference to a smaller one.
pub trait Ranked {
    spec fn spec_rank(&self) -> int;

    fn rank(&self) -> (r: i128)
        ensures
            r == self.spec_rank(),
    ;
}

impl Ranked for usize {
    open spec fn spec_rank(&self) -> int {
        *self as int
    }

    fn rank(&self) -> (r: i128) {
        *self as i128
    }
}

/// Ranks that do not increase along `s`.
pub open spec fn sorted_by_rank<T: Ranked>(s: Seq<T>) -> bool {
    forall|a: int, b: int| 0 <= a < b < s.len() ==> s[a].spec_rank() >= s[b].spec_rank()
}

/// `k` is where `el` goes in `s`: after every entry of larger rank, before
/// the first whose rank is not larger.
pub open spec fn insert_position<T: Ranked>(s: Seq<T>, el: T, k: int) -> bool {
    &&& 0 <= k <= s.len()
    &&& forall|m: int| 0 <= m < k ==> #[trigger] s[m].spec_rank() > el.spec_rank()
    &&& k == s.len() || s[k].spec_rank() <= el.spec_rank()
}

/// `s` after offering `el` to a list of capacity `cap` at position `k`:
/// unchanged when `k` is not below the capacity, else `el` inserted there
/// and the last entry dropped when the list would overflow.
pub open spec fn offered<T>(s: Seq<T>, el: T, cap: int, k: int) -> Seq<T> {
    if k >= cap {
        s
    } else if s.len() + 1 > cap {
        s.insert(k, el).drop_last()
    } else {
        s.insert(k, el)
    }
}

/// At most `capacity` entries, sorted by rank, largest first; an entry is
/// kept only while fewer than `capacity` entries rank above it.
pub struct ConstrainedSortedList<T> {
    size: usize,
    capacity: usize,
    list: Vec<T>,
}

impl<T: Ranked + Copy> ConstrainedSortedList<T> {
    /// At most `capacity` entries, sorted by rank.
    pub open spec fn wf(&self) -> bool {
        &&& self.spec_entries().len() <= self.spec_capacity()
        &&& sorted_by_rank(self.spec_entries())
        &&& self.size_matches()
    }

    pub closed spec fn size_matches(&self) -> bool {
        self.size == self.list@.len()
    }

    pub closed spec fn spec_capacity(&self) -> nat {
        self.capacity as nat
    }

    pub closed spec fn spec_entries(&self) -> Seq<T> {
        self.list@
    }

    pub fn new(capacity: usize) -> (r: ConstrainedSortedList<T>)
        ensures
            r.wf(),
            r.spec_capacity() == capacity,
            r.spec_entries() == Seq::<T>::empty(),
    {
        ConstrainedSortedList { capacity, size: 0, list: Vec::new() }
    }

    /// The entries, largest rank first.
    pub fn entries(&self) -> (r: &Vec<T>)
        ensures
            r@ == self.spec_entries(),
    {
        &self.list
    }

    /// Iterates over the entries, largest rank first.
    pub fn iter(&self) -> (r: std::slice::Iter<'_, T>)
        ensures
            vstd::std_specs::iter::IteratorSpec::remaining(&r) == self.spec_entries().as_ref(),
    {
        self.list.iter()
    }

    /// Offers `el`: it goes before the first entry whose rank is not larger,
    /// provided that place lies within the capacity; the last entry leaves
    /// when the list is full.
    pub fn insert_maybe(&mut self, el: &T)
        requires
            old(self).wf(),
        ensures
            final(self).wf(),
            final(self).spec_capacity() == old(self).spec_capacity(),
            exists|k: int|
                insert_position(old(self).spec_entries(), *el, k) && final(self).spec_entries()
                    == offered(
                    old(self).spec_entries(),
                    *el,
                    old(self).spec_capacity() as int,
                    k,
                ),
    {
        let ghost s = self.list@;
        let r = el.rank();
        let mut k: usize = 0;
        while k < self.capacity && k < self.list.len()
            invariant
                self.list@ == s,
                self.wf(),
                r == el.spec_rank(),
                k <= self.list@.len(),
                k <= self.spec_capacity(),
                forall|m: int| 0 <= m < k ==> #[trigger] s[m].spec_rank() > el.spec_rank(),
            ensures
                self.list@ == s,
                self.wf(),
                k <= s.len(),
                forall|m: int| 0 <= m < k ==> #[trigger] s[m].spec_rank() > el.spec_rank(),
                k == s.len() || k == self.spec_capacity() || s[k as int].spec_rank()
                    <= el.spec_rank(),
            decreases self.capacity - k,
        {
            let here = self.list[k].rank();
            if here <= r {
                break;
            }
            k = k + 1;
        }
        assert(insert_position(s, *el, k as int));
        if k >= self.capacity {
            return;
        }
        self.list.insert(k, *el);
        if self.size == self.capacity {
            self.list.pop();
        } else {
            self.size = self.size + 1;
        }
        proof {
            let t = self.list@;
            assert forall|a: int, b: int| 0 <= a < b < t.len() implies t[a].spec_rank()
                >= t[b].spec_rank() by {
                if a < k && b == k {
                } else if a == k && b > k {
                    assert(t[b] == s[b - 1]);
                }
            }
        }
    }
}

} // verus!
