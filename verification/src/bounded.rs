//! Fixed-capacity storage: a bounded list and a bounded text.
//!
//! Both rest on `heapless`, whose types are declared here and whose methods get their contracts
//! here; everything else in the crate goes through [`List`] and [`Text`].

use vstd::prelude::*;
use vstd::utf8;

verus! {

/// `heapless::Vec`, a vector that holds at most `N` elements in place.
#[verifier::external_type_specification]
#[verifier::external_body]
#[verifier::reject_recursive_types(T)]
pub struct ExHeaplessVec<T, const N: usize>(heapless::Vec<T, N>);

/// The elements of a `heapless::Vec`, first to last: what its `as_slice` hands back.
pub open spec fn elements<T, const N: usize>(v: heapless::Vec<T, N>) -> Seq<T> {
    (choose|s: &[T]| call_ensures(heapless::Vec::<T, N>::as_slice, (&v,), s))@
}

/// `heapless::Vec::new`: an empty vector.
pub assume_specification<T, const N: usize>[ heapless::Vec::<T, N>::new ]() -> (v: heapless::Vec<T, N>)
    ensures
        elements(v) == Seq::<T>::empty(),
;

/// `heapless::Vec::as_slice`: a slice of the elements, never longer than the capacity. [`elements`]
/// names what it holds; [`slice_of`] is the call.
pub assume_specification<T, const N: usize>[ heapless::Vec::<T, N>::as_slice ](
    v: &heapless::Vec<T, N>,
) -> (s: &[T])
    ensures
        s@.len() <= N,
;

/// `heapless::Vec::as_slice` once more, with its result under its name: the same vector gives the
/// same elements each time.
#[verifier::external_body]
fn slice_of<T, const N: usize>(v: &heapless::Vec<T, N>) -> (s: &[T])
    ensures
        s@ == elements(*v),
        s@.len() <= N,
{
    v.as_slice()
}

/// `heapless::Vec::push`: appends the item unless the vector is full, and hands it back then.
pub assume_specification<T, const N: usize>[ heapless::Vec::<T, N>::push ](
    v: &mut heapless::Vec<T, N>,
    item: T,
) -> (r: Result<(), T>)
    ensures
        (r is Ok) == (elements(*old(v)).len() < N),
        (r is Ok) ==> elements(*final(v)) == elements(*old(v)).push(item),
        r matches Err(back) ==> back == item && elements(*final(v)) == elements(*old(v)),
;

/// `heapless::Vec::remove`: takes one element out and closes the gap; it panics past the end.
pub assume_specification<T, const N: usize>[ heapless::Vec::<T, N>::remove ](
    v: &mut heapless::Vec<T, N>,
    index: usize,
) -> (item: T)
    requires
        index < elements(*old(v)).len(),
    ensures
        item == elements(*old(v))[index as int],
        elements(*final(v)) == elements(*old(v)).remove(index as int),
;

/// `heapless::Vec::insert`: puts an element in at a position unless the vector is full, and hands it
/// back then; it panics past the end.
pub assume_specification<T, const N: usize>[ heapless::Vec::<T, N>::insert ](
    v: &mut heapless::Vec<T, N>,
    index: usize,
    element: T,
) -> (r: Result<(), T>)
    requires
        index <= elements(*old(v)).len(),
    ensures
        (r is Ok) == (elements(*old(v)).len() < N),
        (r is Ok) ==> elements(*final(v)) == elements(*old(v)).insert(index as int, element),
        r matches Err(back) ==> back == element && elements(*final(v)) == elements(*old(v)),
;

/// `heapless::Vec::clear`: removes every element.
pub assume_specification<T, const N: usize>[ heapless::Vec::<T, N>::clear ](
    v: &mut heapless::Vec<T, N>,
)
    ensures
        elements(*final(v)) == Seq::<T>::empty(),
;

/// `heapless::String`, a text of at most `N` octets in place.
#[verifier::external_type_specification]
#[verifier::external_body]
pub struct ExHeaplessString<const N: usize>(heapless::String<N>);

/// The characters of a `heapless::String`: what its `as_str` hands back.
pub open spec fn characters<const N: usize>(t: heapless::String<N>) -> Seq<char> {
    (choose|s: &str| call_ensures(heapless::String::<N>::as_str, (&t,), s))@
}

/// `heapless::String::new`: an empty text.
pub assume_specification<const N: usize>[ heapless::String::<N>::new ]() -> (t: heapless::String<N>)
    ensures
        characters(t) == Seq::<char>::empty(),
;

/// `heapless::String::as_str`: a view of the text. [`characters`] names what it holds;
/// [`text_of`] is the call.
pub assume_specification<const N: usize>[ heapless::String::<N>::as_str ](
    t: &heapless::String<N>,
) -> (s: &str)
    ensures
        utf8::encode_utf8(s@).len() <= N,
;

/// `heapless::String::as_str` once more, with its result under its name: the same text gives the
/// same characters each time.
#[verifier::external_body]
fn text_of<const N: usize>(t: &heapless::String<N>) -> (s: &str)
    ensures
        s@ == characters(*t),
        utf8::encode_utf8(s@).len() <= N,
{
    t.as_str()
}

/// `heapless::String::push_str`: appends a text whose octets fit, and otherwise changes nothing.
pub assume_specification<const N: usize>[ heapless::String::<N>::push_str ](
    t: &mut heapless::String<N>,
    string: &str,
) -> (r: Result<(), ()>)
    ensures
        (r is Ok) == (utf8::encode_utf8(characters(*old(t))).len() + utf8::encode_utf8(string@).len() <= N),
        (r is Ok) ==> characters(*final(t)) == characters(*old(t)) + string@,
        (r is Err) ==> characters(*final(t)) == characters(*old(t)),
;

/// The first position from `i` on at which `p` holds.
pub open spec fn first_from<T>(s: Seq<T>, p: spec_fn(T) -> bool, i: int) -> Option<int>
    decreases s.len() - i,
{
    if i < 0 || i >= s.len() {
        None
    } else if p(s[i]) {
        Some(i)
    } else {
        first_from(s, p, i + 1)
    }
}

/// The first position at which `p` holds.
pub open spec fn first<T>(s: Seq<T>, p: spec_fn(T) -> bool) -> Option<int> {
    first_from(s, p, 0)
}

/// How many items `p` holds of.
pub open spec fn count<T>(s: Seq<T>, p: spec_fn(T) -> bool) -> nat {
    s.filter(p).len()
}

/// [`first_from`] finds a position where there is one, and the least.
pub proof fn lemma_first_from<T>(s: Seq<T>, p: spec_fn(T) -> bool, i: int)
    requires
        0 <= i,
    ensures
        match first_from(s, p, i) {
            Some(k) => i <= k < s.len() && p(s[k]) && forall|j: int| i <= j < k ==> !p(#[trigger] s[j]),
            None => forall|j: int| i <= j < s.len() ==> !p(#[trigger] s[j]),
        },
    decreases s.len() - i,
{
    if i < s.len() && !p(s[i]) {
        lemma_first_from(s, p, i + 1);
    }
}

/// [`first`] finds a position where there is one, and the least.
pub proof fn lemma_first<T>(s: Seq<T>, p: spec_fn(T) -> bool)
    ensures
        match first(s, p) {
            Some(k) => 0 <= k < s.len() && p(s[k]) && forall|j: int| 0 <= j < k ==> !p(#[trigger] s[j]),
            None => forall|j: int| 0 <= j < s.len() ==> !p(#[trigger] s[j]),
        },
{
    lemma_first_from(s, p, 0);
}

/// Filtering one item more.
pub proof fn lemma_filter_push<T>(s: Seq<T>, x: T, p: spec_fn(T) -> bool)
    ensures
        s.push(x).filter(p) == (if p(x) { s.filter(p).push(x) } else { s.filter(p) }),
{
    reveal(Seq::filter);
    assert(s.push(x).drop_last() =~= s);
}

/// Filtering the first `i + 1` items.
pub proof fn lemma_filter_take<T>(s: Seq<T>, i: int, p: spec_fn(T) -> bool)
    requires
        0 <= i < s.len(),
    ensures
        s.take(i + 1).filter(p) == (if p(s[i]) { s.take(i).filter(p).push(s[i]) } else { s.take(i).filter(p) }),
{
    assert(s.take(i + 1) =~= s.take(i).push(s[i]));
    lemma_filter_push(s.take(i), s[i], p);
}

/// What a filter keeps: at most all, only what `p` holds of, and each such item.
pub proof fn lemma_filter<T>(s: Seq<T>, p: spec_fn(T) -> bool)
    ensures
        s.filter(p).len() <= s.len(),
        forall|i: int| 0 <= i < s.filter(p).len() ==> p(#[trigger] s.filter(p)[i]),
        forall|x: T| #[trigger] s.filter(p).contains(x) <==> s.contains(x) && p(x),
    decreases s.len(),
{
    reveal(Seq::filter);
    if s.len() > 0 {
        let t = s.drop_last();
        lemma_filter(t, p);
        assert(s =~= t.push(s.last()));
        assert forall|x: T| #[trigger] s.filter(p).contains(x) <==> s.contains(x) && p(x) by {
            let f = t.filter(p);
            assert(f.contains(x) <==> t.contains(x) && p(x));
            if s.contains(x) && p(x) {
                let k = choose|k: int| 0 <= k < s.len() && s[k] == x;
                if k == s.len() - 1 {
                    assert(s.filter(p)[f.len() as int] == x);
                } else {
                    assert(t[k] == x);
                    let m = choose|m: int| 0 <= m < f.len() && f[m] == x;
                    assert(s.filter(p)[m] == x);
                }
            }
            if s.filter(p).contains(x) {
                let k = choose|k: int| 0 <= k < s.filter(p).len() && s.filter(p)[k] == x;
                if k < f.len() {
                    assert(f[k] == x);
                    let m = choose|m: int| 0 <= m < t.len() && t[m] == x;
                    assert(s[m] == x);
                } else {
                    assert(s[s.len() - 1] == x);
                }
            }
        }
    }
}

/// Whether no two items have the same key.
pub open spec fn distinct<T, K>(s: Seq<T>, key: spec_fn(T) -> K) -> bool {
    forall|i: int, j: int| 0 <= i < j < s.len() ==> key(#[trigger] s[i]) != key(#[trigger] s[j])
}

/// A filter keeps keys distinct.
pub proof fn lemma_distinct_filter<T, K>(s: Seq<T>, key: spec_fn(T) -> K, p: spec_fn(T) -> bool)
    requires
        distinct(s, key),
    ensures
        distinct(s.filter(p), key),
    decreases s.len(),
{
    reveal(Seq::filter);
    if s.len() > 0 {
        let t = s.drop_last();
        assert(distinct(t, key)) by {
            assert forall|i: int, j: int| 0 <= i < j < t.len() implies key(#[trigger] t[i]) != key(#[trigger] t[j]) by {
                assert(t[i] == s[i] && t[j] == s[j]);
            }
        }
        lemma_distinct_filter(t, key, p);
        lemma_filter(t, p);
        let f = t.filter(p);
        if p(s.last()) {
            assert forall|i: int, j: int| 0 <= i < j < f.push(s.last()).len() implies key(#[trigger] f.push(s.last())[i])
                != key(#[trigger] f.push(s.last())[j]) by {
                if j == f.len() {
                    assert(f.contains(f[i]));
                    assert(t.contains(f[i]));
                    let k = choose|k: int| 0 <= k < t.len() && t[k] == f[i];
                    assert(s[k] == f[i] && s[s.len() - 1] == s.last());
                }
            }
        }
    }
}

/// An item with a new key keeps keys distinct.
pub proof fn lemma_distinct_push<T, K>(s: Seq<T>, key: spec_fn(T) -> K, x: T)
    requires
        distinct(s, key),
        forall|i: int| 0 <= i < s.len() ==> key(#[trigger] s[i]) != key(x),
    ensures
        distinct(s.push(x), key),
{
}

/// What is found first is still found where a filter keeps it.
pub proof fn lemma_first_filter<T>(s: Seq<T>, p: spec_fn(T) -> bool, q: spec_fn(T) -> bool)
    requires
        first(s, p) is Some,
        forall|x: T| p(x) ==> #[trigger] q(x),
    ensures
        first(s.filter(q), p) is Some,
{
    lemma_first(s, p);
    lemma_first(s.filter(q), p);
    lemma_filter(s, q);
    let x = s[first(s, p)->0];
    assert(s.contains(x) && q(x));
    assert(s.filter(q).contains(x));
}

/// What is found first is still found with one item more.
pub proof fn lemma_first_push<T>(s: Seq<T>, p: spec_fn(T) -> bool, x: T)
    requires
        first(s, p) is Some,
    ensures
        first(s.push(x), p) is Some,
{
    lemma_first(s, p);
    lemma_first(s.push(x), p);
    let i = first(s, p)->0;
    assert(s.push(x)[i] == s[i]);
}

/// A filter that holds of everything keeps everything.
pub proof fn lemma_filter_all<T>(s: Seq<T>, p: spec_fn(T) -> bool)
    requires
        forall|i: int| 0 <= i < s.len() ==> p(#[trigger] s[i]),
    ensures
        s.filter(p) == s,
    decreases s.len(),
{
    reveal(Seq::filter);
    if s.len() > 0 {
        lemma_filter_all(s.drop_last(), p);
        assert(s.drop_last().push(s.last()) =~= s);
    }
}

/// A filter that holds of nothing keeps nothing.
pub proof fn lemma_filter_none<T>(s: Seq<T>, p: spec_fn(T) -> bool)
    requires
        forall|i: int| 0 <= i < s.len() ==> !p(#[trigger] s[i]),
    ensures
        s.filter(p) == Seq::<T>::empty(),
    decreases s.len(),
{
    reveal(Seq::filter);
    if s.len() > 0 {
        lemma_filter_none(s.drop_last(), p);
    }
}

/// Two filters one after the other keep what both hold of.
pub proof fn lemma_filter_filter<T>(s: Seq<T>, p: spec_fn(T) -> bool, q: spec_fn(T) -> bool, both: spec_fn(T) -> bool)
    requires
        forall|x: T| #[trigger] both(x) == (p(x) && q(x)),
    ensures
        s.filter(p).filter(q) == s.filter(both),
    decreases s.len(),
{
    reveal(Seq::filter);
    if s.len() > 0 {
        let t = s.drop_last();
        lemma_filter_filter(t, p, q, both);
        if p(s.last()) {
            lemma_filter_push(t.filter(p), s.last(), q);
        }
        assert(both(s.last()) == (p(s.last()) && q(s.last())));
    }
}

/// Replacing an item that a filter drops by another that it drops changes nothing.
pub proof fn lemma_filter_update<T>(s: Seq<T>, i: int, x: T, p: spec_fn(T) -> bool)
    requires
        0 <= i < s.len(),
        !p(s[i]),
        !p(x),
    ensures
        s.update(i, x).filter(p) == s.filter(p),
    decreases s.len(),
{
    reveal(Seq::filter);
    let t = s.drop_last();
    if i < t.len() {
        lemma_filter_update(t, i, x, p);
        assert(s.update(i, x).drop_last() =~= t.update(i, x));
    } else {
        assert(s.update(i, x).drop_last() =~= t);
    }
}

/// Replacing an item that a filter keeps by another that it keeps leaves the count.
pub proof fn lemma_count_update<T>(s: Seq<T>, i: int, x: T, p: spec_fn(T) -> bool)
    requires
        0 <= i < s.len(),
        p(s[i]),
        p(x),
    ensures
        s.update(i, x).filter(p).len() == s.filter(p).len(),
    decreases s.len(),
{
    reveal(Seq::filter);
    let t = s.drop_last();
    if i < t.len() {
        lemma_count_update(t, i, x, p);
        assert(s.update(i, x).drop_last() =~= t.update(i, x));
    } else {
        assert(s.update(i, x).drop_last() =~= t);
    }
}

/// Removing an item that a filter drops changes nothing.
pub proof fn lemma_filter_remove<T>(s: Seq<T>, i: int, p: spec_fn(T) -> bool)
    requires
        0 <= i < s.len(),
        !p(s[i]),
    ensures
        s.remove(i).filter(p) == s.filter(p),
    decreases s.len(),
{
    reveal(Seq::filter);
    let t = s.drop_last();
    if i < t.len() {
        lemma_filter_remove(t, i, p);
        assert(s.remove(i).drop_last() =~= t.remove(i));
    } else {
        assert(s.remove(i) =~= t);
    }
}

/// A list of at most `N` items, kept in the order in which they were added.
#[verifier::reject_recursive_types(T)]
pub struct List<T, const N: usize> {
    items: heapless::Vec<T, N>,
}

impl<T, const N: usize> View for List<T, N> {
    type V = Seq<T>;

    closed spec fn view(&self) -> Seq<T> {
        elements(self.items)
    }
}

impl<T, const N: usize> List<T, N> {
    /// An empty list.
    pub fn new() -> (list: Self)
        ensures
            list@ == Seq::<T>::empty(),
    {
        List { items: heapless::Vec::new() }
    }

    /// How many items there are.
    pub fn len(&self) -> (n: usize)
        ensures
            n == self@.len(),
            n <= N,
    {
        slice_of(&self.items).len()
    }

    /// Whether there is no item.
    pub fn is_empty(&self) -> (empty: bool)
        ensures
            empty == (self@.len() == 0),
    {
        slice_of(&self.items).len() == 0
    }

    /// Whether no item fits any more.
    pub fn is_full(&self) -> (full: bool)
        ensures
            full == (self@.len() >= N),
    {
        slice_of(&self.items).len() >= N
    }

    /// Every item, in order.
    pub fn as_slice(&self) -> (items: &[T])
        ensures
            items@ == self@,
            items@.len() <= N,
    {
        slice_of(&self.items)
    }

    /// The item at a position.
    pub fn get(&self, i: usize) -> (item: &T)
        requires
            i < self@.len(),
        ensures
            *item == self@[i as int],
    {
        &slice_of(&self.items)[i]
    }

    /// Adds an item at the end; `false` where the list is full, which leaves it as it was.
    pub fn push(&mut self, item: T) -> (added: bool)
        ensures
            added == (old(self)@.len() < N),
            final(self)@ == (if added { old(self)@.push(item) } else { old(self)@ }),
    {
        match self.items.push(item) {
            Ok(_) => true,
            Err(_) => false,
        }
    }

    /// Takes the item at a position out; those behind it move up.
    pub fn remove(&mut self, i: usize) -> (item: T)
        requires
            i < old(self)@.len(),
        ensures
            item == old(self)@[i as int],
            final(self)@ == old(self)@.remove(i as int),
    {
        self.items.remove(i)
    }

    /// Replaces the item at a position.
    pub fn set(&mut self, i: usize, item: T)
        requires
            i < old(self)@.len(),
        ensures
            final(self)@ == old(self)@.update(i as int, item),
    {
        let _ = self.len();
        let _ = self.items.remove(i);
        let _ = self.items.insert(i, item);
        proof {
            assert(self@ =~= old(self)@.update(i as int, item));
        }
    }

    /// Removes every item.
    pub fn clear(&mut self)
        ensures
            final(self)@ == Seq::<T>::empty(),
    {
        self.items.clear();
    }

    /// Adds an item at the end, giving up the oldest where the list is full.
    pub fn push_newest(&mut self, item: T)
        ensures
            final(self)@ == newest(old(self)@, item, N as nat),
    {
        let length: usize = self.len();
        if length >= N {
            if length == 0 {
                return ;
            }
            let _ = self.remove(0);
        }
        let _ = self.push(item);
        proof {
            assert(self@ =~= newest(old(self)@, item, N as nat));
        }
    }

    /// The first position at which `f`, which decides `p`, says yes.
    pub(crate) fn position<F: Fn(&T) -> bool>(&self, f: F, Ghost(p): Ghost<spec_fn(T) -> bool>) -> (at: Option<usize>)
        requires
            forall|x: &T| call_requires(f, (x,)),
            forall|x: &T, b: bool| call_ensures(f, (x,), b) ==> b == p(*x),
        ensures
            match at {
                Some(i) => first(self@, p) == Some(i as int) && i < self@.len() && p(self@[i as int]),
                None => first(self@, p) is None,
            },
    {
        let items: &[T] = self.as_slice();
        let mut i: usize = 0;
        while i < items.len()
            invariant
                i <= items@.len(),
                items@ == self@,
                first(self@, p) == first_from(self@, p, i as int),
                forall|x: &T| call_requires(f, (x,)),
                forall|x: &T, b: bool| call_ensures(f, (x,), b) ==> b == p(*x),
            decreases items.len() - i,
        {
            if f(&items[i]) {
                return Some(i);
            }
            i = i + 1;
        }
        None
    }

    /// How many items `f`, which decides `p`, says yes of.
    pub(crate) fn count<F: Fn(&T) -> bool>(&self, f: F, Ghost(p): Ghost<spec_fn(T) -> bool>) -> (n: usize)
        requires
            forall|x: &T| call_requires(f, (x,)),
            forall|x: &T, b: bool| call_ensures(f, (x,), b) ==> b == p(*x),
        ensures
            n == count(self@, p),
            n <= self@.len(),
    {
        let items: &[T] = self.as_slice();
        let mut i: usize = 0;
        let mut n: usize = 0;
        proof {
            reveal(Seq::filter);
            assert(self@.take(0) =~= Seq::<T>::empty());
        }
        while i < items.len()
            invariant
                n <= i <= items@.len(),
                items@ == self@,
                n == self@.take(i as int).filter(p).len(),
                forall|x: &T| call_requires(f, (x,)),
                forall|x: &T, b: bool| call_ensures(f, (x,), b) ==> b == p(*x),
            decreases items.len() - i,
        {
            proof {
                lemma_filter_take(self@, i as int, p);
            }
            if f(&items[i]) {
                n = n + 1;
            }
            i = i + 1;
        }
        proof {
            assert(self@.take(i as int) =~= self@);
        }
        n
    }

    /// Keeps the items `f`, which decides `p`, says yes of, in their order.
    pub(crate) fn retain<F: Fn(&T) -> bool>(&mut self, f: F, Ghost(p): Ghost<spec_fn(T) -> bool>)
        requires
            forall|x: &T| call_requires(f, (x,)),
            forall|x: &T, b: bool| call_ensures(f, (x,), b) ==> b == p(*x),
        ensures
            final(self)@ == old(self)@.filter(p),
    {
        let ghost whole = self@;
        let mut i: usize = 0;
        let ghost mut seen: int = 0;
        proof {
            reveal(Seq::filter);
            assert(whole.take(0) =~= Seq::<T>::empty());
        }
        let mut length: usize = self.len();
        while i < length
            invariant
                length == self@.len(),
                0 <= i <= length,
                0 <= seen <= whole.len(),
                self@.len() - i == whole.len() - seen,
                self@.take(i as int) == whole.take(seen).filter(p),
                self@.skip(i as int) == whole.skip(seen),
                forall|x: &T| call_requires(f, (x,)),
                forall|x: &T, b: bool| call_ensures(f, (x,), b) ==> b == p(*x),
            decreases length - i,
        {
            let ghost before = self@;
            proof {
                lemma_filter_take(whole, seen, p);
                assert(before.skip(i as int)[0] == before[i as int]);
                assert(whole.skip(seen)[0] == whole[seen]);
                assert(before[i as int] == whole[seen]);
                assert(whole.skip(seen).skip(1) =~= whole.skip(seen + 1));
                assert(before.skip(i as int).skip(1) =~= before.skip(i + 1));
            }
            if f(self.get(i)) {
                proof {
                    assert(before.take(i + 1) =~= before.take(i as int).push(before[i as int]));
                }
                i = i + 1;
            } else {
                let _ = self.remove(i);
                length = length - 1;
                proof {
                    assert(self@.take(i as int) =~= before.take(i as int));
                    assert(self@.skip(i as int) =~= before.skip(i + 1));
                }
            }
            proof {
                seen = seen + 1;
            }
        }
        proof {
            assert(self@.take(i as int) =~= self@);
            assert(whole.take(seen) =~= whole);
        }
    }
}

impl<T: Copy, const N: usize> List<T, N> {
    /// Hands the items out and leaves the list empty.
    pub fn take(&mut self) -> (items: Vec<T>)
        ensures
            items@ == old(self)@,
            final(self)@ == Seq::<T>::empty(),
    {
        let mut items: Vec<T> = Vec::new();
        let length: usize = self.len();
        let mut i: usize = 0;
        while i < length
            invariant
                i <= length == self@.len(),
                self@ == old(self)@,
                items@ == self@.take(i as int),
            decreases length - i,
        {
            proof {
                assert(self@.take(i + 1) =~= self@.take(i as int).push(self@[i as int]));
            }
            items.push(*self.get(i));
            i = i + 1;
        }
        proof {
            assert(self@.take(i as int) =~= self@);
        }
        self.clear();
        items
    }
}

impl<T: Copy, const N: usize> List<T, N> {
    /// Another list of the same items.
    pub fn copy(&self) -> (list: Self)
        ensures
            list@ == self@,
    {
        let items: &[T] = self.as_slice();
        let mut list: List<T, N> = List::new();
        let mut i: usize = 0;
        while i < items.len()
            invariant
                i <= items@.len() <= N,
                list@ == items@.take(i as int),
            decreases items.len() - i,
        {
            let _ = list.push(items[i]);
            i = i + 1;
            proof {
                assert(items@.take(i as int) =~= items@.take(i - 1).push(items@[i - 1]));
            }
        }
        proof {
            assert(items@.take(i as int) =~= items@);
        }
        list
    }
}

/// The items of a sequence, each by what it stands for.
pub open spec fn models<T: View>(s: Seq<T>) -> Seq<T::V> {
    s.map_values(|x: T| x@)
}

/// A test of what an item stands for, as a test of the item.
pub open spec fn through<T: View>(p: spec_fn(T::V) -> bool) -> spec_fn(T) -> bool {
    |x: T| p(x@)
}

/// The first item that passes a test of what it stands for is where the first such model is.
pub proof fn lemma_first_models<T: View>(s: Seq<T>, p: spec_fn(T::V) -> bool, i: int)
    requires
        0 <= i,
    ensures
        first_from(models(s), p, i) == first_from(s, through::<T>(p), i),
    decreases s.len() - i,
{
    if i < s.len() {
        lemma_first_models(s, p, i + 1);
    }
}

/// Filtering by what items stand for filters what they stand for.
pub proof fn lemma_filter_models<T: View>(s: Seq<T>, p: spec_fn(T::V) -> bool)
    ensures
        models(s.filter(through::<T>(p))) == models(s).filter(p),
    decreases s.len(),
{
    reveal(Seq::filter);
    if s.len() > 0 {
        let t = s.drop_last();
        lemma_filter_models(t, p);
        assert(models(s).drop_last() =~= models(t));
        assert(models(s).last() == s.last()@);
        if p(s.last()@) {
            assert(models(t.filter(through::<T>(p)).push(s.last())) =~= models(t.filter(through::<T>(p))).push(
                s.last()@,
            ));
        }
    } else {
        assert(models(s) =~= Seq::<T::V>::empty());
        assert(models(s.filter(through::<T>(p))) =~= models(s).filter(p));
    }
}

impl<T: View, const N: usize> List<T, N> {
    /// What the items stand for, in order.
    pub open spec fn models(&self) -> Seq<T::V> {
        models(self@)
    }

    /// Adds an item at the end where there is room.
    pub fn add(&mut self, item: T) -> (added: bool)
        ensures
            added == (old(self).models().len() < N),
            final(self).models() == (if added { old(self).models().push(item@) } else { old(self).models() }),
    {
        let added: bool = self.push(item);
        proof {
            if added {
                assert(models(old(self)@.push(item)) =~= models(old(self)@).push(item@));
            }
        }
        added
    }

    /// Replaces the item at a position.
    pub fn replace(&mut self, i: usize, item: T)
        requires
            i < old(self).models().len(),
        ensures
            final(self).models() == old(self).models().update(i as int, item@),
    {
        self.set(i, item);
        proof {
            assert(models(self@) =~= models(old(self)@).update(i as int, item@));
        }
    }

    /// Takes the item at a position out.
    pub fn take_out(&mut self, i: usize)
        requires
            i < old(self).models().len(),
        ensures
            final(self).models() == old(self).models().remove(i as int),
    {
        let _ = self.remove(i);
        proof {
            assert(models(self@) =~= models(old(self)@).remove(i as int));
        }
    }

    /// Removes every item.
    pub fn empty(&mut self)
        ensures
            final(self).models() == Seq::<T::V>::empty(),
    {
        self.clear();
        proof {
            assert(models(self@) =~= Seq::<T::V>::empty());
        }
    }

    /// Adds an item at the end, giving up the oldest where the list is full.
    pub fn record(&mut self, item: T)
        ensures
            final(self).models() == newest(old(self).models(), item@, N as nat),
    {
        self.push_newest(item);
        proof {
            assert(models(self@) =~= newest(models(old(self)@), item@, N as nat));
        }
    }

    /// The first item that `f`, which decides `p` of what it stands for, says yes of.
    pub(crate) fn find<F: Fn(&T) -> bool>(&self, f: F, Ghost(p): Ghost<spec_fn(T::V) -> bool>) -> (at: Option<usize>)
        requires
            forall|x: &T| call_requires(f, (x,)),
            forall|x: &T, b: bool| call_ensures(f, (x,), b) ==> b == p(x@),
        ensures
            match at {
                Some(i) => first(self.models(), p) == Some(i as int) && i < self.models().len() && p(
                    self.models()[i as int],
                ),
                None => first(self.models(), p) is None,
            },
    {
        proof {
            lemma_first_models(self@, p, 0);
        }
        self.position(f, Ghost(through::<T>(p)))
    }

    /// How many items `f`, which decides `p` of what they stand for, says yes of.
    pub(crate) fn tally<F: Fn(&T) -> bool>(&self, f: F, Ghost(p): Ghost<spec_fn(T::V) -> bool>) -> (n: usize)
        requires
            forall|x: &T| call_requires(f, (x,)),
            forall|x: &T, b: bool| call_ensures(f, (x,), b) ==> b == p(x@),
        ensures
            n == count(self.models(), p),
            n <= self.models().len(),
    {
        proof {
            lemma_filter_models(self@, p);
        }
        self.count(f, Ghost(through::<T>(p)))
    }

    /// Keeps the items `f`, which decides `p` of what they stand for, says yes of.
    pub(crate) fn keep<F: Fn(&T) -> bool>(&mut self, f: F, Ghost(p): Ghost<spec_fn(T::V) -> bool>)
        requires
            forall|x: &T| call_requires(f, (x,)),
            forall|x: &T, b: bool| call_ensures(f, (x,), b) ==> b == p(x@),
        ensures
            final(self).models() == old(self).models().filter(p),
    {
        proof {
            lemma_filter_models(self@, p);
        }
        self.retain(f, Ghost(through::<T>(p)));
    }
}

/// The first `n` items, or all where there are fewer.
pub open spec fn leading<A>(s: Seq<A>, n: nat) -> Seq<A> {
    if s.len() <= n {
        s
    } else {
        s.take(n as int)
    }
}

/// A list of at most `n` items after one more came: the oldest gives way where there was no room.
pub open spec fn newest<T>(s: Seq<T>, item: T, n: nat) -> Seq<T> {
    if s.len() < n {
        s.push(item)
    } else if s.len() == 0 {
        s
    } else {
        s.remove(0).push(item)
    }
}

/// A bounded list of the newest items never outgrows its bound, and ends in the item that came.
pub proof fn law_newest_is_bounded<T>(s: Seq<T>, item: T, n: nat)
    requires
        s.len() <= n,
    ensures
        newest(s, item, n).len() <= n,
        n > 0 ==> newest(s, item, n).last() == item,
{
}

/// How many octets a text takes.
pub fn octet_length(s: &str) -> (n: usize)
    ensures
        n == utf8::encode_utf8(s@).len(),
{
    s.as_bytes().len()
}

/// A text of at most `N` octets.
pub struct Text<const N: usize> {
    inner: heapless::String<N>,
}

impl<const N: usize> View for Text<N> {
    type V = Seq<char>;

    closed spec fn view(&self) -> Seq<char> {
        characters(self.inner)
    }
}

impl<const N: usize> Text<N> {
    /// The empty text.
    pub fn new() -> (text: Self)
        ensures
            text@ == Seq::<char>::empty(),
    {
        Text { inner: heapless::String::new() }
    }

    /// A copy of `s`, or `None` where its octets do not fit.
    pub fn copy_of(s: &str) -> (text: Option<Self>)
        ensures
            match text {
                Some(t) => t@ == s@ && utf8::encode_utf8(s@).len() <= N,
                None => utf8::encode_utf8(s@).len() > N,
            },
    {
        let mut inner: heapless::String<N> = heapless::String::new();
        match inner.push_str(s) {
            Ok(_) => {
                proof {
                    assert(Seq::<char>::empty() + s@ =~= s@);
                }
                Some(Text { inner })
            },
            Err(_) => None,
        }
    }

    /// The text.
    pub fn as_str(&self) -> (s: &str)
        ensures
            s@ == self@,
            utf8::encode_utf8(s@).len() <= N,
    {
        text_of(&self.inner)
    }
}

} // verus!
