//! Facts about filtered sequences.
use vstd::prelude::*;

verus! {

/// Taking out an element that a filter drops does not change what it keeps.
pub proof fn filter_without<A>(s: Seq<A>, i: int, p: spec_fn(A) -> bool)
    requires
        0 <= i < s.len(),
        !p(s[i]),
    ensures
        s.remove(i).filter(p) == s.filter(p),
{
    let front = s.take(i);
    let back = s.skip(i + 1);
    let one = seq![s[i]];
    assert(one.filter(p) =~= Seq::<A>::empty()) by {
        reveal(Seq::filter);
        assert(one.drop_last().len() == 0);
        assert(one.drop_last().filter(p).len() == 0);
    }
    assert(s =~= front + one + back);
    assert(s.remove(i) =~= front + back);
    Seq::filter_distributes_over_add(front, back, p);
    Seq::filter_distributes_over_add(front + one, back, p);
    Seq::filter_distributes_over_add(front, one, p);
    assert(front.filter(p) + Seq::<A>::empty() =~= front.filter(p));
}

/// A filter that keeps every element changes nothing.
pub proof fn filter_of_all<A>(s: Seq<A>, p: spec_fn(A) -> bool)
    requires
        forall|i: int| 0 <= i < s.len() ==> p(#[trigger] s[i]),
    ensures
        s.filter(p) == s,
    decreases s.len(),
{
    reveal(Seq::filter);
    if s.len() > 0 {
        let shorter = s.drop_last();
        assert forall|i: int| 0 <= i < shorter.len() implies p(#[trigger] shorter[i]) by {
            assert(p(s[i]));
        }
        filter_of_all(shorter, p);
        assert(p(s[s.len() - 1]));
        assert(shorter.push(s.last()) =~= s);
    }
}

/// What a filter keeps of one more element.
pub proof fn filter_one_more<A>(s: Seq<A>, i: int, p: spec_fn(A) -> bool)
    requires
        0 <= i < s.len(),
    ensures
        s.take(i + 1).filter(p) == if p(s[i]) {
            s.take(i).filter(p).push(s[i])
        } else {
            s.take(i).filter(p)
        },
{
    reveal(Seq::filter);
    assert(s.take(i + 1).drop_last() =~= s.take(i));
    assert(s.take(i + 1).last() == s[i]);
}

/// A filter keeps no more than there was, and only what was there and passes it.
pub proof fn filter_within<A>(s: Seq<A>, p: spec_fn(A) -> bool)
    ensures
        s.filter(p).len() <= s.len(),
        forall|i: int|
            0 <= i < s.filter(p).len() ==> p(#[trigger] s.filter(p)[i]) && s.contains(
                s.filter(p)[i],
            ),
    decreases s.len(),
{
    reveal(Seq::filter);
    if s.len() > 0 {
        let shorter = s.drop_last();
        filter_within(shorter, p);
        assert forall|i: int| 0 <= i < s.filter(p).len() implies p(#[trigger] s.filter(p)[i])
            && s.contains(s.filter(p)[i]) by {
            if i < shorter.filter(p).len() {
                let x = shorter.filter(p)[i];
                assert(s.filter(p)[i] == x);
                assert(shorter.contains(x));
                let k = choose|k: int| 0 <= k < shorter.len() && shorter[k] == x;
                assert(s[k] == x);
            } else {
                assert(s[s.len() - 1] == s.filter(p)[i]);
            }
        }
    }
}

/// A filter keeps what passes it.
pub proof fn filter_keeps<A>(s: Seq<A>, p: spec_fn(A) -> bool, i: int)
    requires
        0 <= i < s.len(),
        p(s[i]),
    ensures
        s.filter(p).contains(s[i]),
    decreases s.len(),
{
    reveal(Seq::filter);
    let shorter = s.drop_last();
    let whole = s.filter(p);
    if i < s.len() - 1 {
        filter_keeps(shorter, p, i);
        let part = shorter.filter(p);
        let k = choose|k: int| 0 <= k < part.len() && part[k] == s[i];
        assert(whole[k] == s[i]);
    } else {
        assert(whole[whole.len() - 1] == s[i]);
    }
}

/// Where exactly the first `n` elements pass a filter, it keeps exactly those.
pub proof fn filter_of_prefix<A>(s: Seq<A>, p: spec_fn(A) -> bool, n: int)
    requires
        0 <= n <= s.len(),
        forall|i: int| 0 <= i < n ==> p(#[trigger] s[i]),
        forall|i: int| n <= i < s.len() ==> !p(#[trigger] s[i]),
    ensures
        s.filter(p) == s.take(n),
{
    let front = s.take(n);
    let back = s.skip(n);
    assert(s =~= front + back);
    Seq::filter_distributes_over_add(front, back, p);
    filter_of_all(front, p);
    filter_within(back, p);
    assert(back.filter(p) =~= Seq::<A>::empty()) by {
        if back.filter(p).len() > 0 {
            let x = back.filter(p)[0];
            assert(back.contains(x));
            let k = choose|k: int| 0 <= k < back.len() && back[k] == x;
            assert(!p(s[n + k]));
        }
    }
    assert(front + Seq::<A>::empty() =~= front);
}

} // verus!
