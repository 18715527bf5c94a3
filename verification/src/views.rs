//! The mathematical models of collections whose items have models of their
//! own.

use vstd::prelude::*;

verus! {

/// The models of the items of `s`, in order.
pub open spec fn views<T: View>(s: Seq<T>) -> Seq<T::V> {
    Seq::new(s.len(), |i: int| s[i]@)
}

/// The model of what `o` holds, if it holds anything.
pub open spec fn option_view<T: View>(o: Option<T>) -> Option<T::V> {
    match o {
        Some(t) => Some(t@),
        None => None,
    }
}

/// A copy of the texts of `v`.
pub fn clone_texts(v: &Vec<String>) -> (r: Vec<String>)
    ensures
        views(r@) == views(v@),
{
    let mut r: Vec<String> = Vec::new();
    let mut i: usize = 0;
    while i < v.len()
        invariant
            i <= v.len(),
            r.len() == i,
            forall|j: int| 0 <= j < i ==> r[j]@ == v[j]@,
        decreases v.len() - i,
    {
        r.push(v[i].clone());
        i = i + 1;
    }
    assert(views(r@) =~= views(v@));
    r
}

/// A copy of the text that `o` holds, if it holds one.
pub fn clone_optional_text(o: &Option<String>) -> (r: Option<String>)
    ensures
        option_view(r) == option_view(*o),
{
    match o {
        Some(s) => Some(s.clone()),
        None => None,
    }
}

/// The first index below `n` at which `s` holds `x`.
pub open spec fn index_below<T>(s: Seq<T>, x: T, n: int) -> Option<int>
    decreases n,
{
    if n <= 0 {
        None
    } else {
        match index_below(s, x, n - 1) {
            Some(i) => Some(i),
            None => if s[n - 1] == x {
                Some(n - 1)
            } else {
                None
            },
        }
    }
}

/// The first index at which `s` holds `x`.
pub open spec fn index_of<T>(s: Seq<T>, x: T) -> Option<int> {
    index_below(s, x, s.len() as int)
}

/// Whether `s` holds `x` below the index `n`.
pub open spec fn occurs_below<T>(s: Seq<T>, x: T, n: int) -> bool {
    exists|k: int| 0 <= k < n && s[k] == x
}

/// The first index below `n` whose item occurs at a smaller index too.
pub open spec fn repeat_below<T>(s: Seq<T>, n: int) -> Option<int>
    decreases n,
{
    if n <= 0 {
        None
    } else {
        match repeat_below(s, n - 1) {
            Some(i) => Some(i),
            None => if occurs_below(s, s[n - 1], n - 1) {
                Some(n - 1)
            } else {
                None
            },
        }
    }
}

/// The first index whose item occurs at a smaller index too.
pub open spec fn first_repeat<T>(s: Seq<T>) -> Option<int> {
    repeat_below(s, s.len() as int)
}

/// Whether no item of `s` occurs twice.
pub open spec fn distinct<T>(s: Seq<T>) -> bool {
    forall|i: int, j: int| 0 <= i < j < s.len() ==> s[i] != s[j]
}

/// What `index_below` finds is the least index that holds `x`, and it
/// finds nothing only where `x` does not occur below `n`.
pub proof fn lemma_index_below<T>(s: Seq<T>, x: T, n: int)
    ensures
        match index_below(s, x, n) {
            Some(i) => 0 <= i < n && s[i] == x && forall|j: int| 0 <= j < i ==> s[j] != x,
            None => forall|j: int| 0 <= j < n ==> s[j] != x,
        },
    decreases n,
{
    if n > 0 {
        lemma_index_below(s, x, n - 1);
    }
}

/// What `index_of` finds is the least index that holds `x`, and it finds
/// nothing only where `x` does not occur.
pub proof fn lemma_index_of<T>(s: Seq<T>, x: T)
    ensures
        match index_of(s, x) {
            Some(i) => 0 <= i < s.len() && s[i] == x && forall|j: int| 0 <= j < i ==> s[j] != x,
            None => forall|j: int| 0 <= j < s.len() ==> s[j] != x,
        },
{
    lemma_index_below(s, x, s.len() as int);
}

/// What `repeat_below` finds is the least index whose item occurs before
/// it, and it finds nothing only where the items below `n` are distinct.
pub proof fn lemma_repeat_below<T>(s: Seq<T>, n: int)
    ensures
        match repeat_below(s, n) {
            Some(i) => 0 <= i < n && occurs_below(s, s[i], i) && forall|j: int|
                0 <= j < i ==> !occurs_below(s, #[trigger] s[j], j),
            None => forall|j: int| 0 <= j < n ==> !occurs_below(s, #[trigger] s[j], j),
        },
    decreases n,
{
    if n > 0 {
        lemma_repeat_below(s, n - 1);
    }
}

/// A sequence has no repeated item if and only if its items are distinct.
pub proof fn lemma_first_repeat<T>(s: Seq<T>)
    ensures
        first_repeat(s) is None <==> distinct(s),
{
    lemma_repeat_below(s, s.len() as int);
    if first_repeat(s) is None {
        assert forall|i: int, j: int| 0 <= i < j < s.len() implies s[i] != s[j] by {
            assert(!occurs_below(s, s[j], j));
        }
    } else {
        let i = first_repeat(s)->0;
        let k = choose|k: int| 0 <= k < i && s[k] == s[i];
        assert(s[k] == s[i]);
    }
}

/// How many times `s` holds `x`.
pub open spec fn count<T>(s: Seq<T>, x: T) -> nat
    decreases s.len(),
{
    if s.len() == 0 {
        0
    } else {
        count(s.drop_last(), x) + if s.last() == x {
            1nat
        } else {
            0nat
        }
    }
}

/// One more item is one more occurrence of that item and of no other.
pub proof fn lemma_count_push<T>(s: Seq<T>, y: T, x: T)
    ensures
        count(s.push(y), x) == count(s, x) + if y == x {
            1nat
        } else {
            0nat
        },
{
    assert(s.push(y).drop_last() =~= s);
}

/// A sequence holds an item if and only if it holds it at least once.
pub proof fn lemma_count_contains<T>(s: Seq<T>, x: T)
    ensures
        count(s, x) > 0 <==> s.contains(x),
    decreases s.len(),
{
    if s.len() > 0 {
        lemma_count_contains(s.drop_last(), x);
        if s.last() == x {
            assert(s[s.len() - 1] == x);
        } else if s.contains(x) {
            let i = choose|i: int| 0 <= i < s.len() && s[i] == x;
            assert(s.drop_last()[i] == x);
        } else if s.drop_last().contains(x) {
            let i = choose|i: int| 0 <= i < s.drop_last().len() && s.drop_last()[i] == x;
            assert(s[i] == x);
        }
    }
}

/// For each of the outcomes `results`, whether it is an error.
pub open spec fn errors<T>(results: Seq<Result<T, Seq<char>>>) -> Seq<bool> {
    Seq::new(results.len(), |i: int| results[i] is Err)
}

/// The outcomes `results` taken together: what they give, in order, where
/// none is an error, and else the first error.
pub open spec fn collect<T>(results: Seq<Result<T, Seq<char>>>) -> Result<Seq<T>, Seq<char>> {
    match index_of(errors(results), true) {
        Some(i) => Err(results[i]->Err_0),
        None => Ok(Seq::new(results.len(), |i: int| results[i]->Ok_0)),
    }
}

/// Outcomes of which the one at `i` is an error, and none before it, give
/// that error.
pub proof fn lemma_collect_err<T>(results: Seq<Result<T, Seq<char>>>, i: int)
    requires
        0 <= i < results.len(),
        results[i] is Err,
        forall|k: int| 0 <= k < i ==> (#[trigger] results[k]) is Ok,
    ensures
        collect(results) == Err::<Seq<T>, Seq<char>>(results[i]->Err_0),
{
    let all = errors(results);
    lemma_index_of(all, true);
    assert(all[i]);
    if index_of(all, true)->0 < i {
        assert(results[index_of(all, true)->0] is Ok);
    }
}

/// Outcomes that give the items of `items`, one by one, give `items`.
pub proof fn lemma_collect_ok<T>(results: Seq<Result<T, Seq<char>>>, items: Seq<T>)
    requires
        items.len() == results.len(),
        forall|k: int| 0 <= k < results.len() ==> #[trigger] results[k] == Ok::<T, Seq<char>>(items[k]),
    ensures
        collect(results) == Ok::<Seq<T>, Seq<char>>(items),
{
    let all = errors(results);
    lemma_index_of(all, true);
    if index_of(all, true) is Some {
        assert(results[index_of(all, true)->0] is Ok);
    }
    assert(Seq::new(results.len(), |i: int| results[i]->Ok_0) =~= items);
}

} // verus!
