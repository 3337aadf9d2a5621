//! Stable sorting of named records by name, as `slice::sort_by` with
//! `String::cmp` on the names orders them.
use vstd::prelude::*;
use crate::text::{
    lemma_text_le_antisymmetric,
    lemma_text_le_reflexive,
    lemma_text_le_total,
    lemma_text_le_transitive,
    text_le,
    text_le_exec,
};

verus! {

/// A record that is sorted by a name.
pub trait Named {
    /// The characters of the record's name.
    spec fn name_key(&self) -> Seq<char>;

    /// The record's name.
    fn sort_name(&self) -> (r: &String)
        ensures
            r@ == self.name_key(),
    ;
}

/// Names never decrease along `s`.
pub open spec fn sorted_by_name<T: Named>(s: Seq<T>) -> bool {
    forall|i: int, j: int|
        0 <= i < j < s.len() ==> text_le(#[trigger] s[i].name_key(), #[trigger] s[j].name_key())
}

/// Being a record named `k`.
pub open spec fn has_name<T: Named>(k: Seq<char>) -> spec_fn(T) -> bool {
    |x: T| x.name_key() == k
}

/// The records of `s` whose name is `k`, in their order in `s`.
pub open spec fn with_name<T: Named>(s: Seq<T>, k: Seq<char>) -> Seq<T> {
    s.filter(has_name(k))
}

/// `out` is `input` sorted by name, where records of equal name keep their
/// relative order (a stable sort). These two facts determine `out`
/// (`lemma_stable_sort_unique`).
pub open spec fn is_stable_sort_by_name<T: Named>(out: Seq<T>, input: Seq<T>) -> bool {
    &&& sorted_by_name(out)
    &&& forall|k: Seq<char>| #[trigger] with_name(out, k) == with_name(input, k)
}

/// The position after every record of `sorted` whose name is no later than `key`.
fn upper_bound<T: Named>(sorted: &Vec<T>, key: &String) -> (p: usize)
    requires
        sorted_by_name(sorted@),
    ensures
        p <= sorted@.len(),
        forall|i: int| 0 <= i < p ==> text_le(#[trigger] sorted@[i].name_key(), key@),
        forall|j: int| p <= j < sorted@.len() ==> !text_le(#[trigger] sorted@[j].name_key(), key@),
{
    let n = sorted.len();
    let mut i: usize = 0;
    while i < n
        invariant
            n == sorted@.len(),
            i <= n,
            sorted_by_name(sorted@),
            forall|k: int| 0 <= k < i ==> text_le(#[trigger] sorted@[k].name_key(), key@),
        decreases n - i,
    {
        if !text_le_exec(sorted[i].sort_name(), key) {
            proof {
                assert forall|j: int| i <= j < sorted@.len() implies !text_le(
                    #[trigger] sorted@[j].name_key(),
                    key@,
                ) by {
                    if j > i && text_le(sorted@[j].name_key(), key@) {
                        assert(text_le(sorted@[i as int].name_key(), sorted@[j].name_key()));
                        lemma_text_le_transitive(
                            sorted@[i as int].name_key(),
                            sorted@[j].name_key(),
                            key@,
                        );
                    }
                }
            }
            return i;
        }
        i += 1;
    }
    i
}

/// Inserting a record after every record of no later name, and before every
/// record of later name, keeps a stable sort stable.
proof fn lemma_insert_keeps_stable_sort<T: Named>(out: Seq<T>, done: Seq<T>, x: T, p: int)
    requires
        is_stable_sort_by_name(out, done),
        0 <= p <= out.len(),
        forall|i: int| 0 <= i < p ==> text_le(#[trigger] out[i].name_key(), x.name_key()),
        forall|j: int| p <= j < out.len() ==> !text_le(#[trigger] out[j].name_key(), x.name_key()),
    ensures
        is_stable_sort_by_name(out.insert(p, x), done.push(x)),
{
    broadcast use Seq::filter_distributes_over_add, Seq::lemma_filter_push;

    let new = out.insert(p, x);
    let front = out.subrange(0, p);
    let back = out.subrange(p, out.len() as int);
    assert(new =~= front + seq![x] + back);
    assert(out =~= front + back);
    lemma_text_le_reflexive(x.name_key());
    assert forall|i: int, j: int| 0 <= i < j < new.len() implies text_le(
        #[trigger] new[i].name_key(),
        #[trigger] new[j].name_key(),
    ) by {
        if j < p {
            assert(new[i] == out[i] && new[j] == out[j]);
        } else if j == p {
            assert(new[i] == out[i]);
        } else if i < p {
            assert(new[i] == out[i] && new[j] == out[j - 1]);
            lemma_text_le_total(out[j - 1].name_key(), x.name_key());
            lemma_text_le_transitive(out[i].name_key(), x.name_key(), out[j - 1].name_key());
        } else if i == p {
            assert(new[j] == out[j - 1]);
            lemma_text_le_total(out[j - 1].name_key(), x.name_key());
        } else {
            assert(new[i] == out[i - 1] && new[j] == out[j - 1]);
        }
    }
    assert forall|k: Seq<char>| #[trigger] with_name(new, k) == with_name(done.push(x), k) by {
        let pred = has_name::<T>(k);
        assert(with_name(done, k) == done.filter(pred));
        assert(with_name(out, k) == out.filter(pred));
        assert(new.filter(pred) == (front + seq![x]).filter(pred) + back.filter(pred));
        assert((front + seq![x]).filter(pred) == front.filter(pred) + seq![x].filter(pred));
        assert(out.filter(pred) == front.filter(pred) + back.filter(pred));
        assert(seq![x] =~= Seq::<T>::empty().push(x));
        assert(Seq::<T>::empty().filter(pred) =~= Seq::<T>::empty()) by {
            reveal(Seq::filter);
        }
        if x.name_key() == k {
            assert forall|j: int| 0 <= j < back.len() implies !pred(#[trigger] back[j]) by {
                assert(back[j] == out[p + j]);
            }
            assert(back.all(|y: T| !pred(y)));
            back.lemma_all_neg_filter_empty(pred);
            assert(back.filter(pred) =~= Seq::<T>::empty());
            assert(new.filter(pred) =~= out.filter(pred).push(x));
        } else {
            assert(new.filter(pred) =~= out.filter(pred));
        }
    }
}

/// `items` sorted by name; records with equal names keep their order.
pub fn sort_by_name<T: Named>(items: Vec<T>) -> (res: Vec<T>)
    ensures
        is_stable_sort_by_name(res@, items@),
        res@.len() == items@.len(),
{
    let ghost orig = items@;
    let ghost mut n: int = 0;
    let mut rest = items;
    let mut out: Vec<T> = Vec::new();
    proof {
        assert(orig.skip(0) =~= orig);
        assert(orig.take(0) =~= Seq::<T>::empty());
        assert forall|k: Seq<char>| #[trigger] with_name(out@, k) == with_name(orig.take(0), k) by {
            assert(out@ =~= orig.take(0));
        }
    }
    while rest.len() > 0
        invariant
            0 <= n <= orig.len(),
            rest@ == orig.skip(n),
            out@.len() == n,
            is_stable_sort_by_name(out@, orig.take(n)),
        decreases rest@.len(),
    {
        let x = rest.remove(0);
        let p = upper_bound(&out, x.sort_name());
        proof {
            assert(x == orig[n]);
            assert(orig.take(n + 1) =~= orig.take(n).push(x));
            lemma_insert_keeps_stable_sort(out@, orig.take(n), x, p as int);
            assert(rest@ =~= orig.skip(n + 1));
        }
        out.insert(p, x);
        proof {
            n = n + 1;
        }
    }
    proof {
        assert(orig.take(n) =~= orig);
    }
    out
}

/// A stable sort keeps exactly the records it was given: a record occurs in
/// the sorted list exactly when it occurs in the input.
pub proof fn lemma_stable_sort_same_records<T: Named>(out: Seq<T>, input: Seq<T>, x: T)
    requires
        is_stable_sort_by_name(out, input),
    ensures
        out.contains(x) <==> input.contains(x),
{
    let k = x.name_key();
    let pred = has_name::<T>(k);
    assert(with_name(out, k) == with_name(input, k));
    if out.contains(x) {
        let i = choose|i: int| 0 <= i < out.len() && out[i] == x;
        out.lemma_filter_contains(pred, i);
        input.lemma_filter_contains_rev(pred, x);
    }
    if input.contains(x) {
        let i = choose|i: int| 0 <= i < input.len() && input[i] == x;
        input.lemma_filter_contains(pred, i);
        out.lemma_filter_contains_rev(pred, x);
    }
}

/// The records of `s` named like its first record, when it is the first.
proof fn lemma_with_name_of_first<T: Named>(s: Seq<T>, k: Seq<char>)
    requires
        s.len() > 0,
    ensures
        with_name(s, k) == (if s[0].name_key() == k {
            seq![s[0]]
        } else {
            Seq::empty()
        }) + with_name(s.drop_first(), k),
{
    let pred = has_name::<T>(k);
    assert(s =~= seq![s[0]] + s.drop_first());
    s.drop_first().lemma_filter_prepend(s[0], pred);
}

/// A record of a sorted list is named no earlier than the list's first record.
proof fn lemma_first_is_least<T: Named>(s: Seq<T>, x: T)
    requires
        sorted_by_name(s),
        s.contains(x),
    ensures
        text_le(s[0].name_key(), x.name_key()),
{
    let j = choose|j: int| 0 <= j < s.len() && s[j] == x;
    if j == 0 {
        lemma_text_le_reflexive(x.name_key());
    } else {
        assert(text_le(s[0].name_key(), s[j].name_key()));
    }
}

/// Two stable sorts of the same records are the same list: sorting by name
/// and keeping the order of equal names leaves no choice.
pub proof fn lemma_stable_sort_unique<T: Named>(a: Seq<T>, b: Seq<T>)
    requires
        sorted_by_name(a),
        sorted_by_name(b),
        forall|k: Seq<char>| #[trigger] with_name(a, k) == with_name(b, k),
    ensures
        a == b,
    decreases a.len(),
{
    if a.len() == 0 || b.len() == 0 {
        if a.len() > 0 || b.len() > 0 {
            let (full, empty) = if a.len() > 0 {
                (a, b)
            } else {
                (b, a)
            };
            let k = full[0].name_key();
            let pred = has_name::<T>(k);
            full.lemma_filter_contains(pred, 0);
            assert(empty =~= Seq::<T>::empty());
            assert(empty.filter(pred) =~= Seq::<T>::empty()) by {
                reveal(Seq::filter);
            }
            assert(with_name(a, k) == with_name(b, k));
            assert(full.filter(pred).contains(full[0]));
            assert(false);
        } else {
            assert(a =~= b);
        }
    } else {
        let x = a[0];
        let y = b[0];
        let kx = x.name_key();
        let ky = y.name_key();
        let px = has_name::<T>(kx);
        let py = has_name::<T>(ky);
        a.lemma_filter_contains(px, 0);
        assert(with_name(a, kx) == with_name(b, kx));
        b.lemma_filter_contains_rev(px, x);
        lemma_first_is_least(b, x);
        b.lemma_filter_contains(py, 0);
        assert(with_name(a, ky) == with_name(b, ky));
        a.lemma_filter_contains_rev(py, y);
        lemma_first_is_least(a, y);
        lemma_text_le_antisymmetric(kx, ky);
        lemma_with_name_of_first(a, kx);
        lemma_with_name_of_first(b, kx);
        assert(with_name(a, kx)[0] == x);
        assert(with_name(b, kx)[0] == y);
        assert forall|k: Seq<char>| #[trigger] with_name(a.drop_first(), k) == with_name(
            b.drop_first(),
            k,
        ) by {
            lemma_with_name_of_first(a, k);
            lemma_with_name_of_first(b, k);
            assert(with_name(a, k) == with_name(b, k));
            if k == kx {
                assert(with_name(a.drop_first(), k) =~= with_name(a, k).drop_first());
                assert(with_name(b.drop_first(), k) =~= with_name(b, k).drop_first());
            } else {
                assert(with_name(a.drop_first(), k) =~= with_name(a, k));
                assert(with_name(b.drop_first(), k) =~= with_name(b, k));
            }
        }
        assert forall|i: int, j: int| 0 <= i < j < a.drop_first().len() implies text_le(
            #[trigger] a.drop_first()[i].name_key(),
            #[trigger] a.drop_first()[j].name_key(),
        ) by {
            assert(a.drop_first()[i] == a[i + 1] && a.drop_first()[j] == a[j + 1]);
        }
        assert forall|i: int, j: int| 0 <= i < j < b.drop_first().len() implies text_le(
            #[trigger] b.drop_first()[i].name_key(),
            #[trigger] b.drop_first()[j].name_key(),
        ) by {
            assert(b.drop_first()[i] == b[i + 1] && b.drop_first()[j] == b[j + 1]);
        }
        lemma_stable_sort_unique(a.drop_first(), b.drop_first());
        assert(a =~= seq![x] + a.drop_first());
        assert(b =~= seq![y] + b.drop_first());
    }
}

/// Filtering by one condition and then another keeps the records that meet
/// both, in order.
pub proof fn lemma_filter_twice<T>(s: Seq<T>, p: spec_fn(T) -> bool, q: spec_fn(T) -> bool)
    ensures
        s.filter(p).filter(q) == s.filter(|x: T| p(x) && q(x)),
    decreases s.len(),
{
    let both = |x: T| p(x) && q(x);
    if s.len() == 0 {
        assert(s.filter(p) =~= s) by {
            reveal(Seq::filter);
        }
        assert(s.filter(p).filter(q) =~= s) by {
            reveal(Seq::filter);
        }
        assert(s.filter(both) =~= s) by {
            reveal(Seq::filter);
        }
    } else {
        let r = s.drop_last();
        let x = s.last();
        lemma_filter_twice(r, p, q);
        assert(s =~= r.push(x));
        r.lemma_filter_push(x, p);
        r.lemma_filter_push(x, both);
        if p(x) {
            r.filter(p).lemma_filter_push(x, q);
        }
    }
}

/// Filtering a list sorted by name leaves it sorted by name.
proof fn lemma_filter_keeps_sorted<T: Named>(s: Seq<T>, q: spec_fn(T) -> bool)
    requires
        sorted_by_name(s),
    ensures
        sorted_by_name(s.filter(q)),
    decreases s.len(),
{
    if s.len() == 0 {
        assert(s.filter(q) =~= s) by {
            reveal(Seq::filter);
        }
    } else {
        let r = s.drop_last();
        let x = s.last();
        assert forall|i: int, j: int| 0 <= i < j < r.len() implies text_le(
            #[trigger] r[i].name_key(),
            #[trigger] r[j].name_key(),
        ) by {
            assert(r[i] == s[i] && r[j] == s[j]);
        }
        lemma_filter_keeps_sorted(r, q);
        assert(s =~= r.push(x));
        r.lemma_filter_push(x, q);
        if q(x) {
            let f = r.filter(q);
            let g = f.push(x);
            assert forall|i: int, j: int| 0 <= i < j < g.len() implies text_le(
                #[trigger] g[i].name_key(),
                #[trigger] g[j].name_key(),
            ) by {
                if j < f.len() {
                    assert(g[i] == f[i] && g[j] == f[j]);
                } else {
                    assert(g[i] == f[i] && g[j] == x);
                    assert(f.contains(f[i]));
                    r.lemma_filter_contains_rev(q, f[i]);
                    let m = choose|m: int| 0 <= m < r.len() && r[m] == f[i];
                    assert(s[m] == r[m]);
                    assert(text_le(s[m].name_key(), s[s.len() - 1].name_key()));
                }
            }
        }
    }
}

/// Filtering a stable sort gives the stable sort of the filtered input.
pub proof fn lemma_filter_of_stable_sort<T: Named>(
    out: Seq<T>,
    input: Seq<T>,
    q: spec_fn(T) -> bool,
)
    requires
        is_stable_sort_by_name(out, input),
    ensures
        is_stable_sort_by_name(out.filter(q), input.filter(q)),
{
    lemma_filter_keeps_sorted(out, q);
    assert forall|k: Seq<char>| #[trigger] with_name(out.filter(q), k) == with_name(
        input.filter(q),
        k,
    ) by {
        let named = has_name::<T>(k);
        lemma_filter_twice(out, q, named);
        lemma_filter_twice(out, named, q);
        lemma_filter_twice(input, q, named);
        lemma_filter_twice(input, named, q);
        assert((|x: T| q(x) && named(x)) =~= (|x: T| named(x) && q(x)));
        assert(with_name(out, k) == with_name(input, k));
    }
}

} // verus!
