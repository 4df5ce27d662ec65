//! Orders of names and user ids: what "normalized" means, and the facts
//! about it that the configuration relies on.
use vstd::prelude::*;

verus! {

/// Keeps, in order, the first occurrence of each element of `s` that belongs
/// to `keep` (later repetitions and elements outside `keep` are dropped).
pub open spec fn retain_first<A>(s: Seq<A>, keep: Set<A>) -> Seq<A>
    decreases s.len(),
{
    if s.len() == 0 {
        s
    } else {
        let r = retain_first(s.drop_last(), keep);
        if keep.contains(s.last()) && !r.contains(s.last()) {
            r.push(s.last())
        } else {
            r
        }
    }
}

/// The template order after normalization: the retained entries of
/// `order`, then every other template name, in the order of `names`.
pub open spec fn normal_template_order(order: Seq<Seq<char>>, names: Seq<Seq<char>>) -> Seq<
    Seq<char>,
> {
    let r = retain_first(order, names.to_set());
    r + names.filter(absent_from(r))
}

/// The predicate "not listed in `r`".
pub open spec fn absent_from(r: Seq<Seq<char>>) -> spec_fn(Seq<char>) -> bool {
    |n: Seq<char>| !r.contains(n)
}

/// Update stamps after normalization: one per template, the old stamp where
/// there was one, else 0.
pub open spec fn normal_stamps(stamps: Map<Seq<char>, u64>, names: Set<Seq<char>>) -> Map<
    Seq<char>,
    u64,
> {
    Map::new(
        |k: Seq<char>| names.contains(k),
        |k: Seq<char>|
            if stamps.contains_key(k) {
                stamps[k]
            } else {
                0
            },
    )
}

/// Strictly increasing, hence without repetitions.
pub open spec fn sorted_strict(s: Seq<u64>) -> bool {
    forall|i: int, j: int| 0 <= i < j < s.len() ==> s[i] < s[j]
}

/// `result` is the normalized user order for `order` and the set of
/// configured users `users`: the retained part of `order`, then the
/// remaining users in increasing order.
pub open spec fn is_normal_user_order(result: Seq<u64>, order: Seq<u64>, users: Set<u64>) -> bool {
    let r = retain_first(order, users);
    &&& r.len() <= result.len()
    &&& result.subrange(0, r.len() as int) == r
    &&& sorted_strict(result.subrange(r.len() as int, result.len() as int))
    &&& result.subrange(r.len() as int, result.len() as int).to_set() == users.difference(
        r.to_set(),
    )
}

/// A listing of exactly the elements of `set`, each once.
pub open spec fn lists_exactly<A>(s: Seq<A>, set: Set<A>) -> bool {
    s.no_duplicates() && s.to_set() == set
}

pub proof fn lemma_retain_first<A>(s: Seq<A>, keep: Set<A>)
    ensures
        retain_first(s, keep).no_duplicates(),
        forall|x: A| #[trigger]
            retain_first(s, keep).contains(x) <==> (s.contains(x) && keep.contains(x)),
        retain_first(s, keep).len() <= s.len(),
    decreases s.len(),
{
    if s.len() > 0 {
        let t = s.drop_last();
        lemma_retain_first(t, keep);
        let r = retain_first(t, keep);
        assert forall|x: A| #[trigger] s.contains(x) <==> (t.contains(x) || x == s.last()) by {
            if s.contains(x) {
                let i = s.index_of(x);
                if i < s.len() - 1 {
                    assert(t[i] == x);
                }
            }
            if t.contains(x) {
                let i = t.index_of(x);
                assert(s[i] == x);
            }
            if x == s.last() {
                assert(s[s.len() - 1] == x);
            }
        }
        if keep.contains(s.last()) && !r.contains(s.last()) {
            crate::named_map::lemma_push_distinct(r, s.last());
            assert forall|x: A| #[trigger] r.push(s.last()).contains(x) <==> (r.contains(x) || x
                == s.last()) by {
                if r.push(s.last()).contains(x) {
                    let i = r.push(s.last()).index_of(x);
                    if i < r.len() {
                        assert(r[i] == x);
                    }
                }
                if r.contains(x) {
                    let i = r.index_of(x);
                    assert(r.push(s.last())[i] == x);
                }
                if x == s.last() {
                    assert(r.push(s.last())[r.len() as int] == x);
                }
            }
        }
    }
}

/// Retaining from a duplicate-free sequence whose elements all belong to
/// `keep` changes nothing.
pub proof fn lemma_retain_first_id<A>(s: Seq<A>, keep: Set<A>)
    requires
        s.no_duplicates(),
        forall|x: A| s.contains(x) ==> keep.contains(x),
    ensures
        retain_first(s, keep) == s,
    decreases s.len(),
{
    if s.len() > 0 {
        let t = s.drop_last();
        assert forall|x: A| t.contains(x) implies keep.contains(x) by {
            let i = t.index_of(x);
            assert(s[i] == x);
        }
        assert(t.no_duplicates()) by {
            assert forall|i: int, j: int| 0 <= i < t.len() && 0 <= j < t.len() && i != j implies t[i]
                != t[j] by {
                assert(s[i] == t[i] && s[j] == t[j]);
            }
        }
        lemma_retain_first_id(t, keep);
        assert(s.contains(s.last())) by {
            assert(s[s.len() - 1] == s.last());
        }
        assert(!t.contains(s.last())) by {
            if t.contains(s.last()) {
                let i = t.index_of(s.last());
                assert(s[i] == s[s.len() - 1]);
            }
        }
        assert(s =~= t.push(s.last()));
    }
}

pub proof fn lemma_filter_push<A>(s: Seq<A>, x: A, f: spec_fn(A) -> bool)
    ensures
        s.push(x).filter(f) == (if f(x) {
            s.filter(f).push(x)
        } else {
            s.filter(f)
        }),
{
    reveal(Seq::filter);
    assert(s.push(x).drop_last() =~= s);
}

/// What a filter keeps: exactly the elements satisfying the predicate; and
/// a duplicate-free sequence stays so.
pub proof fn lemma_filter_facts<A>(s: Seq<A>, f: spec_fn(A) -> bool)
    ensures
        forall|x: A| #[trigger] s.filter(f).contains(x) <==> (s.contains(x) && f(x)),
        s.no_duplicates() ==> s.filter(f).no_duplicates(),
    decreases s.len(),
{
    reveal(Seq::filter);
    if s.len() > 0 {
        let t = s.drop_last();
        lemma_filter_facts(t, f);
        assert(s =~= t.push(s.last()));
        lemma_filter_push(t, s.last(), f);
        assert forall|x: A| #[trigger] s.contains(x) <==> (t.contains(x) || x == s.last()) by {
            if s.contains(x) {
                let i = s.index_of(x);
                if i < s.len() - 1 {
                    assert(t[i] == x);
                }
            }
            if t.contains(x) {
                let i = t.index_of(x);
                assert(s[i] == x);
            }
            if x == s.last() {
                assert(s[s.len() - 1] == x);
            }
        }
        let ft = t.filter(f);
        assert forall|x: A| #[trigger] ft.push(s.last()).contains(x) <==> (ft.contains(x) || x
            == s.last()) by {
            if ft.push(s.last()).contains(x) {
                let i = ft.push(s.last()).index_of(x);
                if i < ft.len() {
                    assert(ft[i] == x);
                }
            }
            if ft.contains(x) {
                let i = ft.index_of(x);
                assert(ft.push(s.last())[i] == x);
            }
            if x == s.last() {
                assert(ft.push(s.last())[ft.len() as int] == x);
            }
        }
        if s.no_duplicates() {
            assert(t.no_duplicates()) by {
                assert forall|i: int, j: int|
                    0 <= i < t.len() && 0 <= j < t.len() && i != j implies t[i] != t[j] by {
                    assert(s[i] == t[i] && s[j] == t[j]);
                }
            }
            if f(s.last()) {
                assert(!ft.contains(s.last())) by {
                    if t.contains(s.last()) {
                        let i = t.index_of(s.last());
                        assert(s[i] == s[s.len() - 1]);
                    }
                }
                crate::named_map::lemma_push_distinct(ft, s.last());
            }
        }
    }
}

/// Filtering keeps everything when every element satisfies the predicate.
pub proof fn lemma_filter_all<A>(s: Seq<A>, f: spec_fn(A) -> bool)
    requires
        forall|x: A| s.contains(x) ==> f(x),
    ensures
        s.filter(f) == s,
    decreases s.len(),
{
    reveal(Seq::filter);
    if s.len() > 0 {
        let t = s.drop_last();
        assert forall|x: A| t.contains(x) implies f(x) by {
            let i = t.index_of(x);
            assert(t[i] == x);
            assert(s[i] == t[i]);
            assert(s.contains(x));
        }
        lemma_filter_all(t, f);
        assert(s.contains(s.last())) by {
            assert(s[s.len() - 1] == s.last());
        }
        assert(s =~= t.push(s.last()));
    } else {
        assert(s.filter(f) =~= s);
    }
}

pub proof fn lemma_concat_distinct<A>(a: Seq<A>, b: Seq<A>)
    requires
        a.no_duplicates(),
        b.no_duplicates(),
        forall|x: A| a.contains(x) ==> !b.contains(x),
    ensures
        (a + b).no_duplicates(),
        forall|x: A| #[trigger] (a + b).contains(x) <==> (a.contains(x) || b.contains(x)),
{
    let c = a + b;
    assert forall|i: int, j: int| 0 <= i < c.len() && 0 <= j < c.len() && i != j implies c[i]
        != c[j] by {
        if i < a.len() && j >= a.len() {
            assert(a.contains(c[i]));
            assert(b[j - a.len()] == c[j]);
        } else if j < a.len() && i >= a.len() {
            assert(a.contains(c[j]));
            assert(b[i - a.len()] == c[i]);
        } else if i >= a.len() && j >= a.len() {
            assert(b[i - a.len()] == c[i] && b[j - a.len()] == c[j]);
        }
    }
    assert forall|x: A| #[trigger] c.contains(x) <==> (a.contains(x) || b.contains(x)) by {
        if c.contains(x) {
            let i = c.index_of(x);
            if i < a.len() {
                assert(a[i] == x);
            } else {
                assert(b[i - a.len()] == x);
            }
        }
        if a.contains(x) {
            let i = a.index_of(x);
            assert(c[i] == x);
        }
        if b.contains(x) {
            let i = b.index_of(x);
            assert(c[i + a.len()] == x);
        }
    }
}

/// The normalized template order lists every template name exactly once.
pub proof fn lemma_normal_template_order(order: Seq<Seq<char>>, names: Seq<Seq<char>>)
    requires
        names.no_duplicates(),
    ensures
        lists_exactly(normal_template_order(order, names), names.to_set()),
{
    let keep = names.to_set();
    let r = retain_first(order, keep);
    let f = absent_from(r);
    lemma_retain_first(order, keep);
    lemma_filter_facts(names, f);
    let m = names.filter(f);
    lemma_concat_distinct(r, m);
    let c = r + m;
    assert(c.to_set() =~= keep) by {
        assert forall|x: Seq<char>| c.to_set().contains(x) <==> keep.contains(x) by {
            assert(c.contains(x) <==> (r.contains(x) || m.contains(x)));
        }
    }
}

/// Normalizing an order that already lists every name once changes nothing.
pub proof fn lemma_normal_template_order_id(order: Seq<Seq<char>>, names: Seq<Seq<char>>)
    requires
        lists_exactly(order, names.to_set()),
    ensures
        normal_template_order(order, names) == order,
{
    let keep = names.to_set();
    assert forall|x: Seq<char>| order.contains(x) implies keep.contains(x) by {
        assert(order.to_set().contains(x));
    }
    lemma_retain_first_id(order, keep);
    let f = absent_from(order);
    lemma_filter_facts(names, f);
    let m = names.filter(f);
    assert(m.len() == 0) by {
        if m.len() > 0 {
            assert(m.contains(m[0]));
            assert(names.contains(m[0]));
            assert(keep.contains(m[0]));
            assert(order.to_set().contains(m[0]));
        }
    }
    assert(order + m =~= order);
}

/// Stamps after normalization cover exactly the template names.
pub proof fn lemma_normal_stamps_id(stamps: Map<Seq<char>, u64>, names: Set<Seq<char>>)
    requires
        stamps.dom() == names,
    ensures
        normal_stamps(stamps, names) == stamps,
{
    assert(normal_stamps(stamps, names) =~= stamps);
}

/// The retained part of an order that lists the users exactly is the order.
pub proof fn lemma_normal_user_order_id(order: Seq<u64>, users: Set<u64>)
    requires
        lists_exactly(order, users),
    ensures
        is_normal_user_order(order, order, users),
        forall|res: Seq<u64>| is_normal_user_order(res, order, users) ==> res == order,
{
    assert forall|x: u64| order.contains(x) implies users.contains(x) by {
        assert(order.to_set().contains(x));
    }
    lemma_retain_first_id(order, users);
    let e = order.subrange(order.len() as int, order.len() as int);
    assert(e.to_set() =~= users.difference(order.to_set()));
    assert(order.subrange(0, order.len() as int) =~= order);
    assert forall|res: Seq<u64>| is_normal_user_order(res, order, users) implies res == order by {
        let tail = res.subrange(order.len() as int, res.len() as int);
        assert(tail.to_set() =~= Set::<u64>::empty());
        if tail.len() > 0 {
            assert(tail.to_set().contains(tail[0]));
        }
        assert(res =~= res.subrange(0, order.len() as int) + tail);
    }
}

/// A normalized user order lists every configured user exactly once.
pub proof fn lemma_normal_user_order_lists(result: Seq<u64>, order: Seq<u64>, users: Set<u64>)
    requires
        is_normal_user_order(result, order, users),
    ensures
        lists_exactly(result, users),
{
    let r = retain_first(order, users);
    let tail = result.subrange(r.len() as int, result.len() as int);
    lemma_retain_first(order, users);
    assert(tail.no_duplicates()) by {
        assert forall|i: int, j: int| 0 <= i < tail.len() && 0 <= j < tail.len() && i != j implies tail[i]
            != tail[j] by {
            if i < j {
                assert(tail[i] < tail[j]);
            } else {
                assert(tail[j] < tail[i]);
            }
        }
    }
    assert forall|x: u64| r.contains(x) implies !tail.contains(x) by {
        if tail.contains(x) {
            let i = tail.index_of(x);
            assert(tail.to_set().contains(tail[i]));
            assert(r.to_set().contains(x));
        }
    }
    lemma_concat_distinct(r, tail);
    assert(result =~= r + tail);
    assert(result.to_set() =~= users) by {
        assert forall|x: u64| result.to_set().contains(x) <==> users.contains(x) by {
            assert((r + tail).contains(x) <==> (r.contains(x) || tail.contains(x)));
            assert(tail.contains(x) <==> tail.to_set().contains(x));
            assert(r.contains(x) <==> r.to_set().contains(x));
        }
    }
}

/// `a` comes before `b` in the order of `str`'s `Ord`: comparing characters
/// by code point (which is the order of their UTF-8 bytes), a proper prefix
/// first.
pub open spec fn lex_lt(a: Seq<char>, b: Seq<char>) -> bool
    decreases a.len(),
{
    if b.len() == 0 {
        false
    } else if a.len() == 0 {
        true
    } else if a[0] != b[0] {
        a[0] < b[0]
    } else {
        lex_lt(a.drop_first(), b.drop_first())
    }
}

/// Every name comes strictly before the ones after it.
pub open spec fn sorted_names(s: Seq<Seq<char>>) -> bool {
    forall|i: int, j: int| 0 <= i < j < s.len() ==> lex_lt(#[trigger] s[i], #[trigger] s[j])
}

pub proof fn lemma_lex_irreflexive(a: Seq<char>)
    ensures
        !lex_lt(a, a),
    decreases a.len(),
{
    if a.len() > 0 {
        lemma_lex_irreflexive(a.drop_first());
    }
}

pub proof fn lemma_lex_transitive(a: Seq<char>, b: Seq<char>, c: Seq<char>)
    requires
        lex_lt(a, b),
        lex_lt(b, c),
    ensures
        lex_lt(a, c),
    decreases a.len(),
{
    if a.len() > 0 && b.len() > 0 && c.len() > 0 && a[0] == b[0] && b[0] == c[0] {
        lemma_lex_transitive(a.drop_first(), b.drop_first(), c.drop_first());
    }
}

/// Two different names are ordered one way or the other.
pub proof fn lemma_lex_total(a: Seq<char>, b: Seq<char>)
    requires
        a != b,
    ensures
        lex_lt(a, b) || lex_lt(b, a),
    decreases a.len(),
{
    if a.len() > 0 && b.len() > 0 && a[0] == b[0] {
        if a.drop_first() == b.drop_first() {
            assert(a =~= seq![a[0]] + a.drop_first());
            assert(b =~= seq![b[0]] + b.drop_first());
        }
        lemma_lex_total(a.drop_first(), b.drop_first());
    } else if a.len() == 0 && b.len() == 0 {
        assert(a =~= b);
    }
}

/// `lex_lt` on character slices.
pub fn chars_lt(a: &[char], b: &[char]) -> (r: bool)
    ensures
        r == lex_lt(a@, b@),
{
    let mut i: usize = 0;
    assert(a@.subrange(0, a@.len() as int) =~= a@);
    assert(b@.subrange(0, b@.len() as int) =~= b@);
    while i < a.len() && i < b.len() && a[i] == b[i]
        invariant
            i <= a@.len(),
            i <= b@.len(),
            lex_lt(a@, b@) == lex_lt(
                a@.subrange(i as int, a@.len() as int),
                b@.subrange(i as int, b@.len() as int),
            ),
        decreases a@.len() - i,
    {
        let ghost x = a@.subrange(i as int, a@.len() as int);
        let ghost y = b@.subrange(i as int, b@.len() as int);
        assert(x.drop_first() =~= a@.subrange(i + 1, a@.len() as int));
        assert(y.drop_first() =~= b@.subrange(i + 1, b@.len() as int));
        i = i + 1;
    }
    if i == b.len() {
        false
    } else if i == a.len() {
        true
    } else {
        a[i] < b[i]
    }
}

/// Inserting `x` before the first name that comes after it keeps a sorted
/// list sorted.
proof fn lemma_insert_sorted(s: Seq<Seq<char>>, x: Seq<char>, pos: int)
    requires
        sorted_names(s),
        !s.contains(x),
        0 <= pos <= s.len(),
        forall|i: int| 0 <= i < pos ==> !lex_lt(x, #[trigger] s[i]),
        pos < s.len() ==> lex_lt(x, s[pos]),
    ensures
        sorted_names(s.insert(pos, x)),
{
    let t = s.insert(pos, x);
    assert forall|i: int, j: int| 0 <= i < j < t.len() implies lex_lt(#[trigger] t[i], #[trigger] t[j]) by {
        if i < pos {
            assert(t[i] == s[i]);
            assert(s[i] != x);
            lemma_lex_total(s[i], x);
            if j < pos {
                assert(t[j] == s[j]);
            } else if j > pos {
                assert(t[j] == s[j - 1]);
            }
        } else if i == pos {
            assert(t[j] == s[j - 1]);
            if j - 1 > pos {
                lemma_lex_transitive(x, s[pos], s[j - 1]);
            }
        } else {
            assert(t[i] == s[i - 1]);
            assert(t[j] == s[j - 1]);
        }
    }
}

/// The names sorted as `sort_unstable` sorts strings.
pub fn sort_strings(v: &Vec<String>) -> (r: Vec<String>)
    requires
        v@.map_values(|s: String| s@).no_duplicates(),
    ensures
        sorted_names(r@.map_values(|s: String| s@)),
        lists_exactly(r@.map_values(|s: String| s@), v@.map_values(|s: String| s@).to_set()),
{
    let ghost src = v@.map_values(|s: String| s@);
    let mut r: Vec<String> = Vec::new();
    let mut k: usize = 0;
    while k < v.len()
        invariant
            k <= v@.len(),
            src == v@.map_values(|s: String| s@),
            src.no_duplicates(),
            sorted_names(r@.map_values(|s: String| s@)),
            r@.map_values(|s: String| s@).no_duplicates(),
            r@.map_values(|s: String| s@).to_set() == src.subrange(0, k as int).to_set(),
        decreases v@.len() - k,
    {
        let ghost cur = r@.map_values(|s: String| s@);
        let x = v[k].clone();
        let xc = crate::text::chars_of(x.as_str());
        assert(!cur.contains(x@)) by {
            if cur.contains(x@) {
                assert(cur.to_set().contains(x@));
                assert(src.subrange(0, k as int).to_set().contains(x@));
                let j = choose|j: int| 0 <= j < k && src.subrange(0, k as int)[j] == x@;
                assert(src[j] == src[k as int]);
            }
        }
        let mut pos: usize = 0;
        while pos < r.len() && !chars_lt(xc.as_slice(), crate::text::chars_of(r[pos].as_str()).as_slice())
            invariant
                pos <= r@.len(),
                cur == r@.map_values(|s: String| s@),
                xc@ == x@,
                forall|i: int| 0 <= i < pos ==> !lex_lt(x@, #[trigger] cur[i]),
            decreases r@.len() - pos,
        {
            pos = pos + 1;
        }
        proof {
            lemma_insert_sorted(cur, x@, pos as int);
            crate::named_map::lemma_push_distinct(cur, x@);
        }
        r.insert(pos, x);
        let ghost next = r@.map_values(|s: String| s@);
        assert(next =~= cur.insert(pos as int, x@));
        assert(next.to_set() =~= cur.to_set().insert(x@)) by {
            assert forall|y: Seq<char>| next.contains(y) <==> cur.contains(y) || y == x@ by {
                if next.contains(y) {
                    let j = choose|j: int| 0 <= j < next.len() && next[j] == y;
                    if j < pos {
                        assert(cur[j] == y);
                    } else if j > pos {
                        assert(cur[j - 1] == y);
                    }
                }
                if cur.contains(y) {
                    let j = choose|j: int| 0 <= j < cur.len() && cur[j] == y;
                    if j < pos {
                        assert(next[j] == y);
                    } else {
                        assert(next[j + 1] == y);
                    }
                }
                if y == x@ {
                    assert(next[pos as int] == y);
                }
            }
        }
        assert(next.no_duplicates()) by {
            assert forall|i: int, j: int| 0 <= i < next.len() && 0 <= j < next.len() && i != j implies next[i] != next[j] by {
                if i < j {
                    lemma_lex_irreflexive(next[i]);
                } else {
                    lemma_lex_irreflexive(next[j]);
                }
            }
        }
        assert(src.subrange(0, k + 1).to_set() =~= src.subrange(0, k as int).to_set().insert(x@)) by {
            assert(src.subrange(0, k + 1) =~= src.subrange(0, k as int).push(x@));
            src.subrange(0, k as int).lemma_push_to_set_commute(x@);
        }
        k = k + 1;
    }
    assert(src.subrange(0, src.len() as int) =~= src);
    r
}

} // verus!
