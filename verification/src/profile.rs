//! Flash geometry model and the pure erase planner. No I/O, no SFDP bytes.

use vstd::prelude::*;

verus! {

/// Number of address bytes a part expects in read/erase/program headers.
#[derive(Debug, Clone, Copy, PartialEq, Eq, Structural)]
pub enum AddressWidth {
    Three,
    Four,
}

impl AddressWidth {
    /// The header address length in bytes, as a number.
    pub open spec fn spec_bytes(self) -> u8 {
        match self {
            AddressWidth::Three => 3,
            AddressWidth::Four => 4,
        }
    }

    /// Header address length in bytes.
    pub fn bytes(self) -> (n: u8)
        ensures
            n == self.spec_bytes(),
    {
        match self {
            AddressWidth::Three => 3,
            AddressWidth::Four => 4,
        }
    }

    pub fn is_four_byte(self) -> (b: bool)
        ensures
            b == (self == AddressWidth::Four),
    {
        match self {
            AddressWidth::Three => false,
            AddressWidth::Four => true,
        }
    }

    /// How the width reads in a report: "3-byte" or "4-byte".
    pub open spec fn spec_text(self) -> Seq<char> {
        match self {
            AddressWidth::Three => "3-byte"@,
            AddressWidth::Four => "4-byte"@,
        }
    }

    /// The width as a report shows it, "3-byte" or "4-byte".
    pub fn to_text(self) -> (s: String)
        ensures
            s@ == self.spec_text(),
    {
        match self {
            AddressWidth::Three => String::from_str("3-byte"),
            AddressWidth::Four => String::from_str("4-byte"),
        }
    }
}

/// One supported erase granularity: `size` bytes via `opcode`.
#[derive(Debug, Clone, Copy, PartialEq, Eq, Structural)]
pub struct EraseType {
    pub size: usize,
    pub opcode: u8,
}

/// `e` placed into the size-descending sequence `s` after every entry that is
/// at least as large (so equal sizes keep their arrival order).
pub open spec fn insert_desc(s: Seq<EraseType>, e: EraseType) -> Seq<EraseType>
    decreases s.len(),
{
    if s.len() == 0 {
        seq![e]
    } else if s[0].size >= e.size {
        seq![s[0]] + insert_desc(s.drop_first(), e)
    } else {
        seq![e] + s
    }
}

/// The stable sort of `s` by size, largest first.
pub open spec fn sort_desc(s: Seq<EraseType>) -> Seq<EraseType>
    decreases s.len(),
{
    if s.len() == 0 {
        Seq::empty()
    } else {
        insert_desc(sort_desc(s.drop_last()), s.last())
    }
}

/// `s` with each entry dropped whose size equals its predecessor's.
pub open spec fn dedup_sizes(s: Seq<EraseType>) -> Seq<EraseType>
    decreases s.len(),
{
    if s.len() <= 1 {
        s
    } else if s.last().size == s[s.len() - 2].size {
        dedup_sizes(s.drop_last())
    } else {
        dedup_sizes(s.drop_last()).push(s.last())
    }
}

/// Sizes never grow along `s`.
pub open spec fn sorted_desc(s: Seq<EraseType>) -> bool {
    forall|i: int, j: int| 0 <= i < j < s.len() ==> s[i].size >= s[j].size
}

/// Sizes strictly shrink along `s`.
pub open spec fn strictly_desc(s: Seq<EraseType>) -> bool {
    forall|i: int, j: int| 0 <= i < j < s.len() ==> s[i].size > s[j].size
}

/// The first index of `s` whose size is below `size` (or `s.len()`).
pub open spec fn first_smaller(s: Seq<EraseType>, size: usize) -> int
    decreases s.len(),
{
    if s.len() == 0 {
        0
    } else if s[0].size >= size {
        1 + first_smaller(s.drop_first(), size)
    } else {
        0
    }
}

proof fn lemma_first_smaller(s: Seq<EraseType>, e: EraseType)
    ensures
        0 <= first_smaller(s, e.size) <= s.len(),
        forall|k: int| 0 <= k < first_smaller(s, e.size) ==> s[k].size >= e.size,
        first_smaller(s, e.size) < s.len() ==> s[first_smaller(s, e.size)].size < e.size,
        insert_desc(s, e) == s.take(first_smaller(s, e.size)).push(e) + s.skip(
            first_smaller(s, e.size),
        ),
    decreases s.len(),
{
    if s.len() > 0 {
        lemma_first_smaller(s.drop_first(), e);
        let p = first_smaller(s.drop_first(), e.size);
        if s[0].size >= e.size {
            assert forall|k: int| 0 <= k < p + 1 implies s[k].size >= e.size by {
                if k > 0 {
                    assert(s[k] == s.drop_first()[k - 1]);
                }
            }
            assert(s.take(p + 1) == seq![s[0]] + s.drop_first().take(p));
            assert(s.skip(p + 1) == s.drop_first().skip(p));
            assert(insert_desc(s, e) == s.take(p + 1).push(e) + s.skip(p + 1));
        } else {
            assert(s.take(0).push(e) + s.skip(0) == seq![e] + s);
        }
    } else {
        assert(s.take(0).push(e) + s.skip(0) == seq![e]);
    }
}

proof fn lemma_insert_desc_sorted(s: Seq<EraseType>, e: EraseType)
    requires
        sorted_desc(s),
    ensures
        sorted_desc(insert_desc(s, e)),
        insert_desc(s, e).to_multiset() == s.to_multiset().insert(e),
        insert_desc(s, e).len() == s.len() + 1,
{
    lemma_first_smaller(s, e);
    let p = first_smaller(s, e.size);
    let r = insert_desc(s, e);
    assert(r.len() == s.len() + 1);
    assert forall|i: int, j: int| 0 <= i < j < r.len() implies r[i].size >= r[j].size by {
        if i < p {
            assert(r[i] == s[i]);
            if j < p {
                assert(r[j] == s[j]);
            } else if j == p {
                assert(r[j] == e);
            } else {
                assert(r[j] == s[j - 1]);
            }
        } else if i == p {
            assert(r[i] == e);
            assert(r[j] == s[j - 1]);
            assert(s[p].size < e.size);
            assert(s[p].size >= s[j - 1].size || j - 1 == p);
        } else {
            assert(r[i] == s[i - 1]);
            assert(r[j] == s[j - 1]);
        }
    }
    assert(s == s.take(p) + s.skip(p));
    broadcast use vstd::seq_lib::group_to_multiset_ensures;
    vstd::seq_lib::lemma_multiset_commutative(s.take(p), s.skip(p));
    vstd::seq_lib::lemma_multiset_commutative(s.take(p).push(e), s.skip(p));
    assert(r.to_multiset() =~= s.to_multiset().insert(e));
}

/// The stable descending sort is sorted, keeps every entry and only those.
pub proof fn lemma_sort_desc(s: Seq<EraseType>)
    ensures
        sorted_desc(sort_desc(s)),
        sort_desc(s).to_multiset() == s.to_multiset(),
        sort_desc(s).len() == s.len(),
    decreases s.len(),
{
    broadcast use vstd::seq_lib::group_to_multiset_ensures;
    if s.len() > 0 {
        lemma_sort_desc(s.drop_last());
        lemma_insert_desc_sorted(sort_desc(s.drop_last()), s.last());
        assert(s == s.drop_last().push(s.last()));
        assert(s.drop_last().push(s.last()).to_multiset() =~= s.drop_last().to_multiset().insert(s.last()));
    } else {
        assert(s.to_multiset() =~= vstd::multiset::Multiset::empty());
        assert(sort_desc(s).to_multiset() =~= vstd::multiset::Multiset::empty());
    }
}

/// Deduplicating a sorted sequence leaves it strictly descending, non-empty
/// when the input is, and with the input's first entry and last size.
pub proof fn lemma_dedup_shape(s: Seq<EraseType>)
    requires
        sorted_desc(s),
    ensures
        strictly_desc(dedup_sizes(s)),
        dedup_sizes(s).len() <= s.len(),
        s.len() > 0 ==> dedup_sizes(s).len() > 0 && dedup_sizes(s).last().size == s.last().size,
        s.len() > 0 ==> dedup_sizes(s)[0] == s[0],
    decreases s.len(),
{
    if s.len() > 1 {
        let p = s.drop_last();
        assert(sorted_desc(p));
        lemma_dedup_shape(p);
        let d = dedup_sizes(p);
        if s.last().size != s[s.len() - 2].size {
            let r = d.push(s.last());
            assert(s.last().size < p.last().size);
            assert forall|i: int, j: int| 0 <= i < j < r.len() implies r[i].size > r[j].size by {
                if j == r.len() - 1 {
                    assert(r[i] == d[i]);
                    if i < d.len() - 1 {
                        assert(d[i].size > d[d.len() - 1].size);
                    }
                } else {
                    assert(r[i] == d[i] && r[j] == d[j]);
                }
            }
        }
    }
}

/// Every entry that deduplication keeps comes from the input.
pub proof fn lemma_dedup_from_input(s: Seq<EraseType>)
    ensures
        forall|i: int| 0 <= i < dedup_sizes(s).len() ==> s.contains(#[trigger] dedup_sizes(s)[i]),
    decreases s.len(),
{
    if s.len() > 1 {
        let p = s.drop_last();
        lemma_dedup_from_input(p);
        let d = dedup_sizes(p);
        let r = dedup_sizes(s);
        assert forall|i: int| 0 <= i < r.len() implies s.contains(#[trigger] r[i]) by {
            if i < d.len() {
                assert(r[i] == d[i]);
                let k = choose|k: int| 0 <= k < p.len() && p[k] == d[i];
                assert(s[k] == r[i]);
            } else {
                assert(s[s.len() - 1] == r[i]);
            }
        }
    } else if s.len() == 1 {
        assert(s.contains(s[0]));
    }
}

/// Some entry of `s` has exactly `size`.
pub open spec fn has_size(s: Seq<EraseType>, size: usize) -> bool {
    exists|j: int| 0 <= j < s.len() && s[j].size == size
}

/// Every size of a sorted input survives deduplication.
pub proof fn lemma_dedup_keeps_sizes(s: Seq<EraseType>)
    requires
        sorted_desc(s),
    ensures
        forall|i: int| 0 <= i < s.len() ==> has_size(dedup_sizes(s), #[trigger] s[i].size),
    decreases s.len(),
{
    if s.len() > 1 {
        let p = s.drop_last();
        assert(sorted_desc(p));
        lemma_dedup_keeps_sizes(p);
        lemma_dedup_shape(p);
        let d = dedup_sizes(p);
        let r = dedup_sizes(s);
        assert forall|i: int| 0 <= i < s.len() implies has_size(r, #[trigger] s[i].size) by {
            if i < s.len() - 1 {
                assert(s[i] == p[i]);
                assert(has_size(d, p[i].size));
                let j = choose|j: int| 0 <= j < d.len() && d[j].size == p[i].size;
                assert(r[j] == d[j]);
            } else if s.last().size == s[s.len() - 2].size {
                assert(r[r.len() - 1].size == s[i].size);
            } else {
                assert(r[r.len() - 1] == s[i]);
            }
        }
    } else if s.len() == 1 {
        assert(dedup_sizes(s)[0] == s[0]);
    }
}

proof fn lemma_first_smaller_unique(s: Seq<EraseType>, e: EraseType, p: int)
    requires
        0 <= p <= s.len(),
        forall|k: int| 0 <= k < p ==> s[k].size >= e.size,
        p < s.len() ==> s[p].size < e.size,
    ensures
        first_smaller(s, e.size) == p,
{
    lemma_first_smaller(s, e);
    let q = first_smaller(s, e.size);
    if q < p {
        assert(s[q].size >= e.size);
    }
    if p < q {
        assert(s[p].size >= e.size);
    }
}

/// Stable sort by size, largest first: entries of equal size keep their order.
pub fn sort_by_size_desc(v: &Vec<EraseType>) -> (r: Vec<EraseType>)
    ensures
        r@ == sort_desc(v@),
{
    let mut res: Vec<EraseType> = Vec::new();
    let n = v.len();
    let mut i: usize = 0;
    while i < n
        invariant
            n == v.len(),
            0 <= i <= n,
            res@ == sort_desc(v@.take(i as int)),
        decreases n - i,
    {
        let x = v[i];
        proof {
            lemma_sort_desc(v@.take(i as int));
        }
        let mut p: usize = 0;
        while p < res.len() && res[p].size >= x.size
            invariant
                0 <= p <= res.len(),
                forall|k: int| 0 <= k < p ==> res@[k].size >= x.size,
            decreases res.len() - p,
        {
            p = p + 1;
        }
        proof {
            lemma_first_smaller_unique(res@, x, p as int);
            lemma_first_smaller(res@, x);
            assert(v@.take(i + 1).drop_last() == v@.take(i as int));
            assert(v@.take(i + 1).last() == x);
            assert(res@.insert(p as int, x) == res@.take(p as int).push(x) + res@.skip(p as int));
        }
        res.insert(p, x);
        i = i + 1;
    }
    proof {
        assert(v@.take(n as int) == v@);
    }
    res
}

/// A copy of a list of erase types.
pub fn copy_erase_types(v: &Vec<EraseType>) -> (r: Vec<EraseType>)
    ensures
        r@ == v@,
{
    let mut r: Vec<EraseType> = Vec::new();
    let mut i: usize = 0;
    while i < v.len()
        invariant
            0 <= i <= v@.len(),
            r@ == v@.take(i as int),
        decreases v@.len() - i,
    {
        r.push(v[i]);
        i = i + 1;
        proof {
            assert(r@ == v@.take(i as int));
        }
    }
    proof {
        assert(v@.take(i as int) == v@);
    }
    r
}

/// A non-empty erase menu, sorted largest-size first, with unique sizes.
///
/// The invariant is upheld by `new`, so `largest`/`smallest` are total and the
/// planner never has to guess a fallback granularity.
#[derive(Debug, PartialEq, Eq)]
pub struct EraseMenu(Vec<EraseType>);

impl View for EraseMenu {
    type V = Seq<EraseType>;

    closed spec fn view(&self) -> Seq<EraseType> {
        self.0@
    }
}

/// Inserting an entry no larger than every entry of `s` appends it.
proof fn lemma_insert_last(s: Seq<EraseType>, e: EraseType)
    requires
        forall|i: int| 0 <= i < s.len() ==> (#[trigger] s[i]).size >= e.size,
    ensures
        insert_desc(s, e) == s.push(e),
    decreases s.len(),
{
    if s.len() > 0 {
        lemma_insert_last(s.drop_first(), e);
        assert(seq![s[0]] + s.drop_first().push(e) =~= s.push(e));
    }
}

/// Sorting a sequence that is already size-descending leaves it as it is.
pub proof fn lemma_sort_sorted(s: Seq<EraseType>)
    requires
        sorted_desc(s),
    ensures
        sort_desc(s) == s,
    decreases s.len(),
{
    if s.len() > 0 {
        let t = s.drop_last();
        assert(sorted_desc(t));
        lemma_sort_sorted(t);
        assert forall|i: int| 0 <= i < t.len() implies (#[trigger] t[i]).size >= s.last().size by {
            assert(t[i] == s[i]);
        }
        lemma_insert_last(t, s.last());
        assert(t.push(s.last()) =~= s);
    }
}

/// Sorting is idempotent: sorting a sorted sequence again changes nothing.
pub proof fn lemma_sort_idempotent(s: Seq<EraseType>)
    ensures
        sort_desc(sort_desc(s)) == sort_desc(s),
{
    lemma_sort_desc(s);
    lemma_sort_sorted(sort_desc(s));
}

/// Dropping repeated sizes from a strictly descending sequence leaves it as
/// it is.
proof fn lemma_dedup_strictly_desc(s: Seq<EraseType>)
    requires
        strictly_desc(s),
    ensures
        dedup_sizes(s) == s,
    decreases s.len(),
{
    if s.len() > 1 {
        let t = s.drop_last();
        assert(strictly_desc(t));
        lemma_dedup_strictly_desc(t);
        assert(s[s.len() - 2].size > s.last().size);
        assert(t.push(s.last()) =~= s);
    }
}

/// The first entry of `s` of size `z`, if any.
pub open spec fn first_of_size(s: Seq<EraseType>, z: usize) -> Option<EraseType>
    decreases s.len(),
{
    if s.len() == 0 {
        None
    } else if s[0].size == z {
        Some(s[0])
    } else {
        first_of_size(s.drop_first(), z)
    }
}

/// `first_of_size` finds an entry of `s` of that size exactly when there is one.
proof fn lemma_first_of_size_found(s: Seq<EraseType>, z: usize)
    ensures
        first_of_size(s, z) is None <==> !has_size(s, z),
        first_of_size(s, z) matches Some(e) ==> e.size == z && s.contains(e),
    decreases s.len(),
{
    if s.len() > 0 {
        let t = s.drop_first();
        lemma_first_of_size_found(t, z);
        if s[0].size != z {
            if has_size(s, z) {
                let j = choose|j: int| 0 <= j < s.len() && s[j].size == z;
                assert(t[j - 1] == s[j]);
            }
            if has_size(t, z) {
                let j = choose|j: int| 0 <= j < t.len() && t[j].size == z;
                assert(s[j + 1] == t[j]);
            }
            if first_of_size(t, z) is Some {
                let e = first_of_size(t, z).unwrap();
                let k = choose|k: int| 0 <= k < t.len() && t[k] == e;
                assert(s[k + 1] == e);
            }
        } else {
            assert(s.contains(s[0]));
        }
    }
}

/// Looking through `a + b`: `a` first, then `b`.
proof fn lemma_first_of_size_concat(a: Seq<EraseType>, b: Seq<EraseType>, z: usize)
    ensures
        first_of_size(a + b, z) == (if first_of_size(a, z) is Some {
            first_of_size(a, z)
        } else {
            first_of_size(b, z)
        }),
    decreases a.len(),
{
    if a.len() > 0 {
        lemma_first_of_size_concat(a.drop_first(), b, z);
        assert((a + b).drop_first() == a.drop_first() + b);
        assert((a + b)[0] == a[0]);
    } else {
        assert(a + b == b);
    }
}

/// Appending `x`: the first entry of size `z` stays, else `x` if it has it.
proof fn lemma_first_of_size_push(s: Seq<EraseType>, x: EraseType, z: usize)
    ensures
        first_of_size(s.push(x), z) == (if first_of_size(s, z) is Some {
            first_of_size(s, z)
        } else if x.size == z {
            Some(x)
        } else {
            None
        }),
{
    lemma_first_of_size_concat(s, seq![x], z);
    assert(s.push(x) == s + seq![x]);
    assert(seq![x].drop_first() =~= Seq::<EraseType>::empty());
    assert(first_of_size(Seq::<EraseType>::empty(), z) is None);
    assert(seq![x][0] == x);
    assert(first_of_size(seq![x], z) == (if x.size == z {
        Some(x)
    } else {
        None::<EraseType>
    }));
}

/// Inserting `x` into a sorted sequence puts it after every entry of its
/// size, so the first entry of each size is kept (or is `x` when it is new).
proof fn lemma_first_of_size_insert(t: Seq<EraseType>, x: EraseType, z: usize)
    requires
        sorted_desc(t),
    ensures
        first_of_size(insert_desc(t, x), z) == (if first_of_size(t, z) is Some {
            first_of_size(t, z)
        } else if x.size == z {
            Some(x)
        } else {
            None
        }),
{
    lemma_first_smaller(t, x);
    let p = first_smaller(t, x.size);
    let lo = t.take(p);
    let hi = t.skip(p);
    assert(t == lo + hi);
    lemma_first_of_size_concat(lo.push(x), hi, z);
    lemma_first_of_size_push(lo, x, z);
    lemma_first_of_size_concat(lo, hi, z);
    if z == x.size {
        assert(!has_size(hi, z)) by {
            if has_size(hi, z) {
                let j = choose|j: int| 0 <= j < hi.len() && hi[j].size == z;
                assert(hi[j] == t[p + j]);
                assert(t[p].size >= t[p + j].size);
            }
        }
        lemma_first_of_size_found(hi, z);
    }
}

/// Sorting keeps, for each size, the first entry of that size.
proof fn lemma_first_of_size_sort(s: Seq<EraseType>, z: usize)
    ensures
        first_of_size(sort_desc(s), z) == first_of_size(s, z),
    decreases s.len(),
{
    if s.len() > 0 {
        let p = s.drop_last();
        lemma_first_of_size_sort(p, z);
        lemma_sort_desc(p);
        lemma_first_of_size_insert(sort_desc(p), s.last(), z);
        assert(s == p.push(s.last()));
        lemma_first_of_size_push(p, s.last(), z);
    }
}

/// Dropping repeated sizes from a sorted sequence keeps, for each size,
/// the first entry of that size.
proof fn lemma_first_of_size_dedup(t: Seq<EraseType>)
    requires
        sorted_desc(t),
    ensures
        forall|j: int|
            0 <= j < dedup_sizes(t).len() ==> first_of_size(t, (#[trigger] dedup_sizes(t)[j]).size)
                == Some(dedup_sizes(t)[j]),
    decreases t.len(),
{
    let d = dedup_sizes(t);
    if t.len() == 1 {
        assert(t.drop_first() =~= Seq::<EraseType>::empty());
    } else if t.len() > 1 {
        let p = t.drop_last();
        let x = t.last();
        assert(sorted_desc(p));
        lemma_first_of_size_dedup(p);
        let dp = dedup_sizes(p);
        assert(t == p.push(x));
        assert forall|j: int| 0 <= j < dp.len() implies first_of_size(t, (#[trigger] dp[j]).size)
            == Some(dp[j]) by {
            lemma_first_of_size_push(p, x, dp[j].size);
        }
        if x.size != t[t.len() - 2].size {
            assert(!has_size(p, x.size)) by {
                if has_size(p, x.size) {
                    let k = choose|k: int| 0 <= k < p.len() && p[k].size == x.size;
                    assert(p[k] == t[k]);
                    assert(t[k].size >= t[t.len() - 2].size);
                    assert(t[t.len() - 2].size >= x.size);
                }
            }
            lemma_first_of_size_found(p, x.size);
            lemma_first_of_size_push(p, x, x.size);
            assert forall|j: int| 0 <= j < d.len() implies first_of_size(t, (#[trigger] d[j]).size)
                == Some(d[j]) by {
                if j < dp.len() {
                    assert(d[j] == dp[j]);
                } else {
                    assert(d[j] == x);
                }
            }
        }
    }
}

/// Menu law: building a menu from `v` (`EraseMenu::new`) gives entries of
/// strictly shrinking size, one for each size that occurs in `v` and no
/// other, and for each size the entry kept is the first entry of `v` with
/// that size; the menu is empty exactly when `v` is.
pub proof fn lemma_menu_new(v: Seq<EraseType>)
    ensures
        ({
            let m = dedup_sizes(sort_desc(v));
            &&& strictly_desc(m)
            &&& v.len() == 0 <==> m.len() == 0
            &&& forall|i: int| 0 <= i < v.len() ==> has_size(m, (#[trigger] v[i]).size)
            &&& forall|j: int| 0 <= j < m.len() ==> has_size(v, (#[trigger] m[j]).size)
            &&& forall|j: int| 0 <= j < m.len() ==> first_of_size(v, (#[trigger] m[j]).size) == Some(m[j])
        }),
{
    broadcast use vstd::seq_lib::group_to_multiset_ensures;
    let t = sort_desc(v);
    let m = dedup_sizes(t);
    lemma_sort_desc(v);
    lemma_dedup_shape(t);
    lemma_dedup_keeps_sizes(t);
    lemma_first_of_size_dedup(t);
    assert forall|i: int| 0 <= i < v.len() implies has_size(m, (#[trigger] v[i]).size) by {
        assert(v.to_multiset().count(v[i]) > 0);
        assert(t.to_multiset().count(v[i]) > 0);
        assert(t.contains(v[i]));
        let k = choose|k: int| 0 <= k < t.len() && t[k] == v[i];
        assert(has_size(m, t[k].size));
    }
    assert forall|j: int| 0 <= j < m.len() implies first_of_size(v, (#[trigger] m[j]).size) == Some(
        m[j],
    ) by {
        lemma_first_of_size_sort(v, m[j].size);
    }
    assert forall|j: int| 0 <= j < m.len() implies has_size(v, (#[trigger] m[j]).size) by {
        lemma_first_of_size_sort(v, m[j].size);
        lemma_first_of_size_found(v, m[j].size);
    }
    if v.len() == 0 {
        assert(t.len() == 0);
    }
}

/// Rebuild law: a well-formed menu built again from its own entries is the
/// same menu (sorting and dropping repeated sizes change nothing).
pub proof fn lemma_menu_rebuild(s: Seq<EraseType>)
    requires
        menu_wf(s),
    ensures
        dedup_sizes(sort_desc(s)) == s,
{
    lemma_sort_sorted(s);
    lemma_dedup_strictly_desc(s);
}

/// What a well-formed menu is: non-empty and strictly descending by size.
pub open spec fn menu_wf(s: Seq<EraseType>) -> bool {
    s.len() > 0 && strictly_desc(s)
}

impl EraseMenu {
    #[verifier::type_invariant]
    spec fn inv(self) -> bool {
        menu_wf(self.0@)
    }

    /// Build a menu, sorting largest-first and dropping duplicate sizes
    /// (the first entry of each size, in input order, is kept).
    /// `None` for empty input.
    pub fn new(types: Vec<EraseType>) -> (m: Option<Self>)
        ensures
            types@.len() == 0 <==> m is None,
            m matches Some(m) ==> m@ == dedup_sizes(sort_desc(types@)) && menu_wf(m@),
    {
        if types.len() == 0 {
            return None;
        }
        let sorted = sort_by_size_desc(&types);
        proof {
            lemma_sort_desc(types@);
        }
        let mut res: Vec<EraseType> = Vec::new();
        let n = sorted.len();
        let mut i: usize = 0;
        while i < n
            invariant
                n == sorted.len(),
                sorted_desc(sorted@),
                0 <= i <= n,
                res@ == dedup_sizes(sorted@.take(i as int)),
            decreases n - i,
        {
            let x = sorted[i];
            proof {
                let t = sorted@.take(i + 1);
                assert(t.drop_last() == sorted@.take(i as int));
                assert(t.last() == x);
                assert(sorted_desc(sorted@.take(i as int)));
                lemma_dedup_shape(sorted@.take(i as int));
                if i > 0 {
                    assert(t[t.len() - 2] == sorted@[i - 1]);
                    assert(sorted@.take(i as int).last() == sorted@[i - 1]);
                } else {
                    assert(dedup_sizes(sorted@.take(0)) == Seq::<EraseType>::empty());
                    assert(t == seq![x]);
                }
            }
            if res.len() == 0 || res[res.len() - 1].size != x.size {
                res.push(x);
            }
            i = i + 1;
        }
        proof {
            assert(sorted@.take(n as int) == sorted@);
            lemma_dedup_shape(sorted@);
        }
        Some(EraseMenu(res))
    }

    /// Largest granularity (first, by the sort invariant).
    pub fn largest(&self) -> (e: EraseType)
        ensures
            e == self@[0],
            menu_wf(self@),
    {
        proof {
            use_type_invariant(self);
        }
        self.0[0]
    }

    /// Smallest granularity (last, by the sort invariant).
    pub fn smallest(&self) -> (e: EraseType)
        ensures
            e == self@.last(),
            menu_wf(self@),
    {
        proof {
            use_type_invariant(self);
        }
        self.0[self.0.len() - 1]
    }

    /// The granularities in menu order, largest first.
    pub fn iter(&self) -> (v: Vec<EraseType>)
        ensures
            v@ == self@,
            menu_wf(self@),
    {
        proof {
            use_type_invariant(self);
        }
        let mut v: Vec<EraseType> = Vec::new();
        let mut i: usize = 0;
        while i < self.0.len()
            invariant
                0 <= i <= self.0@.len(),
                v@ == self.0@.take(i as int),
            decreases self.0@.len() - i,
        {
            v.push(self.0[i]);
            i = i + 1;
            proof {
                assert(v@ == self.0@.take(i as int));
            }
        }
        proof {
            assert(self.0@.take(i as int) == self.0@);
        }
        v
    }

    /// An equal copy of this menu.
    pub fn duplicate(&self) -> (m: EraseMenu)
        ensures
            m@ == self@,
    {
        proof {
            use_type_invariant(self);
        }
        let v = self.iter();
        EraseMenu(v)
    }
}

/// How a `FlashProfile` was resolved.
#[derive(Debug, Clone, Copy, PartialEq, Eq, Structural)]
pub enum ProfileSource {
    Sfdp,
    Table,
}

/// How to talk to the flash: geometry + erase menu.
#[derive(Debug, PartialEq, Eq)]
pub struct FlashProfile {
    pub page_size: usize,
    pub address_width: AddressWidth,
    /// Bytes, if known.
    pub capacity: Option<usize>,
    pub erase: EraseMenu,
    pub source: ProfileSource,
    /// (major, minor) when `source == Sfdp`.
    pub sfdp_revision: Option<(u8, u8)>,
}

/// Two profiles describe the same geometry, field by field.
pub open spec fn same_profile(a: FlashProfile, b: FlashProfile) -> bool {
    &&& a.page_size == b.page_size
    &&& a.address_width == b.address_width
    &&& a.capacity == b.capacity
    &&& a.erase@ == b.erase@
    &&& a.source == b.source
    &&& a.sfdp_revision == b.sfdp_revision
}

impl FlashProfile {
    /// The smallest erase granularity in bytes.
    pub open spec fn spec_min_erase(&self) -> usize {
        self.erase@.last().size
    }

    pub fn min_erase(&self) -> (n: usize)
        ensures
            n == self.spec_min_erase(),
            menu_wf(self.erase@),
    {
        self.erase.smallest().size
    }

    /// A copy of this profile.
    pub fn duplicate(&self) -> (p: FlashProfile)
        ensures
            same_profile(p, *self),
    {
        FlashProfile {
            page_size: self.page_size,
            address_width: self.address_width,
            capacity: self.capacity,
            erase: self.erase.duplicate(),
            source: self.source,
            sfdp_revision: self.sfdp_revision,
        }
    }
}

/// One planned erase: which granularity to apply at which address.
#[derive(Debug, Clone, Copy, PartialEq, Eq, Structural)]
pub struct EraseOp {
    pub addr: usize,
    pub ty: EraseType,
}

/// A resolved erase plan: the ordered ops covering a region.
#[derive(Debug, PartialEq, Eq)]
pub struct ErasePlan {
    ops: Vec<EraseOp>,
}

impl View for ErasePlan {
    type V = Seq<EraseOp>;

    closed spec fn view(&self) -> Seq<EraseOp> {
        self.ops@
    }
}

impl ErasePlan {
    pub fn is_empty(&self) -> (b: bool)
        ensures
            b == (self@.len() == 0),
    {
        self.ops.len() == 0
    }

    /// Number of erase operations (the progress-bar length).
    pub fn blocks(&self) -> (n: usize)
        ensures
            n == self@.len(),
    {
        self.ops.len()
    }

    pub fn ops(&self) -> (ops: &[EraseOp])
        ensures
            ops@ == self@,
    {
        self.ops.as_slice()
    }
}

/// `x` rounded up to a multiple of `m`.
pub open spec fn round_up(x: int, m: int) -> int {
    if x % m == 0 {
        x
    } else {
        x - x % m + m
    }
}

/// The greedy choice at address `a`: the first (largest) menu entry from
/// index `i` on that is aligned at `a` and does not reach past `end_aligned`;
/// the smallest entry when none is.
pub open spec fn pick_erase(menu: Seq<EraseType>, a: int, end_aligned: int, i: int) -> EraseType
    decreases menu.len() - i,
{
    if i < 0 || i >= menu.len() {
        menu.last()
    } else if a % (menu[i].size as int) == 0 && a + menu[i].size <= end_aligned {
        menu[i]
    } else {
        pick_erase(menu, a, end_aligned, i + 1)
    }
}

/// The ops the greedy planner emits from address `a` until it passes `end`.
pub open spec fn erase_ops_from(menu: Seq<EraseType>, a: int, end: int, end_aligned: int) -> Seq<
    EraseOp,
>
    decreases (if end > a {
        end - a
    } else {
        0
    }),
{
    if a >= end {
        Seq::empty()
    } else {
        let ty = pick_erase(menu, a, end_aligned, 0);
        if ty.size == 0 {
            Seq::empty()
        } else {
            seq![EraseOp { addr: a as usize, ty }] + erase_ops_from(menu, a + ty.size, end, end_aligned)
        }
    }
}

/// The plan for `[offset, offset+len)`: start at `offset` rounded down to the
/// smallest granularity, stop once the region's end is passed.
pub open spec fn spec_plan_erase(menu: Seq<EraseType>, offset: int, len: int) -> Seq<EraseOp> {
    if len == 0 {
        Seq::empty()
    } else {
        let min = menu.last().size as int;
        erase_ops_from(menu, offset - offset % min, offset + len, round_up(offset + len, min))
    }
}

proof fn lemma_pick_erase(menu: Seq<EraseType>, a: int, end_aligned: int, i: int)
    requires
        menu_wf(menu),
        0 <= i,
    ensures
        menu.contains(pick_erase(menu, a, end_aligned, i)),
        pick_erase(menu, a, end_aligned, i) == menu.last() || (a % (pick_erase(
            menu,
            a,
            end_aligned,
            i,
        ).size as int) == 0 && a + pick_erase(menu, a, end_aligned, i).size <= end_aligned),
    decreases menu.len() - i,
{
    if i < menu.len() {
        lemma_pick_erase(menu, a, end_aligned, i + 1);
    }
    assert(menu.contains(menu[menu.len() - 1]));
    if i < menu.len() {
        assert(menu.contains(menu[i]));
    }
}

/// Every erase size is a whole number of smallest granularities (true of
/// power-of-two sizes): a plan then stays on the smallest granularity's grid.
pub open spec fn sizes_on_grid(menu: Seq<EraseType>) -> bool {
    forall|i: int|
        0 <= i < menu.len() ==> (#[trigger] menu[i]).size as int % menu.last().size as int == 0
}

/// The planner's arithmetic stays within `usize` for `[offset, offset+len)`:
/// the region's end rounded up to the smallest granularity fits; and when
/// some size is not a multiple of the smallest, the plan can step off that
/// grid and one smallest granularity past the region's end must fit too.
pub open spec fn plan_fits(menu: Seq<EraseType>, offset: int, len: int) -> bool {
    len > 0 ==> {
        &&& menu.last().size > 0
        &&& round_up(offset + len, menu.last().size as int) <= usize::MAX
        &&& (sizes_on_grid(menu) || offset + len + menu.last().size <= usize::MAX)
    }
}

/// Whether the planner's arithmetic fits `usize` for `[offset, offset+len)`
/// under `profile` (the precondition of `plan_erase`).
pub fn plan_fits_for(profile: &FlashProfile, offset: usize, len: usize) -> (b: bool)
    ensures
        b == plan_fits(profile.erase@, offset as int, len as int),
{
    if len == 0 {
        return true;
    }
    let min = profile.min_erase();
    if min == 0 {
        return false;
    }
    let end = match offset.checked_add(len) {
        Some(e) => e,
        None => {
            assert(round_up(offset + len, min as int) >= offset + len) by (nonlinear_arith)
                requires
                    min > 0,
            ;
            return false;
        },
    };
    let rem = end % min;
    assert(end % min <= end) by (nonlinear_arith)
        requires
            min > 0,
    ;
    if rem != 0 && (end - rem).checked_add(min).is_none() {
        return false;
    }
    if end.checked_add(min).is_some() {
        return true;
    }
    let menu = profile.erase.iter();
    let mut i: usize = 0;
    while i < menu.len()
        invariant
            0 <= i <= menu@.len(),
            menu@ == profile.erase@,
            min == menu@.last().size,
            min > 0,
            len > 0,
            end == offset + len,
            end + min > usize::MAX,
            round_up(end as int, min as int) <= usize::MAX,
            forall|k: int| 0 <= k < i ==> (#[trigger] menu@[k]).size as int % min as int == 0,
        decreases menu@.len() - i,
    {
        if menu[i].size % min != 0 {
            proof {
                assert(profile.erase@[i as int].size as int % min as int != 0);
                assert(!sizes_on_grid(profile.erase@));
            }
            return false;
        }
        i = i + 1;
    }
    true
}

/// Plan a minimal-ish erase covering `[offset, offset+len)`. Greedily takes the
/// largest address-aligned erase type that does not overshoot past the region
/// (rounded up to the smallest granularity), else the smallest. The returned
/// plan is executed verbatim, in order.
pub fn plan_erase(profile: &FlashProfile, offset: usize, len: usize) -> (plan: ErasePlan)
    requires
        plan_fits(profile.erase@, offset as int, len as int),
    ensures
        plan@ == spec_plan_erase(profile.erase@, offset as int, len as int),
{
    let mut ops: Vec<EraseOp> = Vec::new();
    if len == 0 {
        return ErasePlan { ops };
    }
    let min = profile.min_erase();
    let smallest = profile.erase.smallest();
    proof {
        use_type_invariant(&profile.erase);
    }
    let menu = &profile.erase.0;
    let ghost m = menu@;
    let ghost grid = sizes_on_grid(m);
    proof {
        assert forall|k: int| 0 <= k < m.len() implies #[trigger] m[k].size > 0 by {
            if k < m.len() - 1 {
                assert(m[k].size > m[m.len() - 1].size);
            }
        }
    }
    let end = offset + len;
    let rem = end % min;
    assert(end % min <= end) by (nonlinear_arith)
        requires
            min > 0,
    ;
    let end_aligned = if rem == 0 {
        end
    } else {
        end - rem + min
    };
    assert(end_aligned % min == 0 && end <= end_aligned < end + min) by (nonlinear_arith)
        requires
            min > 0,
            rem == end % min,
            end_aligned == (if rem == 0 {
                end as int
            } else {
                end - rem + min
            }),
    ;
    assert(offset % min <= offset && (offset - offset % min) % (min as int) == 0) by (nonlinear_arith)
        requires
            min > 0,
    ;
    let mut a = offset - offset % min;
    let ghost a0 = a as int;
    while a < end
        invariant
            m == profile.erase@,
            m == menu@,
            menu_wf(m),
            smallest == m.last(),
            min == smallest.size,
            min > 0,
            forall|k: int| 0 <= k < m.len() ==> #[trigger] m[k].size > 0,
            end == offset + len,
            end_aligned == round_up(end as int, min as int),
            end_aligned % min == 0,
            end <= end_aligned < end + min,
            grid == sizes_on_grid(m),
            grid ==> a % min == 0,
            !grid ==> end + min <= usize::MAX,
            a <= end + min,
            grid ==> a <= end_aligned,
            ops@ + erase_ops_from(m, a as int, end as int, end_aligned as int) == erase_ops_from(
                m,
                a0,
                end as int,
                end_aligned as int,
            ),
        decreases end + min - a,
    {
        let mut i: usize = 0;
        let mut ty = smallest;
        while i < menu.len()
            invariant_except_break
                m == menu@,
                0 <= i <= m.len(),
                forall|k: int| 0 <= k < m.len() ==> #[trigger] m[k].size > 0,
                pick_erase(m, a as int, end_aligned as int, 0) == pick_erase(
                    m,
                    a as int,
                    end_aligned as int,
                    i as int,
                ),
                ty == smallest,
                smallest == m.last(),
                a < end <= end_aligned,
            ensures
                ty == pick_erase(m, a as int, end_aligned as int, 0),
            decreases m.len() - i,
        {
            let e = menu[i];
            if a % e.size == 0 && e.size <= end_aligned - a {
                ty = e;
                break;
            }
            i = i + 1;
        }
        assert(ty == pick_erase(m, a as int, end_aligned as int, 0));
        proof {
            lemma_pick_erase(m, a as int, end_aligned as int, 0);
            let k = choose|k: int| 0 <= k < m.len() && m[k] == ty;
            assert(m[k].size > 0);
            if grid {
                assert(ty.size as int % min as int == 0);
                let aa = a as int;
                let ea = end_aligned as int;
                let z = ty.size as int;
                let mi = min as int;
                assert(aa + mi <= ea) by (nonlinear_arith)
                    requires
                        mi > 0,
                        aa % mi == 0,
                        ea % mi == 0,
                        aa < ea,
                ;
                vstd::arithmetic::div_mod::lemma_mod_adds(aa, z, mi);
            }
        }
        let ghost rest = erase_ops_from(m, a + ty.size, end as int, end_aligned as int);
        assert(erase_ops_from(m, a as int, end as int, end_aligned as int) == seq![
            EraseOp { addr: a, ty },
        ] + rest);
        ops.push(EraseOp { addr: a, ty });
        a = a + ty.size;
        assert(ops@ + rest == erase_ops_from(m, a0, end as int, end_aligned as int));
    }
    ErasePlan { ops }
}

/// Op `i` of `ops` erases byte `x`.
pub open spec fn op_covers(ops: Seq<EraseOp>, i: int, x: int) -> bool {
    0 <= i < ops.len() && ops[i].addr <= x < ops[i].addr + ops[i].ty.size
}

/// Some op of `ops` erases byte `x`.
pub open spec fn byte_erased(ops: Seq<EraseOp>, x: int) -> bool {
    exists|i: int| #[trigger] op_covers(ops, i, x)
}

proof fn lemma_ops_from(menu: Seq<EraseType>, a: int, end: int, ea: int)
    requires
        menu_wf(menu),
        menu.last().size > 0,
        0 <= a,
        end <= ea <= usize::MAX,
    ensures
        ({
            let ops = erase_ops_from(menu, a, end, ea);
            &&& a < end ==> ops.len() > 0 && ops[0].addr == a
            &&& a < end ==> ops.last().addr + ops.last().ty.size >= end
            &&& forall|i: int|
                #![trigger ops[i]] 0 <= i < ops.len() - 1 ==> ops[i + 1].addr == ops[i].addr + ops[i].ty.size
            &&& forall|i: int| 0 <= i < ops.len() ==> a <= #[trigger] ops[i].addr < end
            &&& forall|i: int| 0 <= i < ops.len() ==> menu.contains(#[trigger] ops[i].ty)
            &&& forall|i: int|
                0 <= i < ops.len() ==> #[trigger] ops[i].ty == menu.last() || ((ops[i].addr as int) % (
                ops[i].ty.size as int) == 0 && ops[i].addr + ops[i].ty.size <= ea)
            &&& forall|x: int| a <= x < end ==> #[trigger] byte_erased(ops, x)
        }),
    decreases (if end > a {
        end - a
    } else {
        0
    }),
{
    if a < end {
        let ty = pick_erase(menu, a, ea, 0);
        lemma_pick_erase(menu, a, ea, 0);
        let k = choose|k: int| 0 <= k < menu.len() && menu[k] == ty;
        if k < menu.len() - 1 {
            assert(menu[k].size > menu[menu.len() - 1].size);
        }
        assert(ty.size > 0);
        let rest = erase_ops_from(menu, a + ty.size, end, ea);
        lemma_ops_from(menu, a + ty.size, end, ea);
        let ops = erase_ops_from(menu, a, end, ea);
        let head = EraseOp { addr: a as usize, ty };
        assert(ops == seq![head] + rest);
        assert forall|i: int| #![trigger ops[i]] 0 <= i < ops.len() - 1 implies ops[i + 1].addr
            == ops[i].addr + ops[i].ty.size by {
            if i > 0 {
                assert(ops[i] == rest[i - 1]);
                assert(ops[i + 1] == rest[i]);
            } else {
                assert(ops[1] == rest[0]);
                assert(a + ty.size < end);
                assert(rest[0].addr == a + ty.size);
            }
        }
        assert forall|i: int| 0 <= i < ops.len() implies a <= #[trigger] ops[i].addr < end by {
            if i > 0 {
                assert(ops[i] == rest[i - 1]);
            }
        }
        assert forall|i: int| 0 <= i < ops.len() implies menu.contains(#[trigger] ops[i].ty) by {
            if i > 0 {
                assert(ops[i] == rest[i - 1]);
            }
        }
        assert forall|i: int| 0 <= i < ops.len() implies #[trigger] ops[i].ty == menu.last() || (
        (ops[i].addr as int) % (ops[i].ty.size as int) == 0 && ops[i].addr + ops[i].ty.size <= ea) by {
            if i > 0 {
                assert(ops[i] == rest[i - 1]);
            }
        }
        assert forall|x: int| a <= x < end implies #[trigger] byte_erased(ops, x) by {
            if x < a + ty.size {
                assert(op_covers(ops, 0, x));
            } else {
                assert(byte_erased(rest, x));
                let i = choose|i: int| #[trigger] op_covers(rest, i, x);
                assert(ops[i + 1] == rest[i]);
                assert(op_covers(ops, i + 1, x));
            }
        }
        if rest.len() > 0 {
            assert(ops.last() == rest.last());
        }
    }
}

/// The greedy choice from index `i` on is the first fitting entry: every
/// entry from `i` on that is larger than the choice does not fit at `a`.
proof fn lemma_pick_first(menu: Seq<EraseType>, a: int, ea: int, i: int)
    requires
        menu_wf(menu),
        0 <= i,
    ensures
        forall|j: int|
            i <= j < menu.len() && (#[trigger] menu[j]).size > pick_erase(menu, a, ea, i).size ==> !(a
                % (menu[j].size as int) == 0 && a + menu[j].size <= ea),
    decreases menu.len() - i,
{
    if i < menu.len() {
        if !(a % (menu[i].size as int) == 0 && a + menu[i].size <= ea) {
            lemma_pick_first(menu, a, ea, i + 1);
        } else {
            assert forall|j: int|
                i <= j < menu.len() && (#[trigger] menu[j]).size > pick_erase(
                    menu,
                    a,
                    ea,
                    i,
                ).size implies !(a % (menu[j].size as int) == 0 && a + menu[j].size <= ea) by {
                if j > i {
                    assert(menu[i].size > menu[j].size);
                }
            }
        }
    }
}

/// Each op of the plan from `a` on uses the greedy choice at its address.
proof fn lemma_ops_pick(menu: Seq<EraseType>, a: int, end: int, ea: int)
    requires
        menu_wf(menu),
        menu.last().size > 0,
        0 <= a,
        end <= ea <= usize::MAX,
    ensures
        ({
            let ops = erase_ops_from(menu, a, end, ea);
            forall|i: int|
                0 <= i < ops.len() ==> (#[trigger] ops[i]).ty == pick_erase(
                    menu,
                    ops[i].addr as int,
                    ea,
                    0,
                )
        }),
    decreases (if end > a {
        end - a
    } else {
        0
    }),
{
    if a < end {
        let ty = pick_erase(menu, a, ea, 0);
        lemma_pick_erase(menu, a, ea, 0);
        let k = choose|k: int| 0 <= k < menu.len() && menu[k] == ty;
        if k < menu.len() - 1 {
            assert(menu[k].size > menu[menu.len() - 1].size);
        }
        let rest = erase_ops_from(menu, a + ty.size, end, ea);
        lemma_ops_pick(menu, a + ty.size, end, ea);
        let ops = erase_ops_from(menu, a, end, ea);
        assert(ops == seq![EraseOp { addr: a as usize, ty }] + rest);
        assert forall|i: int| 0 <= i < ops.len() implies (#[trigger] ops[i]).ty == pick_erase(
            menu,
            ops[i].addr as int,
            ea,
            0,
        ) by {
            if i > 0 {
                assert(ops[i] == rest[i - 1]);
            }
        }
    }
}

/// Greedy law: every op of a plan uses the largest granularity that fits at
/// its address. No larger menu entry is aligned there and ends at or before
/// the region's end rounded up to the smallest granularity.
pub proof fn lemma_plan_erase_greedy(menu: Seq<EraseType>, offset: usize, len: usize)
    requires
        menu_wf(menu),
        plan_fits(menu, offset as int, len as int),
    ensures
        ({
            let ops = spec_plan_erase(menu, offset as int, len as int);
            let ea = round_up(offset + len, menu.last().size as int);
            forall|i: int, k: int|
                #![trigger ops[i], menu[k]]
                0 <= i < ops.len() && 0 <= k < menu.len() && menu[k].size > ops[i].ty.size ==> !((
                ops[i].addr as int) % (menu[k].size as int) == 0 && ops[i].addr + menu[k].size <= ea)
        }),
{
    if len > 0 {
        let min = menu.last().size as int;
        let o = offset as int;
        let end = offset + len;
        let ea = round_up(end, min);
        assert(0 <= o % min < min && o % min <= o) by (nonlinear_arith)
            requires
                min > 0,
                o >= 0,
        ;
        assert(0 <= end % min < min && end % min <= end) by (nonlinear_arith)
            requires
                min > 0,
                end >= 0,
        ;
        lemma_ops_pick(menu, o - o % min, end, ea);
        let ops = spec_plan_erase(menu, offset as int, len as int);
        assert forall|i: int, k: int|
            #![trigger ops[i], menu[k]]
            0 <= i < ops.len() && 0 <= k < menu.len() && menu[k].size > ops[i].ty.size implies !((
            ops[i].addr as int) % (menu[k].size as int) == 0 && ops[i].addr + menu[k].size
            <= ea) by {
            lemma_pick_first(menu, ops[i].addr as int, ea, 0);
        }
    }
}

/// From an address on the largest granularity's grid up to a region end on
/// that grid, the plan is the largest blocks back to back.
proof fn lemma_ops_whole_blocks(menu: Seq<EraseType>, a: int, end: int)
    requires
        menu_wf(menu),
        menu[0].size > 0,
        0 <= a <= end <= usize::MAX,
        a % (menu[0].size as int) == 0,
        end % (menu[0].size as int) == 0,
    ensures
        ({
            let ops = erase_ops_from(menu, a, end, end);
            let big = menu[0].size as int;
            &&& ops.len() * big == end - a
            &&& forall|i: int|
                0 <= i < ops.len() ==> (#[trigger] ops[i]).ty == menu[0] && ops[i].addr == a + i * big
        }),
    decreases end - a,
{
    let big = menu[0].size as int;
    let ops = erase_ops_from(menu, a, end, end);
    if a < end {
        assert(a + big <= end) by (nonlinear_arith)
            requires
                big > 0,
                a % big == 0,
                end % big == 0,
                a < end,
        ;
        assert(pick_erase(menu, a, end, 0) == menu[0]);
        vstd::arithmetic::div_mod::lemma_mod_adds(a, big, big);
        vstd::arithmetic::div_mod::lemma_mod_self_0(big);
        lemma_ops_whole_blocks(menu, a + big, end);
        let rest = erase_ops_from(menu, a + big, end, end);
        assert(ops == seq![EraseOp { addr: a as usize, ty: menu[0] }] + rest);
        assert(ops.len() * big == end - a) by (nonlinear_arith)
            requires
                ops.len() == rest.len() + 1,
                rest.len() * big == end - (a + big),
        ;
        assert forall|i: int| 0 <= i < ops.len() implies (#[trigger] ops[i]).ty == menu[0]
            && ops[i].addr == a + i * big by {
            if i > 0 {
                assert(ops[i] == rest[i - 1]);
                assert(a + big + (i - 1) * big == a + i * big) by (nonlinear_arith);
            }
        }
    } else {
        assert(ops.len() == 0);
    }
}

/// Whole-block law: a region that starts and ends on the largest
/// granularity's grid, with every granularity a divisor chain of the
/// largest (sizes on the smallest's grid and the largest on every other's),
/// is planned as exactly its largest blocks, back to back from `offset`.
pub proof fn lemma_plan_erase_whole_blocks(menu: Seq<EraseType>, offset: usize, len: usize)
    requires
        menu_wf(menu),
        menu.last().size > 0,
        len > 0,
        offset as int % (menu[0].size as int) == 0,
        len as int % (menu[0].size as int) == 0,
        (menu[0].size as int) % (menu.last().size as int) == 0,
        offset + len <= usize::MAX,
    ensures
        ({
            let ops = spec_plan_erase(menu, offset as int, len as int);
            let big = menu[0].size as int;
            &&& ops.len() * big == len
            &&& forall|i: int|
                0 <= i < ops.len() ==> (#[trigger] ops[i]).ty == menu[0] && ops[i].addr == offset
                    + i * big
        }),
{
    let big = menu[0].size as int;
    let min = menu.last().size as int;
    let o = offset as int;
    let end = o + len;
    assert(big >= min) by {
        if menu.len() > 1 {
            assert(menu[0].size > menu[menu.len() - 1].size);
        }
    }
    let l = len as int;
    vstd::arithmetic::div_mod::lemma_fundamental_div_mod(o, big);
    vstd::arithmetic::div_mod::lemma_fundamental_div_mod(l, big);
    vstd::arithmetic::div_mod::lemma_fundamental_div_mod(big, min);
    let qo = o / big;
    let ql = l / big;
    let qb = big / min;
    assert(end == (qo + ql) * big) by (nonlinear_arith)
        requires
            o == big * qo,
            l == big * ql,
            end == o + l,
    ;
    assert(end == (qb * (qo + ql)) * min) by (nonlinear_arith)
        requires
            end == (qo + ql) * big,
            big == min * qb,
    ;
    assert(o == (qb * qo) * min) by (nonlinear_arith)
        requires
            o == big * qo,
            big == min * qb,
    ;
    vstd::arithmetic::div_mod::lemma_mod_multiples_basic(qo + ql, big);
    vstd::arithmetic::div_mod::lemma_mod_multiples_basic(qb * (qo + ql), min);
    vstd::arithmetic::div_mod::lemma_mod_multiples_basic(qb * qo, min);
    assert(o % min == 0 && end % min == 0 && end % big == 0);
    assert(round_up(end, min) == end);
    lemma_ops_whole_blocks(menu, o, end);
}

/// The erase plan covers its region: for a non-empty region the plan starts
/// at `offset` rounded down to the smallest granularity, its ops lie back to
/// back, each starts inside the region, every byte of the region is erased by
/// some op, every op uses a granularity of the menu, and every op that does
/// not use the smallest granularity is aligned to its size and ends no later
/// than the region's end rounded up to the smallest granularity. An empty
/// region gets an empty plan.
pub proof fn lemma_plan_erase_covers(menu: Seq<EraseType>, offset: usize, len: usize)
    requires
        menu_wf(menu),
        plan_fits(menu, offset as int, len as int),
    ensures
        ({
            let ops = spec_plan_erase(menu, offset as int, len as int);
            let min = menu.last().size as int;
            let end = offset + len;
            &&& len == 0 <==> ops.len() == 0
            &&& len > 0 ==> ops[0].addr == offset as int - (offset as int) % min
            &&& forall|i: int|
                #![trigger ops[i]] 0 <= i < ops.len() - 1 ==> ops[i + 1].addr == ops[i].addr + ops[i].ty.size
            &&& forall|i: int| 0 <= i < ops.len() ==> #[trigger] ops[i].addr < end
            &&& forall|x: int| offset <= x < end ==> #[trigger] byte_erased(ops, x)
            &&& forall|i: int| 0 <= i < ops.len() ==> menu.contains(#[trigger] ops[i].ty)
            &&& forall|i: int|
                0 <= i < ops.len() ==> #[trigger] ops[i].ty == menu.last() || ((ops[i].addr as int) % (
                ops[i].ty.size as int) == 0 && ops[i].addr + ops[i].ty.size <= round_up(end, min))
        }),
{
    if len > 0 {
        let min = menu.last().size as int;
        let o = offset as int;
        let end = offset + len;
        assert(0 <= o % min < min && o % min <= o) by (nonlinear_arith)
            requires
                min > 0,
                o >= 0,
        ;
        assert(0 <= end % min < min && end % min <= end) by (nonlinear_arith)
            requires
                min > 0,
                end >= 0,
        ;
        lemma_ops_from(menu, o - o % min, end, round_up(end, min));
    }
}

} // verus!
