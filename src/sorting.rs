use vstd::prelude::*;
use vstd::utf8::encode_utf8;
use crate::package::{AurPackage, PackageView, packages_view};

verus! {

/// The orders in which a result list can be shown.
#[derive(Clone, Copy, PartialEq, Eq, Structural)]
pub enum SortMode {
    Popularity,
    Votes,
    Alphabetical,
    LastModified,
}

/// The mode at position `i` of the sort menu; an unknown position means popularity.
pub fn sort_mode_at(i: u32) -> (r: SortMode)
    ensures
        i == 1 ==> r == SortMode::Votes,
        i == 2 ==> r == SortMode::Alphabetical,
        i == 3 ==> r == SortMode::LastModified,
        i != 1 && i != 2 && i != 3 ==> r == SortMode::Popularity,
{
    if i == 1 {
        SortMode::Votes
    } else if i == 2 {
        SortMode::Alphabetical
    } else if i == 3 {
        SortMode::LastModified
    } else {
        SortMode::Popularity
    }
}

/// The numeric field that a numeric mode orders by, a missing value counting as 0.
pub open spec fn sort_key(mode: SortMode, p: PackageView) -> int {
    match mode {
        SortMode::Popularity => match p.popularity_bits {
            Some(b) => b as int,
            None => 0,
        },
        SortMode::Votes => match p.votes {
            Some(v) => v as int,
            None => 0,
        },
        SortMode::LastModified => match p.last_modified {
            Some(t) => t as int,
            None => 0,
        },
        SortMode::Alphabetical => 0,
    }
}

/// Lexicographic order on byte strings, as `Ord` on `[u8]` defines it.
pub open spec fn bytes_less(a: Seq<u8>, b: Seq<u8>) -> bool
    decreases a.len(),
{
    if a.len() == 0 {
        b.len() > 0
    } else if b.len() == 0 {
        false
    } else if a[0] != b[0] {
        a[0] < b[0]
    } else {
        bytes_less(a.drop_first(), b.drop_first())
    }
}

/// `a < b` on names, as `Ord` on `String` defines it: by their UTF-8 bytes.
pub open spec fn name_less(a: Seq<char>, b: Seq<char>) -> bool {
    bytes_less(encode_utf8(a), encode_utf8(b))
}

/// `a` is shown strictly before `b` under `mode`: numeric modes put the
/// larger value first, the alphabetical mode the smaller name.
pub open spec fn ranks_before(mode: SortMode, a: PackageView, b: PackageView) -> bool {
    match mode {
        SortMode::Alphabetical => name_less(a.name, b.name),
        _ => sort_key(mode, a) > sort_key(mode, b),
    }
}

/// The element at position `i` of `input` is shown before the one at `j`:
/// by `ranks_before`, and on a tie by their positions in `input`.
pub open spec fn goes_before(mode: SortMode, input: Seq<PackageView>, i: int, j: int) -> bool {
    ranks_before(mode, input[i], input[j]) || (!ranks_before(mode, input[j], input[i]) && i < j)
}

/// `perm` lists each of `0..n` exactly once.
pub open spec fn is_index_permutation(perm: Seq<int>, n: int) -> bool {
    &&& perm.len() == n
    &&& perm.no_duplicates()
    &&& forall|k: int| 0 <= k < n ==> 0 <= #[trigger] perm[k] < n
    &&& forall|x: int| 0 <= x < n ==> #[trigger] perm.contains(x)
}

/// `output` is `input` rearranged by `perm`, each element before every one
/// that it goes before: the stable sort of `input` under `mode`.
pub open spec fn is_stable_sort(
    mode: SortMode,
    input: Seq<PackageView>,
    output: Seq<PackageView>,
    perm: Seq<int>,
) -> bool {
    &&& is_index_permutation(perm, input.len() as int)
    &&& output.len() == input.len()
    &&& output.to_multiset() == input.to_multiset()
    &&& forall|k: int| 0 <= k < output.len() ==> #[trigger] output[k] == input[perm[k]]
    &&& forall|k: int, l: int|
        0 <= k < l < output.len() ==> goes_before(mode, input, #[trigger] perm[k], #[trigger] perm[l])
}

/// `output` is the stable sort of `input` under `mode`.
pub open spec fn sorted_by(mode: SortMode, input: Seq<PackageView>, output: Seq<PackageView>) -> bool {
    exists|perm: Seq<int>| is_stable_sort(mode, input, output, perm)
}

proof fn lemma_bytes_less_asymmetric(a: Seq<u8>, b: Seq<u8>)
    ensures
        !(bytes_less(a, b) && bytes_less(b, a)),
    decreases a.len(),
{
    if a.len() > 0 && b.len() > 0 && a[0] == b[0] {
        lemma_bytes_less_asymmetric(a.drop_first(), b.drop_first());
    }
}

proof fn lemma_bytes_less_negative_transitive(a: Seq<u8>, b: Seq<u8>, c: Seq<u8>)
    requires
        bytes_less(a, c),
    ensures
        bytes_less(a, b) || bytes_less(b, c),
    decreases a.len(),
{
    if a.len() > 0 && b.len() > 0 && c.len() > 0 && a[0] == b[0] && b[0] == c[0] {
        lemma_bytes_less_negative_transitive(a.drop_first(), b.drop_first(), c.drop_first());
    }
}

/// `ranks_before` is a strict weak order: irreflexive, asymmetric, and
/// whatever lies between two ranked elements is ranked against one of them.
pub proof fn lemma_ranks_before_weak_order(mode: SortMode, a: PackageView, b: PackageView, c: PackageView)
    ensures
        !(ranks_before(mode, a, b) && ranks_before(mode, b, a)),
        ranks_before(mode, a, c) ==> ranks_before(mode, a, b) || ranks_before(mode, b, c),
{
    if mode == SortMode::Alphabetical {
        lemma_bytes_less_asymmetric(encode_utf8(a.name), encode_utf8(b.name));
        if ranks_before(mode, a, c) {
            lemma_bytes_less_negative_transitive(
                encode_utf8(a.name),
                encode_utf8(b.name),
                encode_utf8(c.name),
            );
        }
    }
}

proof fn lemma_goes_before_asymmetric(mode: SortMode, input: Seq<PackageView>, i: int, j: int)
    ensures
        !(goes_before(mode, input, i, j) && goes_before(mode, input, j, i)),
        i != j ==> goes_before(mode, input, i, j) || goes_before(mode, input, j, i),
{
    lemma_ranks_before_weak_order(mode, input[i], input[j], input[i]);
}

/// Two orderings of the same distinct indices, each increasing under
/// `goes_before`, are the same ordering.
proof fn lemma_increasing_orderings_equal(mode: SortMode, input: Seq<PackageView>, ord_a: Seq<int>, ord_b: Seq<int>)
    requires
        ord_a.len() == ord_b.len(),
        ord_a.no_duplicates(),
        ord_b.no_duplicates(),
        forall|x: int| ord_a.contains(x) <==> ord_b.contains(x),
        forall|k: int, l: int| 0 <= k < l < ord_a.len() ==> goes_before(mode, input, #[trigger] ord_a[k], #[trigger] ord_a[l]),
        forall|k: int, l: int| 0 <= k < l < ord_b.len() ==> goes_before(mode, input, #[trigger] ord_b[k], #[trigger] ord_b[l]),
    ensures
        ord_a == ord_b,
    decreases ord_a.len(),
{
    if ord_a.len() == 0 {
        assert(ord_a =~= ord_b);
    } else {
        assert(ord_a.contains(ord_a[0]));
        assert(ord_b.contains(ord_b[0]));
        let j = choose|j: int| 0 <= j < ord_b.len() && ord_b[j] == ord_a[0];
        let i = choose|i: int| 0 <= i < ord_a.len() && ord_a[i] == ord_b[0];
        lemma_goes_before_asymmetric(mode, input, ord_a[0], ord_b[0]);
        if j > 0 && i > 0 {
            assert(goes_before(mode, input, ord_b[0], ord_b[j]));
            assert(goes_before(mode, input, ord_a[0], ord_a[i]));
        }
        assert(ord_a[0] == ord_b[0]);
        let t1 = ord_a.drop_first();
        let t2 = ord_b.drop_first();
        assert forall|x: int| t1.contains(x) <==> t2.contains(x) by {
            if t1.contains(x) {
                let k = choose|k: int| 0 <= k < t1.len() && t1[k] == x;
                assert(ord_a[k + 1] == x);
                assert(ord_a.contains(x));
                let m = choose|m: int| 0 <= m < ord_b.len() && ord_b[m] == x;
                assert(m != 0);
                assert(t2[m - 1] == x);
            }
            if t2.contains(x) {
                let k = choose|k: int| 0 <= k < t2.len() && t2[k] == x;
                assert(ord_b[k + 1] == x);
                assert(ord_b.contains(x));
                let m = choose|m: int| 0 <= m < ord_a.len() && ord_a[m] == x;
                assert(m != 0);
                assert(t1[m - 1] == x);
            }
        }
        assert forall|k: int, l: int| 0 <= k < l < t1.len() implies goes_before(mode, input, #[trigger] t1[k], #[trigger] t1[l]) by {
            assert(goes_before(mode, input, ord_a[k + 1], ord_a[l + 1]));
        }
        assert forall|k: int, l: int| 0 <= k < l < t2.len() implies goes_before(mode, input, #[trigger] t2[k], #[trigger] t2[l]) by {
            assert(goes_before(mode, input, ord_b[k + 1], ord_b[l + 1]));
        }
        lemma_increasing_orderings_equal(mode, input, t1, t2);
        assert forall|k: int| 0 <= k < ord_a.len() implies ord_a[k] == ord_b[k] by {
            if k > 0 {
                assert(ord_a[k] == t1[k - 1]);
                assert(ord_b[k] == t2[k - 1]);
            }
        }
        assert(ord_a =~= ord_b);
    }
}

/// Sorting is deterministic: a list has exactly one stable sort under a mode.
pub proof fn lemma_sort_deterministic(
    mode: SortMode,
    input: Seq<PackageView>,
    out1: Seq<PackageView>,
    out2: Seq<PackageView>,
)
    requires
        sorted_by(mode, input, out1),
        sorted_by(mode, input, out2),
    ensures
        out1 == out2,
{
    let ord_a = choose|p: Seq<int>| is_stable_sort(mode, input, out1, p);
    let ord_b = choose|p: Seq<int>| is_stable_sort(mode, input, out2, p);
    assert forall|x: int| ord_a.contains(x) <==> ord_b.contains(x) by {
        if ord_a.contains(x) {
            let k = choose|k: int| 0 <= k < ord_a.len() && ord_a[k] == x;
            assert(0 <= ord_a[k] < input.len());
        }
        if ord_b.contains(x) {
            let k = choose|k: int| 0 <= k < ord_b.len() && ord_b[k] == x;
            assert(0 <= ord_b[k] < input.len());
        }
    }
    lemma_increasing_orderings_equal(mode, input, ord_a, ord_b);
    assert(out1 =~= out2);
}

/// Sorting an already sorted list under the same mode leaves it as it is.
pub proof fn lemma_sort_idempotent(
    mode: SortMode,
    input: Seq<PackageView>,
    once: Seq<PackageView>,
    twice: Seq<PackageView>,
)
    requires
        sorted_by(mode, input, once),
        sorted_by(mode, once, twice),
    ensures
        twice == once,
{
    let p = choose|p: Seq<int>| is_stable_sort(mode, input, once, p);
    let id = Seq::new(once.len(), |k: int| k);
    assert forall|k: int, l: int| 0 <= k < l < once.len() implies goes_before(mode, once, #[trigger] id[k], #[trigger] id[l]) by {
        assert(goes_before(mode, input, p[k], p[l]));
        lemma_ranks_before_weak_order(mode, once[k], once[l], once[k]);
    }
    assert forall|x: int| 0 <= x < once.len() implies #[trigger] id.contains(x) by {
        assert(id[x] == x);
    }
    assert(is_stable_sort(mode, once, once, id));
    lemma_sort_deterministic(mode, once, once, twice);
}

/// A sorted list holds exactly the packages of its input, position for
/// position through one rearrangement, so as a multiset it is the input.
pub proof fn lemma_sort_permutes(mode: SortMode, input: Seq<PackageView>, output: Seq<PackageView>)
    requires
        sorted_by(mode, input, output),
    ensures
        output.len() == input.len(),
        forall|k: int| 0 <= k < output.len() ==> input.contains(#[trigger] output[k]),
        forall|k: int| 0 <= k < input.len() ==> output.contains(#[trigger] input[k]),
        output.to_multiset() == input.to_multiset(),
{
    let p = choose|q: Seq<int>| is_stable_sort(mode, input, output, q);
    assert forall|k: int| 0 <= k < output.len() implies input.contains(#[trigger] output[k]) by {
        assert(0 <= p[k] < input.len());
    }
    assert forall|k: int| 0 <= k < input.len() implies output.contains(#[trigger] input[k]) by {
        assert(p.contains(k));
        let m = choose|m: int| 0 <= m < p.len() && p[m] == k;
        assert(output[m] == input[k]);
    }
}

/// In an alphabetical sort no name is greater than the next one.
pub proof fn lemma_alphabetical_adjacent(input: Seq<PackageView>, output: Seq<PackageView>)
    requires
        sorted_by(SortMode::Alphabetical, input, output),
    ensures
        forall|k: int| 0 <= k < output.len() - 1 ==> !name_less(#[trigger] output[k + 1].name, output[k].name),
{
    let p = choose|q: Seq<int>| is_stable_sort(SortMode::Alphabetical, input, output, q);
    assert forall|k: int| 0 <= k < output.len() - 1 implies !name_less(#[trigger] output[k + 1].name, output[k].name) by {
        assert(goes_before(SortMode::Alphabetical, input, p[k], p[k + 1]));
        lemma_ranks_before_weak_order(SortMode::Alphabetical, output[k], output[k + 1], output[k]);
    }
}

/// In a sort by popularity, votes or last modification no value is smaller
/// than the next one, and packages with equal values keep their input order.
pub proof fn lemma_numeric_adjacent(mode: SortMode, input: Seq<PackageView>, output: Seq<PackageView>)
    requires
        mode != SortMode::Alphabetical,
        sorted_by(mode, input, output),
    ensures
        forall|k: int| 0 <= k < output.len() - 1 ==> sort_key(mode, #[trigger] output[k]) >= sort_key(mode, output[k + 1]),
        exists|perm: Seq<int>| {
            &&& is_index_permutation(perm, input.len() as int)
            &&& forall|k: int| 0 <= k < output.len() ==> #[trigger] output[k] == input[perm[k]]
            &&& forall|k: int| 0 <= k < output.len() - 1 && sort_key(mode, #[trigger] output[k]) == sort_key(mode, output[k + 1]) ==> perm[k] < perm[k + 1]
        },
{
    let p = choose|q: Seq<int>| is_stable_sort(mode, input, output, q);
    assert forall|k: int| 0 <= k < output.len() - 1 implies sort_key(mode, #[trigger] output[k]) >= sort_key(mode, output[k + 1]) by {
        assert(goes_before(mode, input, p[k], p[k + 1]));
    }
    assert forall|k: int| 0 <= k < output.len() - 1 && sort_key(mode, #[trigger] output[k]) == sort_key(mode, output[k + 1]) implies p[k] < p[k + 1] by {
        assert(goes_before(mode, input, p[k], p[k + 1]));
    }
}

fn bytes_less_exec(a: &[u8], b: &[u8]) -> (r: bool)
    ensures
        r == bytes_less(a@, b@),
{
    let mut i: usize = 0;
    assert(a@.skip(0) =~= a@ && b@.skip(0) =~= b@);
    while i < a.len() && i < b.len()
        invariant
            i <= a@.len(),
            i <= b@.len(),
            bytes_less(a@, b@) == bytes_less(a@.skip(i as int), b@.skip(i as int)),
        decreases a@.len() - i,
    {
        assert(a@.skip(i as int).drop_first() =~= a@.skip(i + 1));
        assert(b@.skip(i as int).drop_first() =~= b@.skip(i + 1));
        if a[i] != b[i] {
            return a[i] < b[i];
        }
        i = i + 1;
    }
    i == a.len() && i < b.len()
}

fn numeric_key_before(mode: SortMode, a: &AurPackage, b: &AurPackage) -> (r: bool)
    requires
        mode != SortMode::Alphabetical,
    ensures
        r == (sort_key(mode, a@) > sort_key(mode, b@)),
{
    match mode {
        SortMode::Popularity => {
            let x: u64 = match a.popularity_bits { Some(v) => v, None => 0 };
            let y: u64 = match b.popularity_bits { Some(v) => v, None => 0 };
            x > y
        },
        SortMode::Votes => {
            let x: i32 = match a.votes { Some(v) => v, None => 0 };
            let y: i32 = match b.votes { Some(v) => v, None => 0 };
            x > y
        },
        _ => {
            let x: i64 = match a.last_modified { Some(v) => v, None => 0 };
            let y: i64 = match b.last_modified { Some(v) => v, None => 0 };
            x > y
        },
    }
}

/// Whether `a` is shown strictly before `b` under `mode`.
pub fn ranks_before_exec(mode: SortMode, a: &AurPackage, b: &AurPackage) -> (r: bool)
    ensures
        r == ranks_before(mode, a@, b@),
{
    match mode {
        SortMode::Alphabetical => bytes_less_exec(a.name.as_str().as_bytes(), b.name.as_str().as_bytes()),
        _ => numeric_key_before(mode, a, b),
    }
}

/// Sorts the packages stably under `mode`: by popularity, votes or last
/// modification, largest first, or by name, smallest first; packages that
/// tie keep their relative order.
pub fn sort_packages(packages: &mut Vec<AurPackage>, mode: SortMode)
    ensures
        sorted_by(mode, packages_view(old(packages)@), packages_view(final(packages)@)),
{
    let ghost input = packages_view(packages@);
    let ghost n = packages@.len() as int;
    let mut rest: Vec<AurPackage> = Vec::new();
    std::mem::swap(&mut rest, packages);
    let mut out: Vec<AurPackage> = Vec::new();
    proof {
        broadcast use vstd::seq_lib::group_to_multiset_ensures;
        assert(packages_view(out@) =~= Seq::<PackageView>::empty());
        assert(packages_view(rest@) == input);
    }
    let ghost mut perm: Seq<int> = Seq::empty();
    let mut i: usize = 0;
    while rest.len() > 0
        invariant
            n == input.len(),
            i <= n,
            rest@.len() == n - i,
            forall|k: int| 0 <= k < rest@.len() ==> #[trigger] rest@[k]@ == input[i + k],
            out@.len() == i,
            packages_view(out@).to_multiset().add(packages_view(rest@).to_multiset()) == input.to_multiset(),
            perm.len() == i,
            perm.no_duplicates(),
            forall|k: int| 0 <= k < i ==> 0 <= #[trigger] perm[k] < i,
            forall|x: int| 0 <= x < i ==> #[trigger] perm.contains(x),
            forall|k: int| 0 <= k < i ==> #[trigger] out@[k]@ == input[perm[k]],
            forall|k: int, l: int|
                0 <= k < l < i ==> goes_before(mode, input, #[trigger] perm[k], #[trigger] perm[l]),
        decreases rest@.len(),
    {
        let ghost before_rest = rest@;
        let ghost before_out = out@;
        let x = rest.remove(0);
        assert(x@ == input[i as int]);
        proof {
            vstd::seq_lib::to_multiset_remove(packages_view(before_rest), 0);
            assert(packages_view(rest@) =~= packages_view(before_rest).remove(0));
        }
        let mut p: usize = 0;
        while p < out.len() && !ranks_before_exec(mode, &x, &out[p])
            invariant
                p <= out@.len(),
                forall|k: int| 0 <= k < p ==> !ranks_before(mode, x@, #[trigger] out@[k]@),
            decreases out@.len() - p,
        {
            p = p + 1;
        }
        proof {
            let np = perm.insert(p as int, i as int);
            assert forall|k: int, l: int| 0 <= k < l < i + 1 implies goes_before(
                mode,
                input,
                #[trigger] np[k],
                #[trigger] np[l],
            ) by {
                if l == p {
                    assert(np[k] == perm[k]);
                    assert(np[l] == i);
                    assert(out@[k]@ == input[perm[k]]);
                    assert(!ranks_before(mode, x@, out@[k]@));
                } else if k == p {
                    assert(np[l] == perm[l - 1]);
                    assert(out@[p as int]@ == input[perm[p as int]]);
                    assert(ranks_before(mode, input[i as int], input[perm[p as int]]));
                    if l - 1 > p {
                        assert(goes_before(mode, input, perm[p as int], perm[l - 1]));
                    }
                    lemma_ranks_before_weak_order(mode, input[perm[l - 1]], input[perm[p as int]], input[perm[l - 1]]);
                    lemma_ranks_before_weak_order(mode, input[i as int], input[perm[l - 1]], input[perm[p as int]]);
                    assert(ranks_before(mode, input[i as int], input[perm[l - 1]]));
                } else if k < p && l < p {
                    assert(np[k] == perm[k] && np[l] == perm[l]);
                } else if k < p {
                    assert(np[k] == perm[k] && np[l] == perm[l - 1]);
                } else {
                    assert(np[k] == perm[k - 1] && np[l] == perm[l - 1]);
                }
            }
            assert forall|x: int| 0 <= x < i + 1 implies #[trigger] np.contains(x) by {
                if x < i {
                    assert(perm.contains(x));
                    let k = choose|k: int| 0 <= k < perm.len() && perm[k] == x;
                    if k < p {
                        assert(np[k] == x);
                    } else {
                        assert(np[k + 1] == x);
                    }
                } else {
                    assert(np[p as int] == x);
                }
            }
            assert(!perm.contains(i as int));
            perm = np;
        }
        out.insert(p, x);
        proof {
            vstd::seq_lib::to_multiset_insert(packages_view(before_out), p as int, x@);
            assert(packages_view(out@) =~= packages_view(before_out).insert(p as int, x@));
            broadcast use vstd::seq_lib::group_to_multiset_ensures;
            assert(packages_view(out@).to_multiset().add(packages_view(rest@).to_multiset()) =~= input.to_multiset());
        }
        i = out.len();
        assert(forall|k: int| 0 <= k < rest@.len() ==> #[trigger] rest@[k]@ == input[i + k]);
    }
    proof {
        broadcast use vstd::seq_lib::group_to_multiset_ensures;
        assert(packages_view(rest@) =~= Seq::<PackageView>::empty());
        assert(packages_view(out@).to_multiset() =~= input.to_multiset());
    }
    *packages = out;
    assert(is_stable_sort(mode, input, packages_view(packages@), perm));
}

} // verus!
