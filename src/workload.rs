//! The order of a team's workload distribution: more commits first, equal
//! commit counts by user name ascending, names compared byte by byte as
//! `str` orders them.
use vstd::prelude::*;
use vstd::multiset::Multiset;
use vstd::utf8::encode_utf8;
use crate::model::UserWorkload;

verus! {

broadcast use vstd::seq_lib::group_to_multiset_ensures;

/// Lexicographic order of byte strings: `a` is a prefix of `b`, or `a` has
/// the smaller byte at the first place where they differ.
pub open spec fn bytes_le(a: Seq<u8>, b: Seq<u8>) -> bool
    decreases a.len(),
{
    if a.len() == 0 {
        true
    } else if b.len() == 0 {
        false
    } else if a[0] < b[0] {
        true
    } else if a[0] > b[0] {
        false
    } else {
        bytes_le(a.drop_first(), b.drop_first())
    }
}

/// The UTF-8 bytes of a workload's user name.
pub open spec fn name_bytes(w: UserWorkload) -> Seq<u8> {
    encode_utf8(w.user@)
}

/// Whether `x` may stand before `y` in a workload distribution.
pub open spec fn ranks_before_eq(x: UserWorkload, y: UserWorkload) -> bool {
    x.commits > y.commits || (x.commits == y.commits && bytes_le(name_bytes(x), name_bytes(y)))
}

/// Every entry of `s` may stand before every later one.
pub open spec fn is_ranked(s: Seq<UserWorkload>) -> bool {
    forall|i: int, j: int| 0 <= i < j < s.len() ==> ranks_before_eq(#[trigger] s[i], #[trigger] s[j])
}

pub proof fn lemma_bytes_le_transitive(a: Seq<u8>, b: Seq<u8>, c: Seq<u8>)
    requires
        bytes_le(a, b),
        bytes_le(b, c),
    ensures
        bytes_le(a, c),
    decreases a.len(),
{
    if a.len() > 0 && b.len() > 0 && c.len() > 0 && a[0] == b[0] && b[0] == c[0] {
        lemma_bytes_le_transitive(a.drop_first(), b.drop_first(), c.drop_first());
    }
}

pub proof fn lemma_bytes_le_total(a: Seq<u8>, b: Seq<u8>)
    ensures
        bytes_le(a, b) || bytes_le(b, a),
    decreases a.len(),
{
    if a.len() > 0 && b.len() > 0 && a[0] == b[0] {
        lemma_bytes_le_total(a.drop_first(), b.drop_first());
    }
}

pub proof fn lemma_bytes_le_antisymmetric(a: Seq<u8>, b: Seq<u8>)
    requires
        bytes_le(a, b),
        bytes_le(b, a),
    ensures
        a == b,
    decreases a.len(),
{
    if a.len() > 0 && b.len() > 0 {
        lemma_bytes_le_antisymmetric(a.drop_first(), b.drop_first());
        assert(a =~= seq![a[0]] + a.drop_first());
        assert(b =~= seq![b[0]] + b.drop_first());
    } else {
        assert(a.len() == 0 && b.len() == 0);
        assert(a =~= b);
    }
}

/// No two entries of `s` carry the same user name.
pub open spec fn names_distinct(s: Seq<UserWorkload>) -> bool {
    forall|i: int, j: int| 0 <= i < j < s.len() ==> name_bytes(#[trigger] s[i]) != name_bytes(#[trigger] s[j])
}

/// Reordering entries keeps their user names distinct.
pub proof fn lemma_names_distinct_permutation(a: Seq<UserWorkload>, b: Seq<UserWorkload>)
    requires
        names_distinct(a),
        a.to_multiset() == b.to_multiset(),
    ensures
        names_distinct(b),
    decreases b.len(),
{
    if b.len() > 0 {
        let y = b.last();
        let b1 = b.drop_last();
        assert(b1.push(y) =~= b);
        assert(b.to_multiset() == b1.to_multiset().insert(y));
        assert(a.to_multiset().count(y) > 0);
        assert(a.contains(y));
        let k = choose|k: int| 0 <= k < a.len() && a[k] == y;
        let a1 = a.remove(k);
        assert(a1.to_multiset() == a.to_multiset().remove(y));
        assert(a1.to_multiset() =~= b1.to_multiset());
        assert forall|i: int, j: int| 0 <= i < j < a1.len() implies name_bytes(#[trigger] a1[i]) != name_bytes(#[trigger] a1[j]) by {
            let ii = if i < k { i } else { i + 1 };
            let jj = if j < k { j } else { j + 1 };
            assert(a1[i] == a[ii] && a1[j] == a[jj]);
        }
        lemma_names_distinct_permutation(a1, b1);
        assert forall|i: int, j: int| 0 <= i < j < b.len() implies name_bytes(#[trigger] b[i]) != name_bytes(#[trigger] b[j]) by {
            if j < b.len() - 1 {
                assert(b[i] == b1[i] && b[j] == b1[j]);
            } else {
                assert(b[i] == b1[i]);
                assert(b1.to_multiset().count(b1[i]) > 0);
                assert(a1.contains(b1[i]));
                let m = choose|m: int| 0 <= m < a1.len() && a1[m] == b1[i];
                let mm = if m < k { m } else { m + 1 };
                assert(a1[m] == a[mm]);
                assert(mm != k);
                if mm < k {
                    assert(name_bytes(a[mm]) != name_bytes(a[k]));
                } else {
                    assert(name_bytes(a[k]) != name_bytes(a[mm]));
                }
            }
        }
    }
}

/// With distinct user names the distribution order is strict: every entry
/// has more commits than a later one, or as many and a smaller name.
pub proof fn lemma_ranked_is_strict(s: Seq<UserWorkload>, i: int, j: int)
    requires
        is_ranked(s),
        names_distinct(s),
        0 <= i < j < s.len(),
    ensures
        s[i].commits > s[j].commits || (s[i].commits == s[j].commits && bytes_le(
            name_bytes(s[i]),
            name_bytes(s[j]),
        ) && name_bytes(s[i]) != name_bytes(s[j])),
{
    assert(ranks_before_eq(s[i], s[j]));
}

/// With distinct user names there is one distribution order of a set of
/// workloads: two ranked sequences of the same entries are equal, whatever
/// order the entries arrived in.
pub proof fn lemma_ranking_is_unique(a: Seq<UserWorkload>, b: Seq<UserWorkload>)
    requires
        is_ranked(a),
        is_ranked(b),
        names_distinct(a),
        a.to_multiset() == b.to_multiset(),
    ensures
        a == b,
    decreases a.len(),
{
    if a.len() == 0 {
        assert(b.to_multiset().len() == 0);
        assert(a =~= b);
    } else {
        assert(a.to_multiset().len() == a.len());
        assert(b.to_multiset().len() == b.len());
        let x = a[0];
        let y = b[0];
        assert(b.to_multiset().count(y) > 0);
        assert(a.contains(y));
        let k = choose|k: int| 0 <= k < a.len() && a[k] == y;
        assert(a.to_multiset().count(x) > 0);
        assert(b.contains(x));
        let l = choose|l: int| 0 <= l < b.len() && b[l] == x;
        if x != y {
            assert(k > 0 && l > 0);
            assert(ranks_before_eq(a[0], a[k]));
            assert(ranks_before_eq(b[0], b[l]));
            lemma_bytes_le_antisymmetric(name_bytes(x), name_bytes(y));
            assert(name_bytes(a[0]) != name_bytes(a[k]));
        }
        assert(a.remove(0) =~= a.drop_first());
        assert(b.remove(0) =~= b.drop_first());
        assert(a.drop_first().to_multiset() == b.drop_first().to_multiset());
        let a1 = a.drop_first();
        let b1 = b.drop_first();
        assert forall|i: int, j: int| 0 <= i < j < a1.len() implies ranks_before_eq(#[trigger] a1[i], #[trigger] a1[j]) by {
            assert(a1[i] == a[i + 1] && a1[j] == a[j + 1]);
        }
        assert forall|i: int, j: int| 0 <= i < j < b1.len() implies ranks_before_eq(#[trigger] b1[i], #[trigger] b1[j]) by {
            assert(b1[i] == b[i + 1] && b1[j] == b[j + 1]);
        }
        assert forall|i: int, j: int| 0 <= i < j < a1.len() implies name_bytes(#[trigger] a1[i]) != name_bytes(#[trigger] a1[j]) by {
            assert(a1[i] == a[i + 1] && a1[j] == a[j + 1]);
        }
        lemma_ranking_is_unique(a1, b1);
        assert(a =~= b) by {
            assert forall|i: int| 0 <= i < a.len() implies a[i] == b[i] by {
                if i > 0 {
                    assert(a[i] == a1[i - 1] && b[i] == b1[i - 1]);
                }
            }
        }
    }
}

pub proof fn lemma_ranks_transitive(x: UserWorkload, y: UserWorkload, z: UserWorkload)
    requires
        ranks_before_eq(x, y),
        ranks_before_eq(y, z),
    ensures
        ranks_before_eq(x, z),
{
    if x.commits == y.commits && y.commits == z.commits {
        lemma_bytes_le_transitive(name_bytes(x), name_bytes(y), name_bytes(z));
    }
}

pub proof fn lemma_ranks_total(x: UserWorkload, y: UserWorkload)
    ensures
        ranks_before_eq(x, y) || ranks_before_eq(y, x),
{
    lemma_bytes_le_total(name_bytes(x), name_bytes(y));
}

/// Compares two byte strings lexicographically.
pub fn bytes_le_exec(a: &[u8], b: &[u8]) -> (r: bool)
    ensures
        r == bytes_le(a@, b@),
{
    let mut i: usize = 0;
    assert(a@.subrange(0, a@.len() as int) =~= a@);
    assert(b@.subrange(0, b@.len() as int) =~= b@);
    while i < a.len() && i < b.len() && a[i] == b[i]
        invariant
            i <= a@.len(),
            i <= b@.len(),
            bytes_le(a@, b@) == bytes_le(
                a@.subrange(i as int, a@.len() as int),
                b@.subrange(i as int, b@.len() as int),
            ),
        decreases a@.len() - i,
    {
        let ghost sa = a@.subrange(i as int, a@.len() as int);
        let ghost sb = b@.subrange(i as int, b@.len() as int);
        assert(sa.drop_first() =~= a@.subrange(i + 1, a@.len() as int));
        assert(sb.drop_first() =~= b@.subrange(i + 1, b@.len() as int));
        i = i + 1;
    }
    let ghost sa = a@.subrange(i as int, a@.len() as int);
    let ghost sb = b@.subrange(i as int, b@.len() as int);
    if i == a.len() {
        assert(sa.len() == 0);
        true
    } else if i == b.len() {
        assert(sb.len() == 0);
        false
    } else {
        assert(sa[0] == a@[i as int] && sb[0] == b@[i as int]);
        a[i] < b[i]
    }
}

/// Whether `x` may stand before `y` in a workload distribution.
pub fn ranks_before(x: &UserWorkload, y: &UserWorkload) -> (r: bool)
    ensures
        r == ranks_before_eq(*x, *y),
{
    if x.commits != y.commits {
        x.commits > y.commits
    } else {
        bytes_le_exec(x.user.as_str().as_bytes(), y.user.as_str().as_bytes())
    }
}

/// Puts workloads in distribution order: descending commit count, ties by
/// ascending user name.
pub fn rank_workloads(workloads: Vec<UserWorkload>) -> (r: Vec<UserWorkload>)
    ensures
        is_ranked(r@),
        r@.to_multiset() == workloads@.to_multiset(),
{
    let ghost orig = workloads@;
    let mut rest = workloads;
    let mut out: Vec<UserWorkload> = Vec::new();
    while rest.len() > 0
        invariant
            is_ranked(out@),
            out@.to_multiset().add(rest@.to_multiset()) == orig.to_multiset(),
        decreases rest@.len(),
    {
        let ghost before_rest = rest@;
        let w = match rest.pop() {
            Some(w) => w,
            None => {
                return out;
            },
        };
        assert(before_rest =~= rest@.push(w));
        let mut p: usize = 0;
        while p < out.len() && ranks_before(&out[p], &w)
            invariant
                p <= out@.len(),
                forall|k: int| 0 <= k < p ==> ranks_before_eq(#[trigger] out@[k], w),
            decreases out@.len() - p,
        {
            p = p + 1;
        }
        proof {
            if p < out@.len() {
                lemma_ranks_total(out@[p as int], w);
                assert forall|k: int| p <= k < out@.len() implies ranks_before_eq(w, #[trigger] out@[k]) by {
                    if k > p {
                        lemma_ranks_transitive(w, out@[p as int], out@[k]);
                    }
                }
            }
        }
        let ghost before_out = out@;
        out.insert(p, w);
        proof {
            let s = out@;
            assert forall|i: int, j: int| 0 <= i < j < s.len() implies ranks_before_eq(#[trigger] s[i], #[trigger] s[j]) by {
                if j < p {
                    assert(s[i] == before_out[i] && s[j] == before_out[j]);
                } else if j == p {
                    assert(s[i] == before_out[i]);
                } else if i < p {
                    assert(s[i] == before_out[i] && s[j] == before_out[j - 1]);
                    assert(ranks_before_eq(before_out[i], w));
                    assert(ranks_before_eq(w, before_out[j - 1]));
                    lemma_ranks_transitive(before_out[i], w, before_out[j - 1]);
                } else if i == p {
                    assert(s[j] == before_out[j - 1]);
                } else {
                    assert(s[i] == before_out[i - 1] && s[j] == before_out[j - 1]);
                }
            }
            assert(out@.to_multiset() == before_out.to_multiset().insert(w));
            assert(before_rest.to_multiset() == rest@.to_multiset().insert(w));
            assert(out@.to_multiset().add(rest@.to_multiset()) =~= before_out.to_multiset().add(
                before_rest.to_multiset(),
            ));
        }
    }
    assert(rest@.to_multiset() =~= Multiset::empty());
    assert(out@.to_multiset().add(rest@.to_multiset()) =~= out@.to_multiset());
    out
}

} // verus!
