//! Text primitives shared by the journal resolver and the note filter:
//! substring containment and a lexicographic order on strings.
use vstd::prelude::*;

verus! {

/// The pattern `p` occurs in `s` starting at position `i`.
pub open spec fn contains_at(s: Seq<char>, p: Seq<char>, i: int) -> bool {
    0 <= i && i + p.len() <= s.len() && s.subrange(i, i + p.len()) == p
}

/// The pattern `p` occurs somewhere in `s`.
pub open spec fn contains_substr(s: Seq<char>, p: Seq<char>) -> bool {
    exists|i: int| contains_at(s, p, i)
}

/// Substring test, by direct character comparison.
pub fn str_contains(s: &str, p: &str) -> (r: bool)
    ensures
        r == contains_substr(s@, p@),
{
    let n = s.unicode_len();
    let m = p.unicode_len();
    if m > n {
        proof {
            assert(forall|i: int| !contains_at(s@, p@, i));
        }
        return false;
    }
    if m == 0 {
        proof {
            assert(s@.subrange(0, 0) =~= p@);
            assert(contains_at(s@, p@, 0));
        }
        return true;
    }
    let mut i: usize = 0;
    while i <= n - m
        invariant
            1 <= m <= n,
            n == s@.len(),
            m == p@.len(),
            i <= n - m + 1,
            forall|k: int| 0 <= k < i ==> !contains_at(s@, p@, k),
        decreases n - m + 1 - i,
    {
        let mut j: usize = 0;
        let mut mismatch = false;
        while j < m && !mismatch
            invariant
                1 <= m <= n,
                n == s@.len(),
                m == p@.len(),
                i <= n - m,
                j <= m,
                !mismatch ==> forall|l: int| 0 <= l < j ==> s@[i + l] == p@[l],
                mismatch ==> !contains_at(s@, p@, i as int),
            decreases m - j, if mismatch { 0int } else { 1int },
        {
            if s.get_char(i + j) == p.get_char(j) {
                j = j + 1;
            } else {
                proof {
                    if contains_at(s@, p@, i as int) {
                        assert(s@.subrange(i as int, i + m)[j as int] == p@[j as int]);
                    }
                }
                mismatch = true;
            }
        }
        if !mismatch {
            proof {
                assert(s@.subrange(i as int, i + m) =~= p@);
                assert(contains_at(s@, p@, i as int));
            }
            return true;
        }
        i = i + 1;
    }
    proof {
        assert(forall|k: int| contains_at(s@, p@, k) ==> 0 <= k <= n - m);
    }
    false
}

/// Lexicographic order on character sequences, by code point; the empty
/// sequence comes first and a proper prefix precedes its extensions.
pub open spec fn lex_leq(a: Seq<char>, b: Seq<char>) -> bool
    decreases a.len(),
{
    if a.len() == 0 {
        true
    } else if b.len() == 0 {
        false
    } else if a[0] == b[0] {
        lex_leq(a.drop_first(), b.drop_first())
    } else {
        a[0] < b[0]
    }
}

/// `lex_leq` as a relation value, for use with `sorted_by`.
pub open spec fn lex_leq_rel() -> spec_fn(Seq<char>, Seq<char>) -> bool {
    |a: Seq<char>, b: Seq<char>| lex_leq(a, b)
}

pub proof fn lemma_lex_leq_reflexive(a: Seq<char>)
    ensures
        lex_leq(a, a),
    decreases a.len(),
{
    if a.len() > 0 {
        lemma_lex_leq_reflexive(a.drop_first());
    }
}

pub proof fn lemma_lex_leq_connected(a: Seq<char>, b: Seq<char>)
    ensures
        lex_leq(a, b) || lex_leq(b, a),
    decreases a.len(),
{
    if a.len() > 0 && b.len() > 0 && a[0] == b[0] {
        lemma_lex_leq_connected(a.drop_first(), b.drop_first());
    }
}

pub proof fn lemma_lex_leq_antisymmetric(a: Seq<char>, b: Seq<char>)
    requires
        lex_leq(a, b),
        lex_leq(b, a),
    ensures
        a == b,
    decreases a.len(),
{
    if a.len() == 0 {
        assert(b.len() == 0);
        assert(a =~= b);
    } else {
        assert(b.len() > 0);
        assert(a[0] == b[0]);
        let ad = a.drop_first();
        let bd = b.drop_first();
        lemma_lex_leq_antisymmetric(ad, bd);
        assert(ad == bd);
        assert forall|k: int| 0 <= k < a.len() implies a[k] == b[k] by {
            if k > 0 {
                assert(ad[k - 1] == bd[k - 1]);
                assert(a[k] == ad[k - 1]);
                assert(b[k] == bd[k - 1]);
            }
        }
        assert(a =~= b);
    }
}

pub proof fn lemma_lex_leq_transitive(a: Seq<char>, b: Seq<char>, c: Seq<char>)
    requires
        lex_leq(a, b),
        lex_leq(b, c),
    ensures
        lex_leq(a, c),
    decreases a.len(),
{
    if a.len() > 0 && b.len() > 0 && c.len() > 0 && a[0] == b[0] && b[0] == c[0] {
        lemma_lex_leq_transitive(a.drop_first(), b.drop_first(), c.drop_first());
    }
}

/// `lex_leq` is a total order, in the sense `vstd::relations` gives the words.
pub proof fn lemma_lex_leq_total_ordering()
    ensures
        vstd::relations::total_ordering(lex_leq_rel()),
{
    let r = lex_leq_rel();
    assert forall|a: Seq<char>| #[trigger] r(a, a) by {
        lemma_lex_leq_reflexive(a);
    }
    assert forall|a: Seq<char>, b: Seq<char>| #[trigger] r(a, b) || #[trigger] r(b, a) by {
        lemma_lex_leq_connected(a, b);
    }
    assert forall|a: Seq<char>, b: Seq<char>| #[trigger] r(a, b) && #[trigger] r(b, a) implies a
        == b by {
        lemma_lex_leq_antisymmetric(a, b);
    }
    assert forall|a: Seq<char>, b: Seq<char>, c: Seq<char>|
        #[trigger] r(a, b) && #[trigger] r(b, c) implies r(a, c) by {
        lemma_lex_leq_transitive(a, b, c);
    }
}

/// If `a` and `b` agree on their first `i` characters, the order is decided
/// by the remainders.
proof fn lemma_lex_leq_common_prefix(a: Seq<char>, b: Seq<char>, i: int)
    requires
        0 <= i <= a.len(),
        i <= b.len(),
        forall|k: int| 0 <= k < i ==> a[k] == b[k],
    ensures
        lex_leq(a, b) == lex_leq(a.skip(i), b.skip(i)),
    decreases i,
{
    if i > 0 {
        assert(a.len() > 0 && b.len() > 0 && a[0] == b[0]);
        assert(forall|k: int| 0 <= k < i - 1 ==> a.drop_first()[k] == b.drop_first()[k]);
        lemma_lex_leq_common_prefix(a.drop_first(), b.drop_first(), i - 1);
        assert(a.drop_first().skip(i - 1) =~= a.skip(i));
        assert(b.drop_first().skip(i - 1) =~= b.skip(i));
    } else {
        assert(a.skip(0) =~= a);
        assert(b.skip(0) =~= b);
    }
}

/// Lexicographic comparison of two strings.
pub fn str_lex_leq(a: &str, b: &str) -> (r: bool)
    ensures
        r == lex_leq(a@, b@),
{
    let n = a.unicode_len();
    let m = b.unicode_len();
    let mut i: usize = 0;
    while i < n && i < m
        invariant
            n == a@.len(),
            m == b@.len(),
            i <= n,
            i <= m,
            forall|k: int| 0 <= k < i ==> a@[k] == b@[k],
        decreases n - i,
    {
        let ca = a.get_char(i);
        let cb = b.get_char(i);
        if ca != cb {
            proof {
                lemma_lex_leq_common_prefix(a@, b@, i as int);
                assert(a@.skip(i as int)[0] == a@[i as int]);
                assert(b@.skip(i as int)[0] == b@[i as int]);
            }
            return ca < cb;
        }
        i = i + 1;
    }
    proof {
        lemma_lex_leq_common_prefix(a@, b@, if i < n { m as int } else { n as int });
    }
    n <= m
}

/// Sorts strings lexicographically by `lex_leq`: the result is ordered and
/// holds exactly the input strings.
pub fn sort_strings(v: &Vec<String>) -> (r: Vec<String>)
    ensures
        vstd::relations::sorted_by(r.deep_view(), lex_leq_rel()),
        r.deep_view().to_multiset() == v.deep_view().to_multiset(),
{
    let mut out: Vec<String> = Vec::new();
    let mut i: usize = 0;
    proof {
        assert(v.deep_view().subrange(0, 0) =~= Seq::<Seq<char>>::empty());
        assert(out.deep_view() =~= Seq::<Seq<char>>::empty());
        vstd::seq_lib::lemma_multiset_commutative(
            Seq::<Seq<char>>::empty(),
            Seq::<Seq<char>>::empty(),
        );
        assert(Seq::<Seq<char>>::empty().to_multiset() =~= out.deep_view().to_multiset());
    }
    while i < v.len()
        invariant
            i <= v.len(),
            vstd::relations::sorted_by(out.deep_view(), lex_leq_rel()),
            out.deep_view().to_multiset() == v.deep_view().subrange(0, i as int).to_multiset(),
        decreases v.len() - i,
    {
        let x = (&v[i]).clone();
        let ghost pre = out.deep_view();
        let mut j: usize = 0;
        while j < out.len() && str_lex_leq(out[j].as_str(), x.as_str())
            invariant
                j <= out.len(),
                pre == out.deep_view(),
                forall|k: int| 0 <= k < j ==> lex_leq(#[trigger] out.deep_view()[k], x@),
            decreases out.len() - j,
        {
            j = j + 1;
        }
        out.insert(j, x);
        proof {
            broadcast use vstd::seq_lib::group_to_multiset_ensures;

            assert(out.deep_view() =~= pre.insert(j as int, x@));
            // the inserted element stands between its lesser and greater peers
            assert forall|k1: int, k2: int| 0 <= k1 < k2 < out.deep_view().len() implies
                #[trigger] lex_leq_rel()(out.deep_view()[k1], out.deep_view()[k2]) by {
                let d = out.deep_view();
                if k2 == j {
                    assert(lex_leq(pre[k1], x@));
                } else if k1 == j {
                    assert(k2 > j);
                    if j < pre.len() {
                        assert(!lex_leq(pre[j as int], x@));
                        lemma_lex_leq_connected(pre[j as int], x@);
                        if k2 > j + 1 {
                            assert(lex_leq_rel()(pre[j as int], pre[k2 - 1]));
                            lemma_lex_leq_transitive(x@, pre[j as int], pre[k2 - 1]);
                        }
                        assert(lex_leq(x@, d[k2]));
                    }
                } else if k1 < j && k2 > j {
                    assert(lex_leq_rel()(pre[k1], pre[k2 - 1]));
                } else if k2 < j {
                    assert(lex_leq_rel()(pre[k1], pre[k2]));
                } else {
                    assert(lex_leq_rel()(pre[k1 - 1], pre[k2 - 1]));
                }
            }
            // the multiset grows by exactly the inserted element
            let front = pre.subrange(0, j as int);
            let back = pre.subrange(j as int, pre.len() as int);
            assert(pre =~= front + back);
            assert(pre.insert(j as int, x@) =~= front.push(x@) + back);
            vstd::seq_lib::lemma_multiset_commutative(front, back);
            vstd::seq_lib::lemma_multiset_commutative(front.push(x@), back);
            assert(front.push(x@).to_multiset() =~= front.to_multiset().insert(x@));
            assert(out.deep_view().to_multiset() =~= pre.to_multiset().insert(x@));
            // and the consumed prefix grows by the same element
            assert(v.deep_view().subrange(0, i + 1) =~= v.deep_view().subrange(0, i as int).push(
                v.deep_view()[i as int],
            ));
            assert(x@ == v.deep_view()[i as int]);
            assert(v.deep_view().subrange(0, i + 1).to_multiset() =~= v.deep_view().subrange(
                0,
                i as int,
            ).to_multiset().insert(x@));
        }
        i = i + 1;
    }
    proof {
        assert(v.deep_view().subrange(0, i as int) =~= v.deep_view());
    }
    out
}

/// The pattern `p` is a prefix of `s`.
pub open spec fn starts_with(s: Seq<char>, p: Seq<char>) -> bool {
    p.len() <= s.len() && s.subrange(0, p.len() as int) == p
}

/// Prefix test, by direct character comparison.
pub fn str_starts_with(s: &str, p: &str) -> (r: bool)
    ensures
        r == starts_with(s@, p@),
{
    let n = s.unicode_len();
    let m = p.unicode_len();
    if m > n {
        return false;
    }
    let mut j: usize = 0;
    while j < m
        invariant
            m <= n,
            n == s@.len(),
            m == p@.len(),
            j <= m,
            forall|l: int| 0 <= l < j ==> s@[l] == p@[l],
        decreases m - j,
    {
        if s.get_char(j) != p.get_char(j) {
            proof {
                if starts_with(s@, p@) {
                    assert(s@.subrange(0, m as int)[j as int] == p@[j as int]);
                }
            }
            return false;
        }
        j = j + 1;
    }
    proof {
        assert(s@.subrange(0, m as int) =~= p@);
    }
    true
}

/// Equality of two strings, by direct character comparison.
pub fn str_eq(a: &str, b: &str) -> (r: bool)
    ensures
        r == (a@ == b@),
{
    let n = a.unicode_len();
    let m = b.unicode_len();
    if n != m {
        return false;
    }
    let mut i: usize = 0;
    while i < n
        invariant
            n == a@.len(),
            n == b@.len(),
            i <= n,
            forall|k: int| 0 <= k < i ==> a@[k] == b@[k],
        decreases n - i,
    {
        if a.get_char(i) != b.get_char(i) {
            return false;
        }
        i = i + 1;
    }
    proof {
        assert(a@ =~= b@);
    }
    true
}

/// Length of the prefix of `p` up to and including its last `/`; `0` when
/// `p` holds no `/`.
pub open spec fn split_pos(p: Seq<char>) -> int
    decreases p.len(),
{
    if p.len() == 0 {
        0
    } else if p.last() == '/' {
        p.len() as int
    } else {
        split_pos(p.drop_last())
    }
}

pub proof fn lemma_split_pos_bounds(p: Seq<char>)
    ensures
        0 <= split_pos(p) <= p.len(),
        split_pos(p) > 0 ==> p[split_pos(p) - 1] == '/',
    decreases p.len(),
{
    if p.len() > 0 && p.last() != '/' {
        lemma_split_pos_bounds(p.drop_last());
    }
}

/// The textual parent directory of a path: everything before the last `/`,
/// except that a path directly under the root keeps its leading `/`, and a
/// path without `/` has the empty parent. Purely textual: separators are
/// not collapsed and `..` is not interpreted.
pub open spec fn parent_dir(p: Seq<char>) -> Seq<char> {
    if split_pos(p) <= 0 {
        Seq::empty()
    } else if split_pos(p) == 1 {
        p.subrange(0, 1)
    } else {
        p.subrange(0, split_pos(p) - 1)
    }
}

/// The textual base name of a path: everything after the last `/`.
pub open spec fn base_name(p: Seq<char>) -> Seq<char> {
    p.subrange(split_pos(p), p.len() as int)
}

/// If no `/` occurs at or after position `i`, the last `/` of the whole
/// path lies in its first `i` characters.
proof fn lemma_split_pos_suffix(p: Seq<char>, i: int)
    requires
        0 <= i <= p.len(),
        forall|k: int| i <= k < p.len() ==> p[k] != '/',
    ensures
        split_pos(p) == split_pos(p.subrange(0, i)),
    decreases p.len() - i,
{
    if i < p.len() {
        assert(p.last() != '/');
        assert(p.drop_last() =~= p.subrange(0, p.len() - 1));
        lemma_split_pos_suffix(p.subrange(0, p.len() - 1), i);
        assert(p.subrange(0, p.len() - 1).subrange(0, i) =~= p.subrange(0, i));
    } else {
        assert(p.subrange(0, i) =~= p);
    }
}

/// Position just past the last `/` of `p`, or `0` when there is none.
fn find_split(p: &str) -> (r: usize)
    ensures
        r == split_pos(p@),
{
    let n = p.unicode_len();
    let mut i: usize = n;
    while i > 0
        invariant
            i <= n,
            n == p@.len(),
            forall|k: int| i <= k < n ==> p@[k] != '/',
        decreases i,
    {
        if p.get_char(i - 1) == '/' {
            proof {
                lemma_split_pos_suffix(p@, i as int);
                assert(p@.subrange(0, i as int).last() == '/');
            }
            return i;
        }
        i = i - 1;
    }
    proof {
        lemma_split_pos_suffix(p@, 0);
        assert(p@.subrange(0, 0) =~= Seq::<char>::empty());
    }
    0
}

/// The parent directory of a path, textually.
pub fn path_parent(p: &str) -> (r: String)
    ensures
        r@ == parent_dir(p@),
{
    let s = find_split(p);
    proof {
        lemma_split_pos_bounds(p@);
    }
    if s == 0 {
        let r = String::new();
        proof {
            assert(r@ =~= parent_dir(p@));
        }
        r
    } else if s == 1 {
        p.substring_char(0, 1).to_owned()
    } else {
        p.substring_char(0, s - 1).to_owned()
    }
}

/// The base name of a path, textually.
pub fn path_base(p: &str) -> (r: String)
    ensures
        r@ == base_name(p@),
{
    let s = find_split(p);
    let n = p.unicode_len();
    proof {
        lemma_split_pos_bounds(p@);
    }
    p.substring_char(s, n).to_owned()
}

/// Joining a root directory and a path fragment, textually, the way an
/// absolute fragment replaces the root and a separator is added only where
/// one is missing.
pub open spec fn join_path(root: Seq<char>, frag: Seq<char>) -> Seq<char> {
    if frag.len() > 0 && frag[0] == '/' {
        frag
    } else if root.len() == 0 {
        frag
    } else if root.last() == '/' {
        root + frag
    } else {
        root + seq!['/'] + frag
    }
}

/// Joins a root directory and a path fragment.
pub fn path_join(root: &str, frag: &str) -> (r: String)
    ensures
        r@ == join_path(root@, frag@),
{
    let flen = frag.unicode_len();
    if flen > 0 && frag.get_char(0) == '/' {
        return frag.to_owned();
    }
    let rn = root.unicode_len();
    if rn == 0 {
        return frag.to_owned();
    }
    let mut r = root.to_owned();
    if root.get_char(rn - 1) != '/' {
        r.append("/");
        proof {
            reveal_strlit("/");
            assert(r@ =~= root@ + seq!['/']);
        }
    }
    r.append(frag);
    proof {
        assert(r@ =~= join_path(root@, frag@));
    }
    r
}

} // verus!
