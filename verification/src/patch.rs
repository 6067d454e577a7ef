//! Byte-level context patches.
//!
//! A patch records the difference between two versions of a file's content as
//! a replaced middle together with up to `CONTEXT_BYTES` bytes of surrounding
//! context.  Applying a patch to a third version succeeds only when the
//! context together with the replaced middle occurs exactly once in it, so a
//! target that was edited elsewhere keeps those edits, and an ambiguous or
//! conflicting target is refused rather than guessed at.

use vstd::prelude::*;

use crate::util::copy_range;
use crate::util::push_all;

verus! {

pub const CONTEXT_BYTES: usize = 16;

/// A context patch: replace `old_mid` by `new_mid`, anchored by the
/// surrounding bytes `pre` and `post`.
pub struct Patch {
    pub pre: Vec<u8>,
    pub old_mid: Vec<u8>,
    pub new_mid: Vec<u8>,
    pub post: Vec<u8>,
}

pub ghost struct PatchModel {
    pub pre: Seq<u8>,
    pub old_mid: Seq<u8>,
    pub new_mid: Seq<u8>,
    pub post: Seq<u8>,
}

impl View for Patch {
    type V = PatchModel;

    open spec fn view(&self) -> PatchModel {
        PatchModel {
            pre: self.pre@,
            old_mid: self.old_mid@,
            new_mid: self.new_mid@,
            post: self.post@,
        }
    }
}

/// The bytes a patch must find in its target: context, old middle, context.
pub open spec fn needle(p: PatchModel) -> Seq<u8> {
    p.pre + p.old_mid + p.post
}

/// The bytes the patch puts in their place: context, new middle, context.
pub open spec fn replacement(p: PatchModel) -> Seq<u8> {
    p.pre + p.new_mid + p.post
}

/// `n` occurs in `t` at position `i`.
pub open spec fn occurs_at(t: Seq<u8>, n: Seq<u8>, i: int) -> bool {
    0 <= i && i + n.len() <= t.len() && t.subrange(i, i + n.len()) == n
}

/// Number of occurrences of `n` in `t` at positions at or after `i`.
pub open spec fn occ_count_from(t: Seq<u8>, n: Seq<u8>, i: int) -> nat
    decreases t.len() - i + 1,
{
    if i < 0 || i + n.len() > t.len() {
        0
    } else {
        ((if occurs_at(t, n, i) {
            1nat
        } else {
            0nat
        }) + occ_count_from(t, n, i + 1)) as nat
    }
}

pub open spec fn occ_count(t: Seq<u8>, n: Seq<u8>) -> nat {
    occ_count_from(t, n, 0)
}

/// First position at or after `i` at which `n` occurs in `t`; `-1` if none.
pub open spec fn first_occ_from(t: Seq<u8>, n: Seq<u8>, i: int) -> int
    decreases t.len() - i + 1,
{
    if i < 0 || i + n.len() > t.len() {
        -1
    } else if occurs_at(t, n, i) {
        i
    } else {
        first_occ_from(t, n, i + 1)
    }
}

pub open spec fn first_occ(t: Seq<u8>, n: Seq<u8>) -> int {
    first_occ_from(t, n, 0)
}

/// What applying a patch yields: when the needle occurs exactly once, the
/// target with the needle's occurrence replaced by the replacement; otherwise
/// nothing (a conflict).
pub open spec fn apply_patch_spec(target: Seq<u8>, p: PatchModel) -> Option<Seq<u8>> {
    if occ_count(target, needle(p)) == 1 {
        let f = first_occ(target, needle(p));
        Some(
            target.subrange(0, f) + replacement(p) + target.subrange(
                f + needle(p).len(),
                target.len() as int,
            ),
        )
    } else {
        Option::None
    }
}

/// Length of the longest common prefix of two byte sequences.
pub open spec fn common_prefix_len(a: Seq<u8>, b: Seq<u8>) -> int
    decreases a.len(),
{
    if a.len() == 0 || b.len() == 0 || a[0] != b[0] {
        0
    } else {
        1 + common_prefix_len(a.skip(1), b.skip(1))
    }
}

/// Length of the longest common suffix of two byte sequences.
pub open spec fn common_suffix_len(a: Seq<u8>, b: Seq<u8>) -> int
    decreases a.len(),
{
    if a.len() == 0 || b.len() == 0 || a.last() != b.last() {
        0
    } else {
        1 + common_suffix_len(a.drop_last(), b.drop_last())
    }
}

/// The patch carrying one content change: the differing middle between the
/// longest common prefix and the longest common suffix of the two versions,
/// with up to `CONTEXT_BYTES` bytes of context kept on each side.
pub open spec fn compute_patch_spec(old_content: Seq<u8>, new_content: Seq<u8>) -> PatchModel {
    let p = common_prefix_len(old_content, new_content);
    let s = common_suffix_len(old_content.skip(p), new_content.skip(p));
    let pre_start = if p >= CONTEXT_BYTES as int {
        p - CONTEXT_BYTES as int
    } else {
        0
    };
    let post_len = if s >= CONTEXT_BYTES as int {
        CONTEXT_BYTES as int
    } else {
        s
    };
    PatchModel {
        pre: old_content.subrange(pre_start, p),
        old_mid: old_content.subrange(p, old_content.len() - s),
        new_mid: new_content.subrange(p, new_content.len() - s),
        post: old_content.subrange(
            old_content.len() - s,
            old_content.len() - s + post_len,
        ),
    }
}

proof fn lemma_cpl_bounds(a: Seq<u8>, b: Seq<u8>)
    ensures
        0 <= common_prefix_len(a, b) <= a.len(),
        common_prefix_len(a, b) <= b.len(),
        forall|j: int| 0 <= j < common_prefix_len(a, b) ==> a[j] == b[j],
    decreases a.len(),
{
    if a.len() == 0 || b.len() == 0 || a[0] != b[0] {
    } else {
        lemma_cpl_bounds(a.skip(1), b.skip(1));
        let c = common_prefix_len(a, b);
        assert forall|j: int| 0 <= j < c implies a[j] == b[j] by {
            if j > 0 {
                assert(a.skip(1)[j - 1] == b.skip(1)[j - 1]);
                assert(a.skip(1)[j - 1] == a[j]);
                assert(b.skip(1)[j - 1] == b[j]);
            }
        }
    }
}

proof fn lemma_csl_bounds(a: Seq<u8>, b: Seq<u8>)
    ensures
        0 <= common_suffix_len(a, b) <= a.len(),
        common_suffix_len(a, b) <= b.len(),
        forall|j: int|
            0 <= j < common_suffix_len(a, b) ==> #[trigger] a[a.len() - 1 - j] == b[b.len() - 1
                - j],
    decreases a.len(),
{
    if a.len() == 0 || b.len() == 0 || a.last() != b.last() {
    } else {
        lemma_csl_bounds(a.drop_last(), b.drop_last());
        let c = common_suffix_len(a, b);
        assert forall|j: int| 0 <= j < c implies #[trigger] a[a.len() - 1 - j] == b[b.len() - 1
            - j] by {
            if j > 0 {
                assert(a.drop_last()[a.len() - 2 - (j - 1)] == b.drop_last()[b.len() - 2 - (j
                    - 1)]);
                assert(a.drop_last()[a.len() - 1 - j] == a[a.len() - 1 - j]);
                assert(b.drop_last()[b.len() - 1 - j] == b[b.len() - 1 - j]);
            }
        }
    }
}

/// The prefix loop's stopping point is the common prefix length.
proof fn lemma_cpl_char(a: Seq<u8>, b: Seq<u8>, c: int)
    requires
        0 <= c <= a.len(),
        c <= b.len(),
        forall|j: int| 0 <= j < c ==> a[j] == b[j],
        c < a.len() && c < b.len() ==> a[c] != b[c],
    ensures
        common_prefix_len(a, b) == c,
    decreases a.len(),
{
    if c == 0 {
        if a.len() == 0 || b.len() == 0 {
        } else {
            assert(a[0] != b[0]);
        }
    } else {
        assert(a[0] == b[0]);
        assert forall|j: int| 0 <= j < c - 1 implies a.skip(1)[j] == b.skip(1)[j] by {
            assert(a.skip(1)[j] == a[j + 1]);
            assert(b.skip(1)[j] == b[j + 1]);
        }
        if c - 1 < a.skip(1).len() && c - 1 < b.skip(1).len() {
            assert(a.skip(1)[c - 1] == a[c]);
            assert(b.skip(1)[c - 1] == b[c]);
        }
        lemma_cpl_char(a.skip(1), b.skip(1), c - 1);
    }
}

/// The suffix loop's stopping point is the common suffix length.
proof fn lemma_csl_char(a: Seq<u8>, b: Seq<u8>, c: int)
    requires
        0 <= c <= a.len(),
        c <= b.len(),
        forall|j: int| 0 <= j < c ==> #[trigger] a[a.len() - 1 - j] == b[b.len() - 1 - j],
        c < a.len() && c < b.len() ==> a[a.len() - 1 - c] != b[b.len() - 1 - c],
    ensures
        common_suffix_len(a, b) == c,
    decreases a.len(),
{
    if c == 0 {
        if a.len() == 0 || b.len() == 0 {
        } else {
            assert(a[a.len() - 1] != b[b.len() - 1]);
        }
    } else {
        assert(a[a.len() - 1 - 0] == b[b.len() - 1 - 0]);
        assert forall|j: int|
            0 <= j < c - 1 implies #[trigger] a.drop_last()[a.drop_last().len() - 1 - j]
            == b.drop_last()[b.drop_last().len() - 1 - j] by {
            assert(a.drop_last()[a.len() - 2 - j] == a[a.len() - 2 - j]);
            assert(b.drop_last()[b.len() - 2 - j] == b[b.len() - 2 - j]);
            assert(a[a.len() - 1 - (j + 1)] == b[b.len() - 1 - (j + 1)]);
        }
        if c - 1 < a.drop_last().len() && c - 1 < b.drop_last().len() {
            assert(a.drop_last()[a.drop_last().len() - 1 - (c - 1)] == a[a.len() - 1 - c]);
            assert(b.drop_last()[b.drop_last().len() - 1 - (c - 1)] == b[b.len() - 1 - c]);
        }
        lemma_csl_char(a.drop_last(), b.drop_last(), c - 1);
    }
}

proof fn lemma_occ_ge_one(t: Seq<u8>, n: Seq<u8>, j: int, i: int)
    requires
        0 <= j <= i,
        occurs_at(t, n, i),
    ensures
        occ_count_from(t, n, j) >= 1,
    decreases i - j,
{
    if j < i {
        lemma_occ_ge_one(t, n, j + 1, i);
    }
}

proof fn lemma_occ_ge_two(t: Seq<u8>, n: Seq<u8>, j: int, i1: int, i2: int)
    requires
        0 <= j <= i1 < i2,
        occurs_at(t, n, i1),
        occurs_at(t, n, i2),
    ensures
        occ_count_from(t, n, j) >= 2,
    decreases i1 - j,
{
    if j == i1 {
        lemma_occ_ge_one(t, n, j + 1, i2);
    } else {
        lemma_occ_ge_two(t, n, j + 1, i1, i2);
    }
}

proof fn lemma_first_from(t: Seq<u8>, n: Seq<u8>, j: int, i: int)
    requires
        0 <= j <= i,
        occurs_at(t, n, i),
        forall|m: int| j <= m < i ==> !occurs_at(t, n, m),
    ensures
        first_occ_from(t, n, j) == i,
    decreases i - j,
{
    if j < i {
        lemma_first_from(t, n, j + 1, i);
    }
}

/// Unstaged edits survive: when the target is any surrounding `x ... y`
/// around the one occurrence of the needle, applying the patch rewrites
/// exactly the needle's span and returns `x`, the replacement, then `y`.
pub proof fn lemma_patch_preserves_disjoint_edits(x: Seq<u8>, y: Seq<u8>, p: PatchModel)
    requires
        occ_count(x + needle(p) + y, needle(p)) == 1,
    ensures
        apply_patch_spec(x + needle(p) + y, p) == Some(x + replacement(p) + y),
{
    let t = x + needle(p) + y;
    let n = needle(p);
    assert(occurs_at(t, n, x.len() as int)) by {
        assert(t.subrange(x.len() as int, x.len() + n.len() as int) =~= n);
    }
    assert forall|m: int| 0 <= m < x.len() implies !occurs_at(t, n, m) by {
        if occurs_at(t, n, m) {
            lemma_occ_ge_two(t, n, 0, m, x.len() as int);
        }
    }
    lemma_first_from(t, n, 0, x.len() as int);
    assert(t.subrange(0, x.len() as int) =~= x);
    assert(t.subrange(x.len() + n.len() as int, t.len() as int) =~= y);
}

/// A patch applies back onto the very content it was computed from — provided
/// its needle is unambiguous there — and yields the new content exactly.
#[verifier::rlimit(100)]
pub proof fn lemma_patch_roundtrip(old_content: Seq<u8>, new_content: Seq<u8>)
    requires
        occ_count(old_content, needle(compute_patch_spec(old_content, new_content))) == 1,
    ensures
        apply_patch_spec(old_content, compute_patch_spec(old_content, new_content)) == Some(
            new_content,
        ),
{
    let pm = compute_patch_spec(old_content, new_content);
    let la = old_content.len() as int;
    let lb = new_content.len() as int;
    let p = common_prefix_len(old_content, new_content);
    lemma_cpl_bounds(old_content, new_content);
    let s = common_suffix_len(old_content.skip(p), new_content.skip(p));
    lemma_csl_bounds(old_content.skip(p), new_content.skip(p));
    assert forall|j: int| 0 <= j < s implies #[trigger] old_content[la - 1 - j] == new_content[lb
        - 1 - j] by {
        assert(old_content.skip(p)[old_content.skip(p).len() - 1 - j] == new_content.skip(p)[
        new_content.skip(p).len() - 1 - j]);
        assert(old_content.skip(p)[la - p - 1 - j] == old_content[la - 1 - j]);
        assert(new_content.skip(p)[lb - p - 1 - j] == new_content[lb - 1 - j]);
    }
    let pre_start = if p >= CONTEXT_BYTES as int {
        p - CONTEXT_BYTES as int
    } else {
        0
    };
    let post_len = if s >= CONTEXT_BYTES as int {
        CONTEXT_BYTES as int
    } else {
        s
    };
    let x = old_content.subrange(0, pre_start);
    let y = old_content.subrange(la - s + post_len, la);
    assert(old_content =~= x + needle(pm) + y);
    assert(x + needle(pm) + y == old_content);
    lemma_patch_preserves_disjoint_edits(x, y, pm);
    assert forall|i: int| 0 <= i < lb implies (x + replacement(pm) + y)[i] == new_content[i] by {
        if i < p {
            assert(old_content[i] == new_content[i]);
        } else if i < lb - s {
        } else {
            let j = lb - 1 - i;
            assert(0 <= j < s);
            assert(old_content[la - 1 - j] == new_content[lb - 1 - j]);
        }
    }
    assert(x + replacement(pm) + y =~= new_content);
}

fn matches_at(t: &Vec<u8>, n: &Vec<u8>, i: usize) -> (r: bool)
    requires
        i <= t.len() - n.len(),
        n.len() <= t.len(),
    ensures
        r == occurs_at(t@, n@, i as int),
{
    let tl: usize = t.len();
    let mut j: usize = 0;
    while j < n.len()
        invariant
            tl == t@.len(),
            i + n@.len() <= t@.len(),
            j <= n.len(),
            forall|m: int| 0 <= m < j ==> t@[i + m] == n@[m],
        decreases n.len() - j,
    {
        if t[i + j] != n[j] {
            proof {
                assert(t@.subrange(i as int, i + n@.len())[j as int] == t@[i + j]);
            }
            return false;
        }
        j = j + 1;
    }
    proof {
        assert(t@.subrange(i as int, i + n@.len()) =~= n@);
    }
    true
}

pub open spec fn cap2(x: nat) -> nat {
    if x >= 2 {
        2
    } else {
        x
    }
}

/// Scan the target once: how often (capped at two) and first where the
/// needle occurs.
fn count_and_first(t: &Vec<u8>, n: &Vec<u8>) -> (r: (usize, Option<usize>))
    requires
        1 <= n.len() <= t.len(),
    ensures
        r.0 as nat == cap2(occ_count(t@, n@)),
        r.1 matches Some(f) ==> first_occ(t@, n@) == f as int,
        r.1 is None ==> first_occ(t@, n@) == -1 && occ_count(t@, n@) == 0,
{
    let lim = t.len() - n.len();
    let mut i: usize = 0;
    let mut count: usize = 0;
    let mut first: Option<usize> = Option::None;
    let ghost mut c: nat = 0nat;
    while i <= lim
        invariant
            lim == t@.len() - n@.len(),
            lim < usize::MAX,
            1 <= n@.len() <= t@.len(),
            i <= lim + 1,
            first is None ==> c == 0,
            count as nat == cap2(c),
            occ_count(t@, n@) == c + occ_count_from(t@, n@, i as int),
            first matches Some(f) ==> first_occ(t@, n@) == f as int && f < i,
            first is None ==> first_occ(t@, n@) == first_occ_from(t@, n@, i as int),
        decreases lim + 1 - i,
    {
        if matches_at(t, n, i) {
            if count < 2 {
                count = count + 1;
            }
            if first.is_none() {
                first = Some(i);
            }
            proof {
                c = c + 1;
            }
        }
        i = i + 1;
    }
    proof {
        assert(occ_count_from(t@, n@, i as int) == 0);
        assert(first_occ_from(t@, n@, i as int) == -1);
    }
    (count, first)
}

/// Apply a patch to target content.  Succeeds exactly when the needle —
/// context, old middle, context — occurs exactly once in the target, and then
/// replaces that one occurrence; any other target is reported as a conflict.
pub fn apply_patch(target: &Vec<u8>, patch: &Patch) -> (r: Option<Vec<u8>>)
    ensures
        (r is Some) == (occ_count(target@, needle(patch@)) == 1),
        r matches Some(out) ==> Some(out@) == apply_patch_spec(target@, patch@),
        r is None ==> apply_patch_spec(target@, patch@) is None,
{
    let mut nd: Vec<u8> = Vec::new();
    push_all(&mut nd, &patch.pre);
    push_all(&mut nd, &patch.old_mid);
    push_all(&mut nd, &patch.post);
    proof {
        assert(nd@ =~= needle(patch@));
    }
    if nd.len() == 0 {
        proof {
            lemma_occ_empty(target@, nd@, 0);
        }
        if target.len() == 0 {
            let mut out: Vec<u8> = Vec::new();
            push_all(&mut out, &patch.pre);
            push_all(&mut out, &patch.new_mid);
            push_all(&mut out, &patch.post);
            proof {
                assert(occurs_at(target@, nd@, 0)) by {
                    assert(target@.subrange(0, 0) =~= nd@);
                }
                assert(first_occ(target@, nd@) == 0);
                assert(out@ =~= target@.subrange(0, 0) + replacement(patch@) + target@.subrange(
                    0,
                    target@.len() as int,
                ));
            }
            Some(out)
        } else {
            Option::None
        }
    } else if nd.len() > target.len() {
        proof {
            assert(occ_count(target@, nd@) == 0);
        }
        Option::None
    } else {
        let (count, first) = count_and_first(target, &nd);
        if count == 1 {
            let f = match first {
                Some(f) => f,
                Option::None => {
                    proof {
                        assert(false);
                    }
                    0
                },
            };
            proof {
                lemma_first_occurs(target@, nd@, 0);
            }
            let mut out = copy_range(target, 0, f);
            push_all(&mut out, &patch.pre);
            push_all(&mut out, &patch.new_mid);
            push_all(&mut out, &patch.post);
            let rest = copy_range(target, f + nd.len(), target.len());
            push_all(&mut out, &rest);
            proof {
                assert(out@ =~= target@.subrange(0, f as int) + replacement(patch@)
                    + target@.subrange(f + needle(patch@).len(), target@.len() as int));
            }
            Some(out)
        } else {
            Option::None
        }
    }
}

/// An empty needle occurs at every position.
proof fn lemma_occ_empty(t: Seq<u8>, n: Seq<u8>, i: int)
    requires
        n.len() == 0,
        0 <= i <= t.len(),
    ensures
        occ_count_from(t, n, i) == t.len() - i + 1,
    decreases t.len() - i,
{
    assert(occurs_at(t, n, i)) by {
        assert(t.subrange(i, i) =~= n);
    }
    if i < t.len() {
        lemma_occ_empty(t, n, i + 1);
    } else {
        assert(occ_count_from(t, n, i + 1) == 0);
    }
}

/// Where the first-occurrence search returns a position, the needle occurs
/// there.
proof fn lemma_first_occurs(t: Seq<u8>, n: Seq<u8>, j: int)
    requires
        0 <= j,
    ensures
        first_occ_from(t, n, j) >= 0 ==> occurs_at(t, n, first_occ_from(t, n, j)),
    decreases t.len() - j + 1,
{
    if j + n.len() > t.len() {
    } else if occurs_at(t, n, j) {
    } else {
        lemma_first_occurs(t, n, j + 1);
    }
}

/// Compute the patch carrying the change from one content version to
/// another.
pub fn compute_patch(old_content: &Vec<u8>, new_content: &Vec<u8>) -> (r: Patch)
    ensures
        r@ == compute_patch_spec(old_content@, new_content@),
{
    let la = old_content.len();
    let lb = new_content.len();
    let mut p: usize = 0;
    while p < la && p < lb && old_content[p] == new_content[p]
        invariant
            p <= la <= old_content@.len(),
            p <= lb <= new_content@.len(),
            la == old_content@.len(),
            lb == new_content@.len(),
            forall|j: int| 0 <= j < p ==> old_content@[j] == new_content@[j],
        decreases la - p,
    {
        p = p + 1;
    }
    proof {
        lemma_cpl_char(old_content@, new_content@, p as int);
    }
    let mut s: usize = 0;
    while s < la - p && s < lb - p && old_content[la - 1 - s] == new_content[lb - 1 - s]
        invariant
            p <= la <= old_content@.len(),
            p <= lb <= new_content@.len(),
            la == old_content@.len(),
            lb == new_content@.len(),
            s <= la - p,
            s <= lb - p,
            forall|j: int|
                0 <= j < s ==> #[trigger] old_content@[la - 1 - j] == new_content@[lb - 1 - j],
        decreases la - s,
    {
        s = s + 1;
    }
    proof {
        let a = old_content@.skip(p as int);
        let b = new_content@.skip(p as int);
        assert forall|j: int| 0 <= j < s implies #[trigger] a[a.len() - 1 - j] == b[b.len() - 1
            - j] by {
            assert(a[a.len() - 1 - j] == old_content@[la - 1 - j]);
            assert(b[b.len() - 1 - j] == new_content@[lb - 1 - j]);
        }
        if (s as int) < a.len() && (s as int) < b.len() {
            assert(a[a.len() - 1 - s] == old_content@[la - 1 - s]);
            assert(b[b.len() - 1 - s] == new_content@[lb - 1 - s]);
        }
        lemma_csl_char(a, b, s as int);
    }
    let pre_start = if p >= CONTEXT_BYTES {
        p - CONTEXT_BYTES
    } else {
        0
    };
    let post_len = if s >= CONTEXT_BYTES {
        CONTEXT_BYTES
    } else {
        s
    };
    Patch {
        pre: copy_range(old_content, pre_start, p),
        old_mid: copy_range(old_content, p, la - s),
        new_mid: copy_range(new_content, p, lb - s),
        post: copy_range(old_content, la - s, la - s + post_len),
    }
}

} // verus!
