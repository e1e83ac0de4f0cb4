//! The order of paths: component by component, as a directory listing is sorted.

use vstd::prelude::*;
use vstd::seq_lib::*;

use crate::path;
use crate::path::components;
use crate::text;

verus! {

/// Whether `a` stands no later than `b` when texts are compared character by character.
pub open spec fn text_le(a: Seq<char>, b: Seq<char>) -> bool
    decreases a.len(),
{
    if a.len() == 0 {
        true
    } else if b.len() == 0 {
        false
    } else if a[0] == b[0] {
        text_le(a.skip(1), b.skip(1))
    } else {
        a[0] < b[0]
    }
}

/// The root stands first, then the current directory, then the parent, then names.
pub open spec fn rank(component: Seq<char>) -> int {
    if component == seq!['/'] {
        0
    } else if component == seq!['.'] {
        1
    } else if component == seq!['.', '.'] {
        2
    } else {
        3
    }
}

/// Whether `a` stands no later than `b` among components.
pub open spec fn component_le(a: Seq<char>, b: Seq<char>) -> bool {
    rank(a) < rank(b) || (rank(a) == rank(b) && text_le(a, b))
}

/// Whether `a` stands no later than `b` when components are compared in turn.
pub open spec fn components_le(a: Seq<Seq<char>>, b: Seq<Seq<char>>) -> bool
    decreases a.len(),
{
    if a.len() == 0 {
        true
    } else if b.len() == 0 {
        false
    } else if a[0] == b[0] {
        components_le(a.skip(1), b.skip(1))
    } else {
        component_le(a[0], b[0])
    }
}

/// Whether the path `a` stands no later than the path `b`.
pub open spec fn path_le(a: Seq<char>, b: Seq<char>) -> bool {
    components_le(components(a), components(b))
}

/// Whether `paths` are in order.
pub open spec fn is_sorted(paths: Seq<Seq<char>>) -> bool {
    forall|i: int, j: int| 0 <= i < j < paths.len() ==> path_le(#[trigger] paths[i], #[trigger] paths[j])
}

proof fn lemma_text_total(a: Seq<char>, b: Seq<char>)
    ensures
        text_le(a, b) || text_le(b, a),
        text_le(a, b) && text_le(b, a) ==> a == b,
    decreases a.len(),
{
    if a.len() > 0 && b.len() > 0 && a[0] == b[0] {
        lemma_text_total(a.skip(1), b.skip(1));
        if text_le(a, b) && text_le(b, a) {
            assert(a =~= seq![a[0]] + a.skip(1));
            assert(b =~= seq![b[0]] + b.skip(1));
        }
    } else if a.len() == 0 && b.len() == 0 {
        assert(a =~= b);
    }
}

proof fn lemma_text_transitive(a: Seq<char>, b: Seq<char>, c: Seq<char>)
    requires
        text_le(a, b),
        text_le(b, c),
    ensures
        text_le(a, c),
    decreases a.len(),
{
    if a.len() > 0 && b.len() > 0 && c.len() > 0 && a[0] == b[0] && b[0] == c[0] {
        lemma_text_transitive(a.skip(1), b.skip(1), c.skip(1));
    }
}

proof fn lemma_component_total(a: Seq<char>, b: Seq<char>)
    ensures
        component_le(a, b) || component_le(b, a),
        component_le(a, b) && component_le(b, a) ==> a == b,
{
    lemma_text_total(a, b);
}

proof fn lemma_component_transitive(a: Seq<char>, b: Seq<char>, c: Seq<char>)
    requires
        component_le(a, b),
        component_le(b, c),
    ensures
        component_le(a, c),
{
    if rank(a) == rank(b) && rank(b) == rank(c) {
        lemma_text_transitive(a, b, c);
    }
}

proof fn lemma_components_total(a: Seq<Seq<char>>, b: Seq<Seq<char>>)
    ensures
        components_le(a, b) || components_le(b, a),
        components_le(a, b) && components_le(b, a) ==> a == b,
    decreases a.len(),
{
    if a.len() > 0 && b.len() > 0 {
        if a[0] == b[0] {
            lemma_components_total(a.skip(1), b.skip(1));
            if components_le(a, b) && components_le(b, a) {
                assert(a =~= seq![a[0]] + a.skip(1));
                assert(b =~= seq![b[0]] + b.skip(1));
            }
        } else {
            lemma_component_total(a[0], b[0]);
        }
    } else if a.len() == 0 && b.len() == 0 {
        assert(a =~= b);
    }
}

proof fn lemma_components_transitive(a: Seq<Seq<char>>, b: Seq<Seq<char>>, c: Seq<Seq<char>>)
    requires
        components_le(a, b),
        components_le(b, c),
    ensures
        components_le(a, c),
    decreases a.len(),
{
    if a.len() > 0 && b.len() > 0 && c.len() > 0 {
        if a[0] == b[0] && b[0] == c[0] {
            lemma_components_transitive(a.skip(1), b.skip(1), c.skip(1));
        } else if a[0] != b[0] && b[0] != c[0] {
            lemma_component_transitive(a[0], b[0], c[0]);
            lemma_component_total(a[0], b[0]);
        }
    }
}

/// Any two paths stand in order one way or the other, and both ways only when they
/// are the same path.
pub proof fn law_path_order_is_total(a: Seq<char>, b: Seq<char>)
    ensures
        path_le(a, b) || path_le(b, a),
        path_le(a, b) && path_le(b, a) <==> path::same_path(a, b),
{
    lemma_components_total(components(a), components(b));
}

/// The order of paths is transitive.
pub proof fn law_path_order_is_transitive(a: Seq<char>, b: Seq<char>, c: Seq<char>)
    requires
        path_le(a, b),
        path_le(b, c),
    ensures
        path_le(a, c),
{
    lemma_components_transitive(components(a), components(b), components(c));
}

/// Texts are ordered by the first character in which they differ, and a text stands before
/// what is longer by something at its end.
pub proof fn law_texts_are_ordered_by_the_first_difference(
    common: Seq<char>,
    c: char,
    d: char,
    y: Seq<char>,
    z: Seq<char>,
)
    requires
        c < d,
    ensures
        text_le(common + seq![c] + y, common + seq![d] + z),
        !text_le(common + seq![d] + z, common + seq![c] + y),
        text_le(common, common + y),
        y.len() > 0 ==> !text_le(common + y, common),
    decreases common.len(),
{
    if common.len() > 0 {
        let rest = common.skip(1);
        law_texts_are_ordered_by_the_first_difference(rest, c, d, y, z);
        assert((common + seq![c] + y).skip(1) =~= rest + seq![c] + y);
        assert((common + seq![d] + z).skip(1) =~= rest + seq![d] + z);
        assert((common + y).skip(1) =~= rest + y);
    } else {
        assert((common + seq![c] + y)[0] == c);
        assert((common + seq![d] + z)[0] == d);
    }
}

proof fn lemma_first_difference(
    common: Seq<Seq<char>>,
    a: Seq<char>,
    b: Seq<char>,
    y: Seq<Seq<char>>,
    z: Seq<Seq<char>>,
)
    requires
        a != b,
    ensures
        components_le(common + seq![a] + y, common + seq![b] + z) == component_le(a, b),
        components_le(common, common + y),
        y.len() > 0 ==> !components_le(common + y, common),
    decreases common.len(),
{
    if common.len() > 0 {
        let rest = common.skip(1);
        lemma_first_difference(rest, a, b, y, z);
        assert((common + seq![a] + y).skip(1) =~= rest + seq![a] + y);
        assert((common + seq![b] + z).skip(1) =~= rest + seq![b] + z);
        assert((common + y).skip(1) =~= rest + y);
        assert((common + seq![a] + y)[0] == common[0]);
        assert((common + seq![b] + z)[0] == common[0]);
        assert((common + y)[0] == common[0]);
    } else {
        assert((common + seq![a] + y)[0] == a);
        assert((common + seq![b] + z)[0] == b);
    }
}

/// Paths are ordered by the first component in which they differ: two names by their
/// texts, and the root, `.` and `..` before every name, in this order. A path stands
/// before what is below it.
pub proof fn law_paths_are_ordered_by_the_first_difference(
    p: Seq<char>,
    q: Seq<char>,
    common: Seq<Seq<char>>,
    a: Seq<char>,
    b: Seq<char>,
    y: Seq<Seq<char>>,
    z: Seq<Seq<char>>,
)
    requires
        components(p) == common + seq![a] + y,
    ensures
        a != b && components(q) == common + seq![b] + z ==> {
            let special = seq![seq!['/'], seq!['.'], seq!['.', '.']];
            &&& !special.contains(a) && !special.contains(b) ==> path_le(p, q) == text_le(a, b)
            &&& special.contains(a) && !special.contains(b) ==> path_le(p, q) && !path_le(q, p)
            &&& forall|i: int, j: int|
                0 <= i < j < 3 && #[trigger] special[i] == a && #[trigger] special[j] == b
                    ==> path_le(p, q) && !path_le(q, p)
        },
        components(q) == common ==> path_le(q, p) && !path_le(p, q),
{
    let special = seq![seq!['/'], seq!['.'], seq!['.', '.']];
    assert(special[0] == seq!['/'] && special[1] == seq!['.'] && special[2] == seq!['.', '.']);
    assert(seq!['/'][0] == '/' && seq!['.'][0] == '.');
    assert(seq!['.', '.'].len() == 2 && seq!['.', '.'][0] == '.');
    if a != b {
        lemma_first_difference(common, a, b, y, z);
        lemma_first_difference(common, b, a, z, y);
    }
    assert(common + (seq![a] + y) =~= common + seq![a] + y);
    lemma_first_difference(common, a, a.push('x'), seq![a] + y, z);
}

fn text_no_later(a: &str, b: &str) -> (r: bool)
    ensures
        r == text_le(a@, b@),
{
    let left = text::chars_of(a);
    let right = text::chars_of(b);
    let mut i: usize = 0;
    assert(a@.skip(0) =~= a@);
    assert(b@.skip(0) =~= b@);
    while i < left.len() && i < right.len() && left[i] == right[i]
        invariant
            left@ == a@,
            right@ == b@,
            i <= left.len(),
            i <= right.len(),
            text_le(a@, b@) == text_le(a@.skip(i as int), b@.skip(i as int)),
        decreases left.len() - i,
    {
        assert(a@.skip(i as int).skip(1) =~= a@.skip(i + 1));
        assert(b@.skip(i as int).skip(1) =~= b@.skip(i + 1));
        i += 1;
    }
    if i == left.len() {
        true
    } else if i == right.len() {
        false
    } else {
        left[i] < right[i]
    }
}

fn rank_of(component: &str) -> (r: u8)
    ensures
        r == rank(component@),
{
    proof {
        reveal_strlit("/");
        reveal_strlit(".");
        reveal_strlit("..");
    }
    assert("/"@ =~= seq!['/']);
    assert("."@ =~= seq!['.']);
    assert(".."@ =~= seq!['.', '.']);
    if text::same(component, "/") {
        0
    } else if text::same(component, ".") {
        1
    } else if text::same(component, "..") {
        2
    } else {
        3
    }
}

/// Whether the path `a` stands no later than the path `b`.
pub fn no_later(a: &str, b: &str) -> (r: bool)
    ensures
        r == path_le(a@, b@),
{
    let left = path::split(a);
    let right = path::split(b);
    let ghost all = left.deep_view();
    let ghost others = right.deep_view();
    let mut i: usize = 0;
    assert(all.skip(0) =~= all);
    assert(others.skip(0) =~= others);
    while i < left.len() && i < right.len() && text::same(left[i], right[i])
        invariant
            all == left.deep_view(),
            others == right.deep_view(),
            i <= left.len(),
            i <= right.len(),
            components_le(all, others) == components_le(all.skip(i as int), others.skip(i as int)),
        decreases left.len() - i,
    {
        assert(all.skip(i as int).skip(1) =~= all.skip(i + 1));
        assert(others.skip(i as int).skip(1) =~= others.skip(i + 1));
        assert(all.skip(i as int)[0] == left[i as int]@);
        assert(others.skip(i as int)[0] == right[i as int]@);
        i += 1;
    }
    if i == left.len() {
        return true;
    }
    if i == right.len() {
        return false;
    }
    assert(all.skip(i as int)[0] == left[i as int]@);
    assert(others.skip(i as int)[0] == right[i as int]@);
    let x = rank_of(left[i]);
    let y = rank_of(right[i]);
    x < y || (x == y && text_no_later(left[i], right[i]))
}

/// `paths` in order.
pub fn sorted(paths: Vec<String>) -> (r: Vec<String>)
    ensures
        is_sorted(r.deep_view()),
        forall|i: int, j: int|
            0 <= i < j < r@.len() ==> path_le((#[trigger] r@[i])@, (#[trigger] r@[j])@),
        r.deep_view().to_multiset() == paths.deep_view().to_multiset(),
{
    let ghost all = paths.deep_view();
    let mut out: Vec<String> = Vec::new();
    let mut i: usize = 0;
    assert(out.deep_view() =~= all.take(0));
    while i < paths.len()
        invariant
            all == paths.deep_view(),
            i <= paths.len(),
            is_sorted(out.deep_view()),
            out.deep_view().to_multiset() == all.take(i as int).to_multiset(),
        decreases paths.len() - i,
    {
        let next = paths[i].clone();
        let mut at: usize = out.len();
        let ghost before = out.deep_view();
        while at > 0 && !no_later(out[at - 1].as_str(), next.as_str())
            invariant
                before == out.deep_view(),
                at <= out.len(),
                forall|j: int| at <= j < out.len() ==> path_le(next@, before[j]),
            decreases at,
        {
            proof {
                law_path_order_is_total(before[at - 1], next@);
            }
            at -= 1;
        }
        proof {
            assert forall|j: int| 0 <= j < at implies path_le(before[j], next@) by {
                if j < at - 1 {
                    law_path_order_is_transitive(before[j], before[at - 1], next@);
                }
            }
        }
        out.insert(at, next);
        assert(out.deep_view() =~= before.insert(at as int, next@));
        proof {
            let after = out.deep_view();
            assert forall|x: int, y: int| 0 <= x < y < after.len() implies path_le(
                #[trigger] after[x],
                #[trigger] after[y],
            ) by {
                let u = if x < at {
                    x
                } else {
                    x - 1
                };
                let v = if y < at {
                    y
                } else {
                    y - 1
                };
                if x != at && y != at {
                    assert(path_le(before[u], before[v]));
                }
            }
            to_multiset_insert(before, at as int, next@);
            assert(all.take(i + 1) =~= all.take(i as int).push(next@));
            to_multiset_build(all.take(i as int), next@);
        }
        i += 1;
    }
    assert(all.take(i as int) =~= all);
    proof {
        let done = out.deep_view();
        assert forall|x: int, y: int| 0 <= x < y < out@.len() implies path_le(
            (#[trigger] out@[x])@,
            (#[trigger] out@[y])@,
        ) by {
            assert(done[x] == out@[x]@ && done[y] == out@[y]@);
        }
    }
    out
}

} // verus!
