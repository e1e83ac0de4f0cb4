//! Unix paths as text: components, joining, parents and order.

use vstd::prelude::*;
use vstd::string::*;

use crate::text;
use crate::text::fields;
use crate::text_laws;

verus! {

/// Whether `p` starts at the root.
pub open spec fn absolute(p: Seq<char>) -> bool {
    p.len() > 0 && p[0] == '/'
}

/// Whether the first thing `p` names is the current directory.
pub open spec fn leading_dot(p: Seq<char>) -> bool {
    p.len() > 0 && p[0] == '.' && (p.len() == 1 || p[1] == '/')
}

/// Whether a piece between slashes stands for a step: it is not empty, and not `.`.
pub open spec fn is_step(piece: Seq<char>) -> bool {
    piece.len() > 0 && piece != seq!['.']
}

/// The steps among `pieces`, in order.
pub open spec fn steps(pieces: Seq<Seq<char>>) -> Seq<Seq<char>>
    decreases pieces.len(),
{
    if pieces.len() == 0 {
        seq![]
    } else if is_step(pieces.last()) {
        steps(pieces.drop_last()).push(pieces.last())
    } else {
        steps(pieces.drop_last())
    }
}

/// What `p` starts from: the root, the current directory when it is named, or nothing.
pub open spec fn start(p: Seq<char>) -> Seq<Seq<char>> {
    if absolute(p) {
        seq![seq!['/']]
    } else if leading_dot(p) {
        seq![seq!['.']]
    } else {
        seq![]
    }
}

/// The components of `p`: its start, then its steps. Repeated and trailing slashes
/// name nothing, and neither does `.` past the start.
pub open spec fn components(p: Seq<char>) -> Seq<Seq<char>> {
    start(p) + steps(fields(p, '/'))
}

/// Whether `a` and `b` have the same components.
pub open spec fn same_path(a: Seq<char>, b: Seq<char>) -> bool {
    components(a) == components(b)
}

/// `base` followed by `rest`: `rest` alone when it is absolute, else the two with one
/// slash between them where `base` is not empty and ends in none.
pub open spec fn joined(base: Seq<char>, rest: Seq<char>) -> Seq<char> {
    if absolute(rest) {
        rest
    } else if base.len() == 0 || base.last() == '/' {
        base + rest
    } else {
        base + seq!['/'] + rest
    }
}

/// The last component of `p`, when it is a name.
pub open spec fn file_name_of(p: Seq<char>) -> Option<Seq<char>> {
    let c = components(p);
    if c.len() == 0 || c.last() == seq!['/'] || c.last() == seq!['.'] || c.last() == seq![
        '.',
        '.',
    ] {
        None
    } else {
        Some(c.last())
    }
}

/// How much of `p` its start takes.
pub open spec fn start_len(p: Seq<char>) -> int {
    if absolute(p) || leading_dot(p) {
        1
    } else {
        0
    }
}

/// Where the last piece of `p` past `lo` starts: after the last slash there, or at `lo`.
pub open spec fn last_piece_start(p: Seq<char>, lo: int) -> int
    decreases p.len(),
{
    if p.len() <= lo || p.len() == 0 {
        lo
    } else if p.last() == '/' {
        p.len() as int
    } else {
        last_piece_start(p.drop_last(), lo)
    }
}

/// `p` without its last piece past `lo` and the slash before that piece.
pub open spec fn without_last_piece(p: Seq<char>, lo: int) -> Seq<char> {
    let k = last_piece_start(p, lo);
    if lo < k <= p.len() {
        p.take(k - 1)
    } else {
        p.take(lo)
    }
}

/// `p` without the pieces at its end, past `lo`, that are no steps.
pub open spec fn trim_tail(p: Seq<char>, lo: int) -> Seq<char>
    decreases p.len(),
{
    if 0 <= lo < p.len() && !is_step(p.skip(last_piece_start(p, lo))) {
        trim_tail(without_last_piece(p, lo), lo)
    } else {
        p
    }
}

/// `p` without its last component: nothing is left of a leading `.`, and the root and
/// the empty path have no parent.
pub open spec fn parent_of(p: Seq<char>) -> Option<Seq<char>> {
    let lo = start_len(p);
    let whole = trim_tail(p, lo);
    if whole.len() > lo {
        Some(trim_tail(without_last_piece(whole, lo), lo))
    } else if leading_dot(p) {
        Some(seq![])
    } else {
        None
    }
}

proof fn lemma_trim_tail(p: Seq<char>, lo: int)
    requires
        0 <= lo <= p.len(),
    ensures
        lo <= trim_tail(p, lo).len() <= p.len(),
        trim_tail(p, lo) =~= p.take(trim_tail(p, lo).len() as int),
        trim_tail(p, lo).len() > lo ==> is_step(
            trim_tail(p, lo).skip(last_piece_start(trim_tail(p, lo), lo)),
        ),
    decreases p.len(),
{
    if lo < p.len() && !is_step(p.skip(last_piece_start(p, lo))) {
        lemma_trim_tail(without_last_piece(p, lo), lo);
    }
}

/// A parent is shorter than its path.
pub proof fn lemma_parent_shorter(p: Seq<char>)
    ensures
        parent_of(p) matches Some(q) ==> q.len() < p.len() && q =~= p.take(q.len() as int),
{
    let lo = start_len(p);
    lemma_trim_tail(p, lo);
    let whole = trim_tail(p, lo);
    if whole.len() > lo {
        lemma_trim_tail(without_last_piece(whole, lo), lo);
    }
}

/// `p`, its parent, the parent of that, and so on.
pub open spec fn ancestors_of(p: Seq<char>) -> Seq<Seq<char>>
    decreases p.len(),
{
    proof {
        lemma_parent_shorter(p);
    }
    match parent_of(p) {
        Some(q) => seq![p] + ancestors_of(q),
        None => seq![p],
    }
}

/// A text without separators has one field, itself.
proof fn lemma_fields_single(p: Seq<char>, c: char)
    requires
        forall|i: int| 0 <= i < p.len() ==> p[i] != c,
    ensures
        fields(p, c) == seq![p],
{
    text::lemma_position_unique(p, c, p.len() as int);
}

/// The last field of `p` is what follows its last separator, at `k`.
proof fn lemma_fields_last(p: Seq<char>, c: char, k: int)
    requires
        0 <= k < p.len(),
        p[k] == c,
        forall|i: int| k < i < p.len() ==> p[i] != c,
    ensures
        fields(p, c) == fields(p.take(k), c).push(p.skip(k + 1)),
    decreases p.len(),
{
    text::lemma_position(p, c);
    let j = text::position(p, c) as int;
    if j > k {
        assert(p[k] != c);
    }
    let rest = p.skip(j + 1);
    if j == k {
        lemma_fields_single(p.take(k), c);
        lemma_fields_single(rest, c);
        assert(fields(p, c) =~= seq![p.take(k)] + seq![rest]);
        assert(fields(p, c) =~= seq![p.take(k)].push(rest));
    } else {
        lemma_fields_last(rest, c, k - j - 1);
        let head = p.take(k);
        text::lemma_position_unique(head, c, j);
        assert(head.take(j) =~= p.take(j));
        assert(head.skip(j + 1) =~= rest.take(k - j - 1));
        assert(rest.skip(k - j) =~= p.skip(k + 1));
        assert(fields(p, c) =~= seq![p.take(j)] + fields(rest.take(k - j - 1), c).push(
            p.skip(k + 1),
        ));
        assert(fields(p, c) =~= fields(head, c).push(p.skip(k + 1)));
    }
}

proof fn lemma_last_piece(p: Seq<char>, lo: int)
    requires
        0 <= lo <= p.len(),
    ensures
        lo <= last_piece_start(p, lo) <= p.len(),
        last_piece_start(p, lo) > lo ==> p[last_piece_start(p, lo) - 1] == '/',
        forall|i: int| last_piece_start(p, lo) <= i < p.len() ==> p[i] != '/',
    decreases p.len(),
{
    if lo < p.len() && p.last() != '/' {
        lemma_last_piece(p.drop_last(), lo);
        let k = last_piece_start(p, lo);
        assert forall|i: int| k <= i < p.len() implies p[i] != '/' by {
            if i < p.len() - 1 {
                assert(p.drop_last()[i] != '/');
            }
        }
    }
}

/// Taking off the last piece takes off one step, if the piece is one, and nothing else.
proof fn lemma_without_last_piece(p: Seq<char>)
    requires
        start_len(p) < p.len(),
    ensures
        ({
            let lo = start_len(p);
            let w = without_last_piece(p, lo);
            let piece = p.skip(last_piece_start(p, lo));
            &&& lo <= w.len() < p.len()
            &&& start(w) == start(p)
            &&& start_len(w) == lo
            &&& components(p) == if is_step(piece) {
                components(w).push(piece)
            } else {
                components(w)
            }
        }),
{
    reveal_with_fuel(steps, 3);
    let lo = start_len(p);
    lemma_last_piece(p, lo);
    let k = last_piece_start(p, lo);
    let w = without_last_piece(p, lo);
    let piece = p.skip(k);
    let all = fields(p, '/');
    if k > lo {
        lemma_fields_last(p, '/', k - 1);
        assert(all == fields(w, '/').push(piece));
        assert(all.drop_last() =~= fields(w, '/'));
        assert(all.last() == piece);
    } else if absolute(p) {
        lemma_fields_last(p, '/', 0);
        lemma_fields_single(p.take(0), '/');
        lemma_fields_last(w, '/', 0);
        assert(w.take(0) =~= p.take(0));
        assert(w.skip(1) =~= Seq::<char>::empty());
        let none = seq![p.take(0)];
        assert(all =~= none.push(piece));
        assert(all.drop_last() =~= none);
        assert(fields(w, '/') =~= none.push(w.skip(1)));
        assert(fields(w, '/').drop_last() =~= none);
        assert(none.drop_last() =~= Seq::<Seq<char>>::empty());
        assert(steps(none) =~= Seq::<Seq<char>>::empty());
        assert(steps(fields(w, '/')) =~= Seq::<Seq<char>>::empty());
        assert(steps(all.drop_last()) == steps(none));
    } else {
        assert(!leading_dot(p)) by {
            if leading_dot(p) {
                assert(p[1] != '/');
            }
        }
        lemma_fields_single(p, '/');
        lemma_fields_single(w, '/');
        assert(p.skip(0) =~= p);
        assert(all =~= seq![piece]);
        assert(all.drop_last() =~= Seq::<Seq<char>>::empty());
        assert(fields(w, '/').drop_last() =~= Seq::<Seq<char>>::empty());
        assert(steps(fields(w, '/')) =~= Seq::<Seq<char>>::empty());
    }
    if w.len() > 0 {
        assert(w[0] == p[0]);
    }
    if w.len() > 1 {
        assert(w[1] == p[1]);
    }
    assert(start(w) == start(p));
    assert(steps(all) == if is_step(piece) {
        steps(fields(w, '/')).push(piece)
    } else {
        steps(fields(w, '/'))
    });
    assert(components(p) =~= if is_step(piece) {
        components(w).push(piece)
    } else {
        components(w)
    });
}

/// Tail pieces that are no steps name nothing.
proof fn lemma_trim_tail_components(p: Seq<char>)
    ensures
        components(trim_tail(p, start_len(p))) == components(p),
        start_len(trim_tail(p, start_len(p))) == start_len(p),
    decreases p.len(),
{
    let lo = start_len(p);
    if lo < p.len() && !is_step(p.skip(last_piece_start(p, lo))) {
        lemma_without_last_piece(p);
        lemma_trim_tail_components(without_last_piece(p, lo));
    }
}

/// A path without anything past its start has no steps.
proof fn lemma_start_alone(p: Seq<char>)
    requires
        p.len() == start_len(p),
    ensures
        components(p) == start(p),
{
    reveal_with_fuel(steps, 3);
    if absolute(p) {
        lemma_fields_last(p, '/', 0);
        lemma_fields_single(p.take(0), '/');
        let none = seq![p.take(0)];
        assert(fields(p, '/') =~= none.push(p.skip(1)));
        assert(fields(p, '/').drop_last() =~= none);
        assert(none.drop_last() =~= Seq::<Seq<char>>::empty());
        assert(steps(none) =~= Seq::<Seq<char>>::empty());
    } else {
        lemma_fields_single(p, '/');
        assert(fields(p, '/').drop_last() =~= Seq::<Seq<char>>::empty());
        assert(leading_dot(p) ==> p =~= seq!['.']);
    }
    assert(steps(fields(p, '/')) =~= Seq::<Seq<char>>::empty());
    assert(components(p) =~= start(p));
}

/// A parent has all components of its path but the last, and is a prefix of its text.
/// Only the root and a path without components have no parent.
pub proof fn law_parent_drops_the_last_component(p: Seq<char>)
    ensures
        match parent_of(p) {
            Some(q) => {
                &&& components(p).len() > 0
                &&& components(q) == components(p).drop_last()
                &&& q.len() < p.len()
                &&& q == p.take(q.len() as int)
            },
            None => components(p) == seq![seq!['/']] || components(p).len() == 0,
        },
{
    let lo = start_len(p);
    lemma_parent_shorter(p);
    lemma_trim_tail(p, lo);
    lemma_trim_tail_components(p);
    let whole = trim_tail(p, lo);
    if whole.len() > lo {
        lemma_without_last_piece(whole);
        let w = without_last_piece(whole, lo);
        lemma_trim_tail_components(w);
        assert(components(w) =~= components(p).drop_last());
    } else {
        lemma_start_alone(whole);
        if leading_dot(p) {
            lemma_start_alone(Seq::<char>::empty());
            assert(components(Seq::<char>::empty()) =~= components(p).drop_last());
        }
    }
}

/// Whether `name` is a name for one thing in a directory.
pub open spec fn is_plain_name(name: Seq<char>) -> bool {
    &&& is_step(name)
    &&& name != seq!['.', '.']
    &&& forall|i: int| 0 <= i < name.len() ==> name[i] != '/'
}

/// Joining a name to a directory adds one component, the name, which is then the file
/// name of the whole.
pub proof fn law_join_adds_a_component(dir: Seq<char>, name: Seq<char>)
    requires
        is_plain_name(name),
    ensures
        components(joined(dir, name)) == components(dir).push(name),
        file_name_of(joined(dir, name)) == Some(name),
{
    let p = joined(dir, name);
    let lo = start_len(p);
    let at = p.len() - name.len();
    assert(p.skip(at) =~= name);
    assert forall|i: int| at <= i < p.len() implies p[i] != '/' by {
        assert(p[i] == name[i - at]);
    }
    if leading_dot(name) {
        if name.len() == 1 {
            assert(name =~= seq!['.']);
        } else {
            assert(name[1] != '/');
        }
    }
    if dir.len() == 0 {
        assert(p =~= name);
        lemma_start_alone(dir);
        lemma_last_piece(p, lo);
        lemma_without_last_piece(p);
        assert(p.take(0) =~= dir);
        assert(p.skip(0) =~= p);
    } else {
        assert(p[0] == dir[0]);
        assert(p[at - 1] == '/');
        lemma_last_piece(p, lo);
        let k = last_piece_start(p, lo);
        assert(at >= lo);
        if k > at {
            assert(p[k - 1] != '/');
        }
        if k < at {
            assert(p[at - 1] != '/');
        }
        lemma_without_last_piece(p);
        let w = without_last_piece(p, lo);
        if dir.last() != '/' {
            assert(at - 1 == dir.len());
            assert(at > lo);
            assert(w =~= dir);
        } else if at > lo {
            assert(w =~= dir.drop_last());
            if start_len(dir) < dir.len() {
                lemma_last_piece(dir, start_len(dir));
                assert(last_piece_start(dir, start_len(dir)) == dir.len());
                lemma_without_last_piece(dir);
                assert(start_len(dir) == lo);
                assert(without_last_piece(dir, lo) =~= dir.drop_last());
                assert(dir.skip(dir.len() as int) =~= Seq::<char>::empty());
            }
            assert(components(w) == components(dir));
        } else {
            assert(dir.len() == 1);
            assert(w =~= dir);
        }
    }
    assert(components(p).last() == name);
    assert(name != seq!['/']) by {
        assert(name[0] != '/');
    }
}

/// Every ancestor of `p` has the first components of `p`, one fewer each time.
pub proof fn law_ancestors_are_prefixes(p: Seq<char>, i: int)
    requires
        0 <= i < ancestors_of(p).len(),
    ensures
        i <= components(p).len(),
        components(ancestors_of(p)[i]) == components(p).take(components(p).len() - i),
    decreases i,
{
    law_parent_drops_the_last_component(p);
    if i == 0 {
        assert(components(p).take(components(p).len() as int) =~= components(p));
    } else {
        let q = parent_of(p).unwrap();
        assert(ancestors_of(p)[i] == ancestors_of(q)[i - 1]);
        law_ancestors_are_prefixes(q, i - 1);
        assert(components(q).take(components(q).len() - (i - 1)) =~= components(p).take(
            components(p).len() - i,
        ));
    }
}

/// A parent starts where its path does.
proof fn lemma_parent_start(p: Seq<char>)
    ensures
        parent_of(p) matches Some(q) ==> absolute(q) == absolute(p),
{
    let lo = start_len(p);
    lemma_parent_shorter(p);
    lemma_trim_tail(p, lo);
    let whole = trim_tail(p, lo);
    if whole.len() > lo {
        lemma_trim_tail(without_last_piece(whole, lo), lo);
        let q = parent_of(p).unwrap();
        assert(q.len() >= lo);
        if q.len() > 0 {
            assert(q[0] == p[0]);
        }
    }
}

/// The ancestors of a path start at the path, go from each to its parent, and end where
/// there is no parent. So there is one for each component, and one more for a path that
/// does not start at the root.
pub proof fn law_ancestors_go_on_to_the_end(p: Seq<char>)
    ensures
        ancestors_of(p).len() > 0,
        ancestors_of(p)[0] == p,
        forall|i: int|
            0 <= i < ancestors_of(p).len() - 1 ==> parent_of(#[trigger] ancestors_of(p)[i])
                == Some(ancestors_of(p)[i + 1]),
        parent_of(ancestors_of(p).last()) is None,
        ancestors_of(p).len() == components(p).len() + if absolute(p) {
            0nat
        } else {
            1nat
        },
    decreases p.len(),
{
    law_parent_drops_the_last_component(p);
    lemma_parent_start(p);
    match parent_of(p) {
        Some(q) => {
            law_ancestors_go_on_to_the_end(q);
            let all = ancestors_of(p);
            let rest = ancestors_of(q);
            assert(all.skip(1) =~= rest);
            assert(all.last() == rest.last());
            assert forall|i: int| 0 <= i < all.len() - 1 implies parent_of(#[trigger] all[i])
                == Some(all[i + 1]) by {
                if i > 0 {
                    assert(all[i] == rest[i - 1]);
                    assert(all[i + 1] == rest[i]);
                }
            }
        },
        None => {
            lemma_absolute_components(p);
        },
    }
}

/// Exactly the paths from the root start with the root's component.
proof fn lemma_absolute_components(p: Seq<char>)
    ensures
        absolute(p) ==> components(p).len() > 0 && components(p)[0] == seq!['/'],
        components(p) == seq![seq!['/']] ==> absolute(p),
{
    if !absolute(p) && components(p) == seq![seq!['/']] {
        assert(components(p)[0] == seq!['/']);
        if leading_dot(p) {
            assert(components(p)[0] == seq!['.']);
            assert(seq!['.'][0] == '.');
        } else {
            assert(components(p) =~= steps(fields(p, '/')));
            lemma_steps_are_pieces(fields(p, '/'), 0);
            text_laws::law_fields_join_back(p, '/');
            assert(seq!['/'][0] == '/');
        }
        assert(false);
    }
}

proof fn lemma_steps_are_pieces(pieces: Seq<Seq<char>>, i: int)
    requires
        0 <= i < steps(pieces).len(),
    ensures
        is_step(steps(pieces)[i]),
        exists|j: int| 0 <= j < pieces.len() && #[trigger] pieces[j] == steps(pieces)[i],
    decreases pieces.len(),
{
    if is_step(pieces.last()) && i == steps(pieces).len() - 1 {
        assert(pieces[pieces.len() - 1] == steps(pieces)[i]);
    } else {
        lemma_steps_are_pieces(pieces.drop_last(), i);
        let j = choose|j: int|
            0 <= j < pieces.drop_last().len() && #[trigger] pieces.drop_last()[j] == steps(
                pieces.drop_last(),
            )[i];
        assert(pieces[j] == pieces.drop_last()[j]);
    }
}

/// Joining puts one slash between the two texts where there is none, and nothing else; an
/// absolute path stays alone.
pub proof fn law_joining_puts_one_slash_between(base: Seq<char>, rest: Seq<char>)
    ensures
        rest.len() > 0 && rest[0] == '/' ==> joined(base, rest) == rest,
        rest.len() == 0 || rest[0] != '/' ==> {
            &&& base.is_prefix_of(joined(base, rest))
            &&& rest.is_suffix_of(joined(base, rest))
            &&& base.len() == 0 || base.last() == '/' ==> joined(base, rest).len() == base.len()
                + rest.len()
            &&& base.len() > 0 && base.last() != '/' ==> joined(base, rest).len() == base.len()
                + 1 + rest.len() && joined(base, rest)[base.len() as int] == '/'
        },
{
    let p = joined(base, rest);
    if !absolute(rest) {
        assert(base =~= p.subrange(0, base.len() as int));
        assert(rest =~= p.subrange(p.len() - rest.len(), p.len() as int));
    }
}

proof fn lemma_fields_concat(a: Seq<char>, b: Seq<char>, c: char)
    ensures
        fields(a + seq![c] + b, c) == fields(a, c) + fields(b, c),
    decreases a.len(),
{
    let whole = a + seq![c] + b;
    text::lemma_position(a, c);
    let k = text::position(a, c) as int;
    if k < a.len() {
        assert forall|i: int| 0 <= i < k implies whole[i] != c by {
            assert(whole[i] == a[i]);
        }
        assert(whole[k] == a[k]);
    } else {
        assert forall|i: int| 0 <= i < k implies whole[i] != c by {
            assert(whole[i] == a[i]);
        }
        assert(whole[k] == c);
    }
    text::lemma_position_unique(whole, c, k);
    assert(whole.take(k) =~= a.take(k));
    if k < a.len() {
        assert(whole.skip(k + 1) =~= a.skip(k + 1) + seq![c] + b);
        lemma_fields_concat(a.skip(k + 1), b, c);
    } else {
        assert(a.take(k) =~= a);
        assert(whole.skip(k + 1) =~= b);
    }
    assert(fields(whole, c) =~= fields(a, c) + fields(b, c));
}

proof fn lemma_steps_concat(a: Seq<Seq<char>>, b: Seq<Seq<char>>)
    ensures
        steps(a + b) == steps(a) + steps(b),
    decreases b.len(),
{
    if b.len() == 0 {
        assert(a + b =~= a);
        assert(steps(a) + steps(b) =~= steps(a));
    } else {
        assert((a + b).drop_last() =~= a + b.drop_last());
        assert((a + b).last() == b.last());
        lemma_steps_concat(a, b.drop_last());
        assert(steps(a + b) =~= steps(a) + steps(b));
    }
}

/// The components of a path are read piece by piece between the slashes. A piece alone is
/// a component unless it is empty; after a slash it is none if it is empty or `.`. The
/// root is a component of its own, and what follows a slash adds its components to what
/// stands before it.
pub proof fn law_components_are_read_piece_by_piece(
    piece: Seq<char>,
    before: Seq<char>,
    after: Seq<char>,
)
    requires
        forall|i: int| 0 <= i < piece.len() ==> piece[i] != '/',
        before.len() > 0,
    ensures
        components(piece) == if piece.len() == 0 {
            seq![]
        } else {
            seq![piece]
        },
        components(seq!['/'] + piece) == if piece.len() == 0 || piece == seq!['.'] {
            seq![seq!['/']]
        } else {
            seq![seq!['/'], piece]
        },
        components(before + seq!['/'] + after) == components(before) + components(
            seq!['/'] + after,
        ).skip(1),
{
    reveal_with_fuel(steps, 3);
    let none = Seq::<char>::empty();
    lemma_fields_single(piece, '/');
    lemma_fields_single(none, '/');
    assert(seq![piece].drop_last() =~= Seq::<Seq<char>>::empty());
    assert(seq![none].drop_last() =~= Seq::<Seq<char>>::empty());
    assert(leading_dot(piece) ==> piece =~= seq!['.']) by {
        if leading_dot(piece) && piece.len() > 1 {
            assert(piece[1] != '/');
        }
    }
    if piece == seq!['.'] {
        assert(piece[0] == '.');
    }
    if piece.len() > 0 {
        assert(piece[0] != '/');
    }
    assert(steps(seq![piece]) =~= if is_step(piece) {
        seq![piece]
    } else {
        seq![]
    });
    assert(components(piece) =~= if piece.len() == 0 {
        seq![]
    } else {
        seq![piece]
    });
    lemma_rooted(piece);
    assert(components(seq!['/'] + piece) =~= if piece.len() == 0 || piece == seq!['.'] {
        seq![seq!['/']]
    } else {
        seq![seq!['/'], piece]
    });
    lemma_rooted(after);
    let whole = before + seq!['/'] + after;
    lemma_fields_concat(before, after, '/');
    lemma_steps_concat(fields(before, '/'), fields(after, '/'));
    assert(whole[0] == before[0]);
    if before.len() > 1 {
        assert(whole[1] == before[1]);
    } else {
        assert(whole[1] == '/');
    }
    assert(start(whole) == start(before));
    assert(components(seq!['/'] + after).skip(1) =~= steps(fields(after, '/')));
    assert(components(whole) =~= components(before) + steps(fields(after, '/')));
}

proof fn lemma_rooted(p: Seq<char>)
    ensures
        components(seq!['/'] + p) == seq![seq!['/']] + steps(fields(p, '/')),
{
    reveal_with_fuel(steps, 2);
    let none = Seq::<char>::empty();
    assert(none + seq!['/'] + p =~= seq!['/'] + p);
    lemma_fields_concat(none, p, '/');
    lemma_fields_single(none, '/');
    lemma_steps_concat(seq![none], fields(p, '/'));
    assert(seq![none].drop_last() =~= Seq::<Seq<char>>::empty());
    assert(steps(seq![none]) =~= Seq::<Seq<char>>::empty());
    assert(steps(fields(seq!['/'] + p, '/')) =~= steps(fields(p, '/')));
}

/// The file name is the last component, where that is a name and not the root, `.` or
/// `..`; together with the components of the parent it makes up those of the path.
pub proof fn law_file_name_is_the_last_component(p: Seq<char>)
    ensures
        match file_name_of(p) {
            Some(file) => {
                &&& components(p).len() > 0 && components(p).last() == file
                &&& file != seq!['/'] && file != seq!['.'] && file != seq!['.', '.']
                &&& parent_of(p) matches Some(q) && components(p) == components(q).push(file)
            },
            None => components(p).len() == 0 || components(p).last() == seq!['/'] || components(
                p,
            ).last() == seq!['.'] || components(p).last() == seq!['.', '.'],
        },
{
    law_parent_drops_the_last_component(p);
    if file_name_of(p) is Some {
        let c = components(p);
        assert(c.len() > 0);
        assert(parent_of(p) is Some) by {
            if parent_of(p) is None {
                assert(c == seq![seq!['/']]);
                assert(c.last() == seq!['/']);
            }
        }
        assert(c =~= c.drop_last().push(c.last()));
    }
}

/// A parent is written without a slash or a `/.` at its end, but for the root.
pub proof fn law_parent_is_written_tidily(p: Seq<char>)
    ensures
        parent_of(p) matches Some(q) ==> q.len() > 1 ==> {
            &&& q.last() != '/'
            &&& !(q.last() == '.' && q[q.len() - 2] == '/')
        },
{
    let lo = start_len(p);
    lemma_parent_shorter(p);
    lemma_trim_tail(p, lo);
    let whole = trim_tail(p, lo);
    if whole.len() > lo {
        let w = without_last_piece(whole, lo);
        lemma_trim_tail(w, lo);
        let q = trim_tail(w, lo);
        if q.len() > 1 {
            lemma_last_piece(q, lo);
            let k = last_piece_start(q, lo);
            let piece = q.skip(k);
            assert(is_step(piece));
            assert(piece.last() == q.last());
            if q.last() == '.' && q[q.len() - 2] == '/' {
                if k < q.len() - 1 {
                    if k <= q.len() - 2 {
                        assert(q[q.len() - 2] != '/');
                    }
                }
                assert(piece =~= seq!['.']);
            }
        }
    }
}

/// The components of `p`.
pub fn split<'a>(p: &'a str) -> (r: Vec<&'a str>)
    ensures
        r.deep_view() == components(p@),
{
    proof {
        reveal_strlit("/");
        reveal_strlit(".");
    }
    let pieces = text::split_fields(p, '/');
    let mut out: Vec<&'a str> = Vec::new();
    let chars = text::chars_of(p);
    if chars.len() > 0 && chars[0] == '/' {
        out.push("/");
    } else if chars.len() > 0 && chars[0] == '.' && (chars.len() == 1 || chars[1] == '/') {
        out.push(".");
    }
    assert("/"@ =~= seq!['/']);
    assert("."@ =~= seq!['.']);
    let ghost all = pieces.deep_view();
    assert(out.deep_view() =~= start(p@));
    assert(all.take(0) =~= Seq::<Seq<char>>::empty());
    assert(out.deep_view() =~= start(p@) + steps(all.take(0)));
    let mut i: usize = 0;
    while i < pieces.len()
        invariant
            all == pieces.deep_view(),
            "."@ == seq!['.'],
            i <= pieces.len(),
            out.deep_view() == start(p@) + steps(all.take(i as int)),
        decreases pieces.len() - i,
    {
        let piece = pieces[i];
        let ghost before = out.deep_view();
        assert(all.take(i + 1).drop_last() =~= all.take(i as int));
        assert(all.take(i + 1).last() == piece@);
        if !piece.is_empty() && !text::same(piece, ".") {
            out.push(piece);
            assert(out.deep_view() =~= before.push(piece@));
            assert(out.deep_view() =~= start(p@) + steps(all.take(i + 1)));
        }
        i += 1;
    }
    assert(all.take(i as int) =~= all);
    out
}

/// Whether `a` and `b` have the same components.
pub fn equal(a: &str, b: &str) -> (r: bool)
    ensures
        r == same_path(a@, b@),
        r == (components(a@) == components(b@)),
{
    let left = split(a);
    let right = split(b);
    if left.len() != right.len() {
        assert(left.deep_view().len() != right.deep_view().len());
        return false;
    }
    let mut i: usize = 0;
    while i < left.len()
        invariant
            left.deep_view() == components(a@),
            right.deep_view() == components(b@),
            left.len() == right.len(),
            i <= left.len(),
            forall|j: int| 0 <= j < i ==> left[j]@ == right[j]@,
        decreases left.len() - i,
    {
        if !text::same(left[i], right[i]) {
            assert(left.deep_view()[i as int] != right.deep_view()[i as int]);
            return false;
        }
        i += 1;
    }
    assert(left.deep_view() =~= right.deep_view());
    true
}

/// `base` followed by `rest`.
pub fn join(base: &str, rest: &str) -> (r: String)
    ensures
        r@ == joined(base@, rest@),
{
    let tail = text::chars_of(rest);
    if tail.len() > 0 && tail[0] == '/' {
        return rest.to_owned();
    }
    let head = text::chars_of(base);
    if head.len() == 0 || head[head.len() - 1] == '/' {
        base.to_owned().concat(rest)
    } else {
        proof {
            reveal_strlit("/");
        }
        assert("/"@ =~= seq!['/']);
        base.to_owned().concat("/").concat(rest)
    }
}

/// The last component of `p`, when it is a name.
pub fn file_name<'a>(p: &'a str) -> (r: Option<&'a str>)
    ensures
        r.deep_view() == file_name_of(p@),
{
    let parts = split(p);
    if parts.len() == 0 {
        assert(components(p@).len() == 0);
        return None;
    }
    let last = parts[parts.len() - 1];
    assert(components(p@).last() == last@);
    proof {
        reveal_strlit("/");
        reveal_strlit(".");
        reveal_strlit("..");
    }
    assert("/"@ =~= seq!['/']);
    assert("."@ =~= seq!['.']);
    assert(".."@ =~= seq!['.', '.']);
    if text::same(last, "/") || text::same(last, ".") || text::same(last, "..") {
        None
    } else {
        Some(last)
    }
}

fn find_last_piece(chars: &Vec<char>, len: usize, lo: usize) -> (r: usize)
    requires
        lo <= len <= chars.len(),
    ensures
        lo <= r <= len,
        r == last_piece_start(chars@.take(len as int), lo as int),
{
    let mut i: usize = len;
    while i > lo && chars[i - 1] != '/'
        invariant
            lo <= i <= len <= chars.len(),
            last_piece_start(chars@.take(len as int), lo as int) == last_piece_start(
                chars@.take(i as int),
                lo as int,
            ),
        decreases i,
    {
        assert(chars@.take(i as int).drop_last() =~= chars@.take(i - 1));
        i -= 1;
    }
    i
}

/// The length of the first `len` characters without the tail pieces that are no steps.
fn trimmed_len(chars: &Vec<char>, len: usize, lo: usize) -> (r: usize)
    requires
        lo <= len <= chars.len(),
    ensures
        lo <= r <= len,
        chars@.take(r as int) == trim_tail(chars@.take(len as int), lo as int),
{
    let mut n: usize = len;
    loop
        invariant
            lo <= n <= len <= chars.len(),
            trim_tail(chars@.take(n as int), lo as int) == trim_tail(
                chars@.take(len as int),
                lo as int,
            ),
        ensures
            lo <= n <= len,
            chars@.take(n as int) == trim_tail(chars@.take(len as int), lo as int),
        decreases n,
    {
        if n == lo {
            break;
        }
        let ghost p = chars@.take(n as int);
        let k = find_last_piece(chars, n, lo);
        let blank = k == n || (k + 1 == n && chars[k] == '.');
        proof {
            let piece = p.skip(k as int);
            if k + 1 == n {
                assert(piece =~= seq![chars[k as int]]);
                assert(chars[k as int] != '.' ==> piece[0] != seq!['.'][0]);
            } else if k < n {
                assert(piece.len() != seq!['.'].len());
            }
            assert(blank == !is_step(piece));
        }
        if !blank {
            break;
        }
        if k > lo {
            assert(without_last_piece(p, lo as int) =~= chars@.take(k - 1));
            n = k - 1;
        } else {
            assert(without_last_piece(p, lo as int) =~= chars@.take(lo as int));
            n = lo;
        }
    }
    n
}

/// `p` without its last component.
pub fn parent<'a>(p: &'a str) -> (r: Option<&'a str>)
    ensures
        r.deep_view() == parent_of(p@),
{
    let chars = text::chars_of(p);
    let dot = chars.len() > 0 && chars[0] == '.' && (chars.len() == 1 || chars[1] == '/');
    let lo: usize = if dot || (chars.len() > 0 && chars[0] == '/') {
        1
    } else {
        0
    };
    assert(p@.take(p@.len() as int) =~= p@);
    let whole = trimmed_len(&chars, chars.len(), lo);
    if whole > lo {
        let k = find_last_piece(&chars, whole, lo);
        let cut: usize = if k > lo {
            k - 1
        } else {
            lo
        };
        assert(without_last_piece(p@.take(whole as int), lo as int) =~= p@.take(cut as int));
        let end = trimmed_len(&chars, cut, lo);
        let q = p.substring_char(0, end);
        assert(q@ =~= p@.take(end as int));
        Some(q)
    } else if dot {
        let q = p.substring_char(0, 0);
        assert(q@ =~= Seq::<char>::empty());
        Some(q)
    } else {
        None
    }
}

/// `p`, its parent, the parent of that, and so on.
pub fn ancestors<'a>(p: &'a str) -> (r: Vec<&'a str>)
    ensures
        r.deep_view() == ancestors_of(p@),
{
    let mut out: Vec<&'a str> = Vec::new();
    let mut here: &'a str = p;
    let mut next: Option<&'a str> = parent(here);
    out.push(here);
    assert(out.deep_view() =~= seq![p@]);
    loop
        invariant
            next.deep_view() == parent_of(here@),
            out.deep_view() + (match parent_of(here@) {
                Some(q) => ancestors_of(q),
                None => seq![],
            }) =~= ancestors_of(p@),
        ensures
            out.deep_view() == ancestors_of(p@),
        decreases here@.len(),
    {
        match next {
            Some(q) => {
                let ghost before = out.deep_view();
                proof {
                    lemma_parent_shorter(here@);
                }
                here = q;
                out.push(here);
                assert(out.deep_view() =~= before.push(q@));
                next = parent(here);
            },
            None => {
                break;
            },
        }
    }
    out
}

} // verus!
