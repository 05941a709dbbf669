use vstd::prelude::*;
use crate::decl::{Decl, Function, Marker, Segment, Stmt, children, marker_of, subtree_at};
use crate::walk::{child_in_block, child_scope, effective, rewritten, walked};

verus! {

/// What a call of a function body does with respect to interception: an
/// override registered under an identity answers the call, or the statements
/// that remain run as written.
pub enum Outcome {
    Overridden((Seq<Segment>, Seq<char>)),
    Proceeds(Seq<Stmt>),
}

/// The outcome of calling a body while the overrides under `active` are registered.
pub open spec fn run(body: Seq<Stmt>, active: Set<(Seq<Segment>, Seq<char>)>) -> Outcome
    decreases body.len(),
{
    if body.len() > 0 && body[0] is Intercept {
        let id = body[0]->Intercept_0.identity@;
        if active.contains(id) {
            Outcome::Overridden(id)
        } else {
            run(body.drop_first(), active)
        }
    } else {
        Outcome::Proceeds(body)
    }
}

proof fn lemma_walked_child(d: Decl, r: Decl, inherited: bool, scope: Seq<Segment>, in_block: bool, i: int)
    requires
        walked(d, r, inherited, scope, in_block),
        marker_of(d) != Marker::Suppress,
        0 <= i < children(d).len(),
    ensures
        children(r).len() == children(d).len(),
        walked(
            children(d)[i],
            children(r)[i],
            effective(d, inherited, in_block),
            child_scope(d, scope),
            child_in_block(d),
        ),
{
    match d {
        Decl::Module { .. } => {},
        Decl::Impl { .. } => {},
        Decl::Trait { .. } => {},
        _ => {},
    }
}

proof fn lemma_kept(d: Decl, r: Decl, inherited: bool, scope: Seq<Segment>, in_block: bool, path: Seq<int>)
    requires
        walked(d, r, inherited, scope, in_block),
        subtree_at(d, path) matches Some(n) && (marker_of(n) == Marker::Suppress
            || (n matches Decl::Function(f) && !f.qualifiers.permits_interception())),
    ensures
        subtree_at(r, path) == subtree_at(d, path),
    decreases path.len(),
{
    if marker_of(d) == Marker::Suppress {
    } else if path.len() == 0 {
    } else {
        let i = path[0];
        lemma_walked_child(d, r, inherited, scope, in_block, i);
        lemma_kept(
            children(d)[i],
            children(r)[i],
            effective(d, inherited, in_block),
            child_scope(d, scope),
            child_in_block(d),
            path.drop_first(),
        );
    }
}

/// A node marked `Suppress` comes out of the traversal exactly as it went in,
/// with every function below it, whatever its ancestors are marked.
pub proof fn suppress_is_absolute(d: Decl, r: Decl, inherited: bool, path: Seq<int>)
    requires
        walked(d, r, inherited, Seq::empty(), false),
        subtree_at(d, path) matches Some(n) && marker_of(n) == Marker::Suppress,
    ensures
        subtree_at(r, path) == subtree_at(d, path),
{
    lemma_kept(d, r, inherited, Seq::empty(), false, path);
}

/// A function that is evaluable at compile time, memory-unsafe or generated
/// comes out of the traversal unchanged, however it is flagged.
pub proof fn eligibility_gates_rewriting(d: Decl, r: Decl, inherited: bool, path: Seq<int>, f: Function)
    requires
        walked(d, r, inherited, Seq::empty(), false),
        subtree_at(d, path) == Some(Decl::Function(f)),
        !f.qualifiers.permits_interception(),
    ensures
        subtree_at(r, path) == Some(Decl::Function(f)),
{
    lemma_kept(d, r, inherited, Seq::empty(), false, path);
}

/// With no override registered under its identity, a rewritten function
/// behaves as the unrewritten one; with one registered, the override answers and no
/// statement of the unrewritten body runs.
pub proof fn pass_through(f: Function, g: Function, scope: Seq<Segment>, active: Set<(Seq<Segment>, Seq<char>)>)
    requires
        rewritten(f, g, scope),
    ensures
        !active.contains((scope, f.name@)) ==> run(g.body@, active) == run(f.body@, active),
        active.contains((scope, f.name@)) ==> run(g.body@, active) == Outcome::Overridden((scope, f.name@)),
{
}

/// The flag inherited by the node at `path` below `d`.
pub open spec fn flag_along(d: Decl, path: Seq<int>, inherited: bool, in_block: bool) -> bool
    decreases path.len(),
{
    if path.len() > 0 && 0 <= path[0] < children(d).len() {
        flag_along(
            children(d)[path[0]],
            path.drop_first(),
            effective(d, inherited, in_block),
            child_in_block(d),
        )
    } else {
        inherited
    }
}

/// The enclosing path of the node at `path` below `d`.
pub open spec fn scope_along(d: Decl, path: Seq<int>, scope: Seq<Segment>) -> Seq<Segment>
    decreases path.len(),
{
    if path.len() > 0 && 0 <= path[0] < children(d).len() {
        scope_along(children(d)[path[0]], path.drop_first(), child_scope(d, scope))
    } else {
        scope
    }
}

/// Whether the node at `path` below `d` is a member of an impl block or trait.
pub open spec fn block_along(d: Decl, path: Seq<int>, in_block: bool) -> bool
    decreases path.len(),
{
    if path.len() > 0 && 0 <= path[0] < children(d).len() {
        block_along(children(d)[path[0]], path.drop_first(), child_in_block(d))
    } else {
        in_block
    }
}

/// The node `o` exists and is marked `Suppress`.
pub open spec fn suppressed(o: Option<Decl>) -> bool {
    o matches Some(n) && marker_of(n) == Marker::Suppress
}

proof fn lemma_prefix_step(d: Decl, path: Seq<int>, j: int)
    requires
        path.len() > 0,
        0 <= path[0] < children(d).len(),
        0 <= j < path.len(),
    ensures
        subtree_at(d, path.take(j + 1)) == subtree_at(children(d)[path[0]], path.drop_first().take(j)),
{
    assert(path.take(j + 1).drop_first() =~= path.drop_first().take(j));
}

proof fn lemma_flag_stays(d: Decl, path: Seq<int>, in_block: bool)
    ensures
        flag_along(d, path, true, in_block),
    decreases path.len(),
{
    if path.len() > 0 && 0 <= path[0] < children(d).len() {
        lemma_flag_stays(children(d)[path[0]], path.drop_first(), child_in_block(d));
    }
}

proof fn lemma_flag_set(d: Decl, path: Seq<int>, inherited: bool, in_block: bool, k: int)
    requires
        0 <= k < path.len(),
        subtree_at(d, path) is Some,
        subtree_at(d, path.take(k)) matches Some(m) && m is Module && marker_of(m) == Marker::Instrument,
    ensures
        flag_along(d, path, inherited, in_block),
    decreases path.len(),
{
    assert(path.take(0) =~= Seq::<int>::empty());
    if path.len() > 0 && !(0 <= path[0] < children(d).len()) {
        assert(subtree_at(d, path) is None);
    }
    let c = children(d)[path[0]];
    if k == 0 {
        lemma_flag_stays(c, path.drop_first(), child_in_block(d));
    } else {
        lemma_prefix_step(d, path, k - 1);
        lemma_flag_set(c, path.drop_first(), effective(d, inherited, in_block), child_in_block(d), k - 1);
    }
}

proof fn lemma_descend(d: Decl, r: Decl, inherited: bool, scope: Seq<Segment>, in_block: bool, path: Seq<int>)
    requires
        walked(d, r, inherited, scope, in_block),
        subtree_at(d, path) is Some,
        forall|j: int| 0 <= j < path.len() ==> !suppressed(#[trigger] subtree_at(d, path.take(j))),
    ensures
        subtree_at(r, path) is Some,
        walked(
            subtree_at(d, path)->0,
            subtree_at(r, path)->0,
            flag_along(d, path, inherited, in_block),
            scope_along(d, path, scope),
            block_along(d, path, in_block),
        ),
    decreases path.len(),
{
    if path.len() > 0 {
        assert(path.take(0) =~= Seq::<int>::empty());
        assert(!suppressed(subtree_at(d, path.take(0))));
        let i = path[0];
        lemma_walked_child(d, r, inherited, scope, in_block, i);
        let rest = path.drop_first();
        assert forall|j: int| 0 <= j < rest.len() implies !suppressed(
            #[trigger] subtree_at(children(d)[i], rest.take(j)),
        ) by {
            lemma_prefix_step(d, path, j);
            assert(!suppressed(subtree_at(d, path.take(j + 1))));
        }
        lemma_descend(
            children(d)[i],
            children(r)[i],
            effective(d, inherited, in_block),
            child_scope(d, scope),
            child_in_block(d),
            rest,
        );
    }
}

/// A function below a module marked `Instrument` is rewritten when it is
/// eligible and no node from the root down to it is marked `Suppress`.
pub proof fn instrument_propagates(d: Decl, r: Decl, inherited: bool, path: Seq<int>, k: int, f: Function)
    requires
        walked(d, r, inherited, Seq::empty(), false),
        0 <= k < path.len(),
        subtree_at(d, path.take(k)) matches Some(m) && m is Module && marker_of(m) == Marker::Instrument,
        subtree_at(d, path) == Some(Decl::Function(f)),
        f.qualifiers.permits_interception(),
        forall|j: int| 0 <= j <= path.len() ==> !suppressed(#[trigger] subtree_at(d, path.take(j))),
    ensures
        subtree_at(r, path) matches Some(Decl::Function(g)) && rewritten(
            f,
            g,
            scope_along(d, path, Seq::empty()),
        ),
{
    assert(path.take(path.len() as int) =~= path);
    assert(!suppressed(subtree_at(d, path.take(path.len() as int))));
    lemma_descend(d, r, inherited, Seq::empty(), false, path);
    lemma_flag_set(d, path, inherited, false, k);
}

/// Modules, impl blocks and traits, the nodes that hold other nodes.
pub open spec fn is_container(d: Decl) -> bool {
    d is Module || d is Impl || d is Trait
}

/// Two nodes side by side are told apart: two functions by their names, two
/// containers by the path segment they add.
pub open spec fn distinct_siblings(a: Decl, b: Decl) -> bool {
    &&& a matches Decl::Function(f) ==> (b matches Decl::Function(g) ==> f.name@ != g.name@)
    &&& (is_container(a) && is_container(b)) ==> child_scope(a, Seq::empty()) != child_scope(
        b,
        Seq::empty(),
    )
}

pub open spec fn siblings_distinct(nodes: Seq<Decl>) -> bool {
    forall|i: int, j: int|
        0 <= i < nodes.len() && 0 <= j < nodes.len() && i != j ==> distinct_siblings(
            #[trigger] nodes[i],
            #[trigger] nodes[j],
        )
}

/// Every node of the tree holds siblings that are told apart.
pub open spec fn well_named(d: Decl) -> bool
    decreases d,
{
    match d {
        Decl::Module { children, .. } => siblings_distinct(children@) && forall|i: int|
            0 <= i < children@.len() ==> well_named(#[trigger] children@[i]),
        Decl::Impl { members, .. } => siblings_distinct(members@) && forall|i: int|
            0 <= i < members@.len() ==> well_named(#[trigger] members@[i]),
        Decl::Trait { members, .. } => siblings_distinct(members@) && forall|i: int|
            0 <= i < members@.len() ==> well_named(#[trigger] members@[i]),
        _ => true,
    }
}

proof fn lemma_well_named_child(d: Decl, i: int)
    requires
        well_named(d),
        0 <= i < children(d).len(),
    ensures
        siblings_distinct(children(d)),
        well_named(children(d)[i]),
{
}

proof fn lemma_scope_shape(d: Decl, path: Seq<int>, scope: Seq<Segment>)
    requires
        subtree_at(d, path) is Some,
    ensures
        scope_along(d, path, scope).len() == scope.len() + path.len(),
        scope_along(d, path, scope).subrange(0, scope.len() as int) == scope,
        path.len() > 0 ==> is_container(d) && scope_along(d, path, scope)[scope.len() as int]
            == child_scope(d, Seq::empty())[0],
    decreases path.len(),
{
    if path.len() > 0 {
        let c = children(d)[path[0]];
        let s2 = child_scope(d, scope);
        lemma_scope_shape(c, path.drop_first(), s2);
        let r = scope_along(c, path.drop_first(), s2);
        assert(r.subrange(0, s2.len() as int) == s2);
        assert(r.subrange(0, scope.len() as int) =~= s2.subrange(0, scope.len() as int));
        assert(s2.subrange(0, scope.len() as int) =~= scope);
        assert(r[scope.len() as int] == r.subrange(0, s2.len() as int)[scope.len() as int]);
    }
}

/// The identity under which the function at `path` below `d` is intercepted.
pub open spec fn identity_at(d: Decl, path: Seq<int>) -> (Seq<Segment>, Seq<char>) {
    (scope_along(d, path, Seq::empty()), subtree_at(d, path)->0->Function_0.name@)
}

proof fn lemma_identity_injective(d: Decl, p: Seq<int>, q: Seq<int>, scope: Seq<Segment>)
    requires
        well_named(d),
        p != q,
        subtree_at(d, p) matches Some(Decl::Function(_)),
        subtree_at(d, q) matches Some(Decl::Function(_)),
    ensures
        scope_along(d, p, scope) != scope_along(d, q, scope)
            || subtree_at(d, p)->0->Function_0.name@ != subtree_at(d, q)->0->Function_0.name@,
    decreases p.len(),
{
    if p.len() == 0 || q.len() == 0 {
        if p.len() == 0 && q.len() == 0 {
            assert(p =~= q);
        }
    } else {
        let i = p[0];
        let j = q[0];
        let ci = children(d)[i];
        let cj = children(d)[j];
        lemma_well_named_child(d, i);
        lemma_well_named_child(d, j);
        if i == j {
            assert(p.drop_first() != q.drop_first()) by {
                if p.drop_first() == q.drop_first() {
                    assert(p =~= seq![i] + p.drop_first());
                    assert(q =~= seq![j] + q.drop_first());
                }
            }
            lemma_identity_injective(ci, p.drop_first(), q.drop_first(), child_scope(d, scope));
        } else {
            assert(distinct_siblings(ci, cj));
            let s2 = child_scope(d, scope);
            lemma_scope_shape(ci, p.drop_first(), s2);
            lemma_scope_shape(cj, q.drop_first(), s2);
            if p.len() > 1 && q.len() > 1 {
                let sp = scope_along(d, p, scope);
                let sq = scope_along(d, q, scope);
                assert(sp[s2.len() as int] == child_scope(ci, Seq::empty())[0]);
                assert(sq[s2.len() as int] == child_scope(cj, Seq::empty())[0]);
                assert(child_scope(ci, Seq::empty()) =~= seq![child_scope(ci, Seq::empty())[0]]);
                assert(child_scope(cj, Seq::empty()) =~= seq![child_scope(cj, Seq::empty())[0]]);
            }
        }
    }
}

/// In a tree whose siblings are told apart, no two functions share an
/// identity: the registry can key overrides by identity alone.
pub proof fn identity_is_injective(d: Decl, p: Seq<int>, q: Seq<int>)
    requires
        well_named(d),
        p != q,
        subtree_at(d, p) matches Some(Decl::Function(_)),
        subtree_at(d, q) matches Some(Decl::Function(_)),
    ensures
        identity_at(d, p) != identity_at(d, q),
{
    lemma_identity_injective(d, p, q, Seq::empty());
}

} // verus!
