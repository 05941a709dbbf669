use vstd::prelude::*;
use crate::decl::{Decl, Function, Identity, Marker, Prologue, Segment, Signature, Stmt, marker_of};

verus! {

/// Whether a node is instrumented, given the flag inherited from its ancestors.
/// A function directly inside an impl block or trait cannot opt in on its own:
/// there an `Instrument` marker is inert, and only the block's flag counts.
pub open spec fn effective(d: Decl, inherited: bool, in_block: bool) -> bool {
    inherited || (marker_of(d) == Marker::Instrument && !(in_block && d is Function))
}

/// The enclosing path handed to the children of `d`.
pub open spec fn child_scope(d: Decl, scope: Seq<Segment>) -> Seq<Segment> {
    match d {
        Decl::Module { name, .. } => scope.push(Segment::Module(name)),
        Decl::Impl { target, of_trait, .. } => scope.push(Segment::Impl { target, of_trait }),
        Decl::Trait { name, .. } => scope.push(Segment::Trait(name)),
        _ => scope,
    }
}

/// Whether the children of `d` are members of an impl block or trait.
pub open spec fn child_in_block(d: Decl) -> bool {
    d is Impl || d is Trait
}

/// `p` is the prologue for `f` defined under `scope`.
pub open spec fn prologue_for(p: Prologue, scope: Seq<Segment>, f: Function) -> bool {
    &&& p.identity@ == (scope, f.name@)
    &&& p.args@ == f.signature.args@
}

/// `g` is `f` with the prologue for `f` under `scope` put before its body.
pub open spec fn rewritten(f: Function, g: Function, scope: Seq<Segment>) -> bool {
    &&& g.name == f.name
    &&& g.signature == f.signature
    &&& g.qualifiers == f.qualifiers
    &&& g.marker == f.marker
    &&& g.body@.len() == f.body@.len() + 1
    &&& g.body@.drop_first() == f.body@
    &&& g.body@[0] matches Stmt::Intercept(p) && prologue_for(p, scope, f)
}

/// `r` is what the traversal makes of `d`, under the inherited flag and the
/// enclosing path `scope`.
pub open spec fn walked(d: Decl, r: Decl, inherited: bool, scope: Seq<Segment>, in_block: bool) -> bool
    decreases d,
{
    if marker_of(d) == Marker::Suppress {
        r == d
    } else {
        let eff = effective(d, inherited, in_block);
        match d {
            Decl::Function(f) => if eff && f.qualifiers.permits_interception() {
                r matches Decl::Function(g) && rewritten(f, g, scope)
            } else {
                r == d
            },
            Decl::Other(_) => r == d,
            Decl::Module { head, name, marker, children } => {
                &&& r matches Decl::Module { head: h, name: n, marker: m, children: c }
                    && h == head && n == name && m == marker && c@.len() == children@.len()
                    && forall|i: int|
                        0 <= i < children@.len() ==> walked(
                            children@[i],
                            #[trigger] c@[i],
                            eff,
                            scope.push(Segment::Module(name)),
                            false,
                        )
            },
            Decl::Impl { head, target, of_trait, marker, members } => {
                &&& r matches Decl::Impl { head: h, target: t, of_trait: o, marker: m, members: c }
                    && h == head && t == target && o == of_trait && m == marker
                    && c@.len() == members@.len()
                    && forall|i: int|
                        0 <= i < members@.len() ==> walked(
                            members@[i],
                            #[trigger] c@[i],
                            eff,
                            scope.push(Segment::Impl { target, of_trait }),
                            true,
                        )
            },
            Decl::Trait { head, name, marker, members } => {
                &&& r matches Decl::Trait { head: h, name: n, marker: m, members: c }
                    && h == head && n == name && m == marker && c@.len() == members@.len()
                    && forall|i: int|
                        0 <= i < members@.len() ==> walked(
                            members@[i],
                            #[trigger] c@[i],
                            eff,
                            scope.push(Segment::Trait(name)),
                            true,
                        )
            },
        }
    }
}

fn copy_scope(scope: &Vec<Segment>) -> (r: Vec<Segment>)
    ensures
        r@ == scope@,
{
    let mut r: Vec<Segment> = Vec::new();
    let mut i: usize = 0;
    while i < scope.len()
        invariant
            i <= scope@.len(),
            r@ == scope@.subrange(0, i as int),
        decreases scope@.len() - i,
    {
        r.push(scope[i].duplicate());
        i = i + 1;
    }
    assert(r@ =~= scope@);
    r
}

fn copy_names(names: &Vec<String>) -> (r: Vec<String>)
    ensures
        r@ == names@,
{
    let mut r: Vec<String> = Vec::new();
    let mut i: usize = 0;
    while i < names.len()
        invariant
            i <= names@.len(),
            r@ == names@.subrange(0, i as int),
        decreases names@.len() - i,
    {
        r.push(names[i].clone());
        i = i + 1;
    }
    assert(r@ =~= names@);
    r
}

/// Builds the interception prologue of the function `name` with signature
/// `signature`, defined under `scope`.
pub fn synthesize(scope: &Vec<Segment>, name: &String, signature: &Signature) -> (p: Prologue)
    ensures
        p.identity@ == (scope@, name@),
        p.args@ == signature.args@,
{
    Prologue {
        identity: Identity { scope: copy_scope(scope), name: name.clone() },
        args: copy_names(&signature.args),
    }
}

/// Puts the interception prologue before the body of `f`, defined under `scope`.
pub fn rewrite(f: Function, scope: &Vec<Segment>) -> (g: Function)
    ensures
        rewritten(f, g, scope@),
{
    let p = synthesize(scope, &f.name, &f.signature);
    let mut g = f;
    g.body.insert(0, Stmt::Intercept(p));
    assert(g.body@.drop_first() =~= f.body@);
    g
}

fn walk_all(nodes: Vec<Decl>, inherited: bool, scope: &mut Vec<Segment>, in_block: bool) -> (r: Vec<Decl>)
    ensures
        final(scope)@ == old(scope)@,
        r@.len() == nodes@.len(),
        forall|i: int|
            0 <= i < nodes@.len() ==> walked(nodes@[i], #[trigger] r@[i], inherited, old(scope)@, in_block),
    decreases nodes, 0nat,
{
    let ghost all = nodes@;
    let ghost s0 = scope@;
    let mut rest = nodes;
    let mut out: Vec<Decl> = Vec::new();
    while rest.len() > 0
        invariant
            scope@ == s0,
            out@.len() + rest@.len() == all.len(),
            rest@ == all.subrange(out@.len() as int, all.len() as int),
            all == nodes@,
            forall|i: int| 0 <= i < out@.len() ==> walked(all[i], #[trigger] out@[i], inherited, s0, in_block),
        decreases rest@.len(),
    {
        let node = rest.remove(0);
        let w = walk_node(node, inherited, scope, in_block);
        out.push(w);
    }
    out
}

fn walk_node(d: Decl, inherited: bool, scope: &mut Vec<Segment>, in_block: bool) -> (r: Decl)
    ensures
        final(scope)@ == old(scope)@,
        walked(d, r, inherited, old(scope)@, in_block),
    decreases d, 1nat,
{
    let marker = d.marker();
    if marker == Marker::Suppress {
        return d;
    }
    let is_fn = match &d {
        Decl::Function(_) => true,
        _ => false,
    };
    let eff = inherited || (marker == Marker::Instrument && !(in_block && is_fn));
    match d {
        Decl::Function(f) => {
            if eff && f.qualifiers.is_eligible() {
                Decl::Function(rewrite(f, scope))
            } else {
                Decl::Function(f)
            }
        },
        Decl::Other(t) => Decl::Other(t),
        Decl::Module { head, name, marker, children } => {
            scope.push(Segment::Module(name.clone()));
            let c = walk_all(children, eff, scope, false);
            let _ = scope.pop();
            Decl::Module { head, name, marker, children: c }
        },
        Decl::Impl { head, target, of_trait, marker, members } => {
            let o = match &of_trait {
                Some(s) => Some(s.clone()),
                None => None,
            };
            scope.push(Segment::Impl { target: target.clone(), of_trait: o });
            let c = walk_all(members, eff, scope, true);
            let _ = scope.pop();
            Decl::Impl { head, target, of_trait, marker, members: c }
        },
        Decl::Trait { head, name, marker, members } => {
            scope.push(Segment::Trait(name.clone()));
            let c = walk_all(members, eff, scope, true);
            let _ = scope.pop();
            Decl::Trait { head, name, marker, members: c }
        },
    }
}

/// Rewrites the tree rooted at `d`, which inherits `inherited` from outside.
pub fn walk(d: Decl, inherited: bool) -> (r: Decl)
    ensures
        walked(d, r, inherited, Seq::empty(), false),
{
    let mut scope: Vec<Segment> = Vec::new();
    walk_node(d, inherited, &mut scope, false)
}

} // verus!
