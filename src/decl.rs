use vstd::prelude::*;

verus! {

/// A node's own annotation, read without regard to its ancestors.
#[derive(Clone, Copy, PartialEq, Eq, Structural, Debug)]
pub enum Marker {
    Instrument,
    Suppress,
    Unmarked,
}

/// Function qualifiers that rule out a runtime interception point.
#[derive(Clone, Copy, PartialEq, Eq, Debug)]
pub struct Qualifiers {
    /// The function is evaluable at compile time.
    pub compile_time: bool,
    /// The function is memory-unsafe to call.
    pub memory_unsafe: bool,
    /// The function was generated by a macro.
    pub generated: bool,
}

impl Qualifiers {
    /// Holds when none of the disqualifying qualifiers is present.
    pub open spec fn permits_interception(&self) -> bool {
        !self.compile_time && !self.memory_unsafe && !self.generated
    }

    /// Decides whether a function with these qualifiers may be instrumented.
    pub fn is_eligible(&self) -> (r: bool)
        ensures
            r == self.permits_interception(),
    {
        !(self.compile_time || self.memory_unsafe || self.generated)
    }
}

/// One step of the enclosing path of a function.
#[derive(Clone, PartialEq, Eq, Debug)]
pub enum Segment {
    Module(String),
    Impl { target: String, of_trait: Option<String> },
    Trait(String),
}

impl Segment {
    /// A copy of this segment.
    pub fn duplicate(&self) -> (r: Segment)
        ensures
            r == *self,
    {
        match self {
            Segment::Module(n) => Segment::Module(n.clone()),
            Segment::Impl { target, of_trait } => {
                let t = match of_trait {
                    Some(s) => Some(s.clone()),
                    None => None,
                };
                Segment::Impl { target: target.clone(), of_trait: t }
            },
            Segment::Trait(n) => Segment::Trait(n.clone()),
        }
    }
}

/// What an interception prologue needs to know of its function's signature.
#[derive(Clone, PartialEq, Eq, Debug)]
pub struct Signature {
    /// The signature as written, for printing.
    pub text: String,
    /// The names of the arguments, in order, handed to an override.
    pub args: Vec<String>,
}

/// The key under which the interception registry knows a function: the path of
/// enclosing modules, impl blocks and traits, then the function's name.
#[derive(Clone, PartialEq, Eq, Debug)]
pub struct Identity {
    pub scope: Vec<Segment>,
    pub name: String,
}

impl View for Identity {
    type V = (Seq<Segment>, Seq<char>);

    open spec fn view(&self) -> (Seq<Segment>, Seq<char>) {
        (self.scope@, self.name@)
    }
}

/// The interception prologue: look `identity` up in the registry, and if an
/// override is registered return its result for `args`; otherwise fall through.
#[derive(Clone, PartialEq, Eq, Debug)]
pub struct Prologue {
    pub identity: Identity,
    pub args: Vec<String>,
}

/// A statement of a function body.
#[derive(Clone, PartialEq, Eq, Debug)]
pub enum Stmt {
    /// A statement of the source, kept as written.
    Source(String),
    /// An interception prologue.
    Intercept(Prologue),
}

#[derive(Clone, PartialEq, Eq, Debug)]
pub struct Function {
    pub name: String,
    pub signature: Signature,
    pub qualifiers: Qualifiers,
    pub marker: Marker,
    pub body: Vec<Stmt>,
}

/// A node of the declaration tree. `head` holds the node's text before its
/// body (attributes other than markers, visibility, generics), for printing.
#[derive(PartialEq, Eq, Debug)]
pub enum Decl {
    Module { head: String, name: String, marker: Marker, children: Vec<Decl> },
    Function(Function),
    Impl {
        head: String,
        target: String,
        of_trait: Option<String>,
        marker: Marker,
        members: Vec<Decl>,
    },
    Trait { head: String, name: String, marker: Marker, members: Vec<Decl> },
    Other(String),
}

/// The node's own marker.
pub open spec fn marker_of(d: Decl) -> Marker {
    match d {
        Decl::Module { marker, .. } => marker,
        Decl::Function(f) => f.marker,
        Decl::Impl { marker, .. } => marker,
        Decl::Trait { marker, .. } => marker,
        Decl::Other(_) => Marker::Unmarked,
    }
}

/// The nodes directly below a node, in order.
pub open spec fn children(d: Decl) -> Seq<Decl> {
    match d {
        Decl::Module { children, .. } => children@,
        Decl::Impl { members, .. } => members@,
        Decl::Trait { members, .. } => members@,
        _ => Seq::empty(),
    }
}

/// The node reached from `d` by following child indices along `path`.
pub open spec fn subtree_at(d: Decl, path: Seq<int>) -> Option<Decl>
    decreases path.len(),
{
    if path.len() == 0 {
        Some(d)
    } else if 0 <= path[0] < children(d).len() {
        subtree_at(children(d)[path[0]], path.drop_first())
    } else {
        None
    }
}

impl Decl {
    /// Reads the node's own marker.
    pub fn marker(&self) -> (r: Marker)
        ensures
            r == marker_of(*self),
    {
        match self {
            Decl::Module { marker, .. } => *marker,
            Decl::Function(f) => f.marker,
            Decl::Impl { marker, .. } => *marker,
            Decl::Trait { marker, .. } => *marker,
            Decl::Other(_) => Marker::Unmarked,
        }
    }
}

} // verus!
