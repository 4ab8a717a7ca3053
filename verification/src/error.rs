use vstd::prelude::*;

verus! {

/// The closed set of failure kinds that schema inference and data decoding
/// can report.
#[derive(Clone, Copy, Debug, PartialEq, Eq, Structural)]
pub enum ErrorKind {
    /// Wrong element cardinality or name at an expected position.
    Structure,
    /// Non-unique sibling names where uniqueness is required.
    DuplicateField,
    /// A data element with no matching declared field.
    UnknownField,
    /// A format identifier outside the closed set, or one that maps to no
    /// primitive type.
    UnsupportedFormat,
    /// Element text not convertible to its declared primitive type.
    Parse,
    /// Internal consistency violation, such as a column-length misalignment.
    InvariantViolation,
}

/// A fatal error of one decode or inference operation.  It carries the
/// element-name breadcrumb from the document root to the place of failure.
#[derive(Clone, Debug)]
pub struct DecodeError {
    pub kind: ErrorKind,
    pub path: Vec<String>,
}

/// Whether breadcrumb `q` starts with breadcrumb `p`: an error raised
/// below an element carries at least that element's breadcrumb.
pub open spec fn extends_path(q: Seq<String>, p: Seq<String>) -> bool {
    q.len() >= p.len() && q.take(p.len() as int) == p
}

pub proof fn lemma_extends_path_refl(p: Seq<String>)
    ensures
        extends_path(p, p),
{
    assert(p.take(p.len() as int) =~= p);
}

pub proof fn lemma_extends_path_push(p: Seq<String>, x: String)
    ensures
        extends_path(p.push(x), p),
{
    assert(p.push(x).take(p.len() as int) =~= p);
}

pub proof fn lemma_extends_path_trans(r: Seq<String>, q: Seq<String>, p: Seq<String>)
    requires
        extends_path(r, q),
        extends_path(q, p),
    ensures
        extends_path(r, p),
{
    assert(r.take(p.len() as int) =~= r.take(q.len() as int).take(p.len() as int));
}

impl DecodeError {
    pub fn new(kind: ErrorKind, path: Vec<String>) -> (r: DecodeError)
        ensures
            r.kind == kind,
            r.path == path,
    {
        DecodeError { kind, path }
    }

    pub fn kind(&self) -> (r: ErrorKind)
        ensures
            r == self.kind,
    {
        self.kind
    }
}

} // verus!
