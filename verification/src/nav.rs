use vstd::prelude::*;
use crate::error::{DecodeError, ErrorKind};
use crate::text::str_eq;
use crate::xml::{XmlElem, attr_lookup, count_named, same_named, unique_names};

verus! {

/// A position in a parsed document, together with the element-name
/// breadcrumb from the root, used as error context.
#[derive(Debug)]
pub struct Parser<'a> {
    pub path: Vec<String>,
    pub node: &'a XmlElem,
}

/// The breadcrumb rendered with a `/` before each step.
pub open spec fn joined_path(s: Seq<String>) -> Seq<char>
    decreases s.len(),
{
    if s.len() == 0 {
        Seq::<char>::empty()
    } else {
        joined_path(s.drop_last()) + seq!['/'] + s.last()@
    }
}

pub(crate) fn clone_strings(v: &Vec<String>) -> (r: Vec<String>)
    ensures
        r@ == v@,
{
    let mut out: Vec<String> = Vec::new();
    let mut i: usize = 0;
    while i < v.len()
        invariant
            i <= v@.len(),
            out@.len() == i,
            forall|k: int| 0 <= k < i ==> out@[k] == v@[k],
        decreases v@.len() - i,
    {
        out.push(v[i].clone());
        i = i + 1;
    }
    proof {
        assert(out@ =~= v@);
    }
    out
}

/// A copy of `path` with `name` appended, as breadcrumbs are extended.
pub(crate) fn extended(path: &Vec<String>, name: &String) -> (r: Vec<String>)
    ensures
        r@ == path@.push(*name),
{
    let mut out = clone_strings(path);
    out.push(name.clone());
    out
}

impl<'a> Parser<'a> {
    /// Starts navigation at `elem` with an empty breadcrumb.
    pub fn new(elem: &'a XmlElem) -> (r: Parser<'a>)
        ensures
            r.node == elem,
            r.path@ == Seq::<String>::empty(),
    {
        Parser { path: Vec::new(), node: elem }
    }

    /// The breadcrumb from the document root to this element.
    pub fn context(&self) -> (r: String)
        ensures
            r@ == joined_path(self.path@),
    {
        let mut out = String::new();
        let mut i: usize = 0;
        while i < self.path.len()
            invariant
                i <= self.path@.len(),
                out@ == joined_path(self.path@.take(i as int)),
            decreases self.path@.len() - i,
        {
            proof {
                reveal_strlit("/");
                assert("/"@ =~= seq!['/']);
            }
            out.append("/");
            out.append(self.path[i].as_str());
            proof {
                let p = self.path@.take(i + 1);
                assert(p.drop_last() =~= self.path@.take(i as int));
                assert(p.last() == self.path@[i as int]);
            }
            i = i + 1;
        }
        proof {
            assert(self.path@.take(i as int) =~= self.path@);
        }
        out
    }

    /// A copy of the breadcrumb, for error construction.
    pub fn breadcrumb(&self) -> (r: Vec<String>)
        ensures
            r@ == self.path@,
    {
        clone_strings(&self.path)
    }

    fn err(&self, kind: ErrorKind) -> (r: DecodeError)
        ensures
            r.kind == kind,
            r.path@ == self.path@,
    {
        DecodeError { kind, path: clone_strings(&self.path) }
    }

    /// The `i`th element child, with the breadcrumb extended by its name.
    pub fn child(&self, i: usize) -> (r: Parser<'a>)
        requires
            i < self.node.children@.len(),
        ensures
            r.node == &self.node.children[i as int],
            r.path@ == self.path@.push(self.node.children@[i as int].name),
    {
        self.child_at(i)
    }

    fn child_at(&self, i: usize) -> (r: Parser<'a>)
        requires
            i < self.node.children@.len(),
        ensures
            r.node == &self.node.children[i as int],
            r.path@ == self.path@.push(self.node.children@[i as int].name),
    {
        let mut path = clone_strings(&self.path);
        path.push(self.node.children[i].name.clone());
        Parser { path, node: &self.node.children[i] }
    }

    /// Checks that this element's tag name is `name`, failing with a
    /// structural error otherwise.
    pub fn named(self, name: &str) -> (r: Result<Parser<'a>, DecodeError>)
        ensures
            r is Ok <==> self.node.name@ == name@,
            r matches Ok(p) ==> p == self,
            r matches Err(e) ==> e.kind == ErrorKind::Structure && e.path@ == self.path@,
    {
        if str_eq(self.node.name.as_str(), name) {
            Ok(self)
        } else {
            Err(self.err(ErrorKind::Structure))
        }
    }

    /// Returns the value of attribute `name`, failing with a structural
    /// error if it is absent.
    pub fn attribute(&self, name: &str) -> (r: Result<&'a str, DecodeError>)
        ensures
            r is Ok <==> self.node.attr_of(name@) is Some,
            r matches Ok(v) ==> self.node.attr_of(name@) == Some(v@),
            r matches Err(e) ==> e.kind == ErrorKind::Structure && e.path@ == self.path@,
    {
        match self.node.attr(name) {
            Some(v) => Ok(v),
            None => Err(self.err(ErrorKind::Structure)),
        }
    }

    /// Whether this element has any element children.
    pub fn has_elements(&self) -> (r: bool)
        ensures
            r == (self.node.children@.len() > 0),
    {
        self.node.children.len() > 0
    }

    /// The tag names of the element children, in order.
    pub fn children_names(&self) -> (r: Vec<String>)
        ensures
            r@.len() == self.node.children@.len(),
            forall|i: int| 0 <= i < r@.len() ==> r@[i]@ == self.node.children@[i].name@,
    {
        let mut out: Vec<String> = Vec::new();
        let mut i: usize = 0;
        while i < self.node.children.len()
            invariant
                i <= self.node.children@.len(),
                out@.len() == i,
                forall|k: int| 0 <= k < i ==> out@[k]@ == self.node.children@[k].name@,
            decreases self.node.children@.len() - i,
        {
            out.push(self.node.children[i].name.clone());
            i = i + 1;
        }
        out
    }

    /// All element children, which must share one tag name; an element
    /// without children yields the empty sequence.
    pub fn only_same_named_children(&self) -> (r: Result<Vec<Parser<'a>>, DecodeError>)
        ensures
            r is Ok <==> same_named(self.node.children@),
            r matches Ok(v) ==> v@.len() == self.node.children@.len() && (forall|i: int|
                0 <= i < v@.len() ==> *(#[trigger] v@[i]).node == self.node.children@[i]
                    && v@[i].path@ == self.path@.push(self.node.children@[i].name)),
            r matches Err(e) ==> e.kind == ErrorKind::Structure && e.path@ == self.path@,
    {
        let n = self.node.children.len();
        let mut out: Vec<Parser<'a>> = Vec::new();
        let mut i: usize = 0;
        while i < n
            invariant
                n == self.node.children@.len(),
                i <= n,
                out@.len() == i,
                forall|k: int|
                    0 <= k < i ==> *(#[trigger] out@[k]).node == self.node.children@[k]
                        && out@[k].path@ == self.path@.push(self.node.children@[k].name),
                forall|k: int|
                    0 <= k < i ==> (#[trigger] self.node.children@[k]).name@
                        == self.node.children@[0].name@,
            decreases n - i,
    {
            if i > 0 && !str_eq(
                self.node.children[i].name.as_str(),
                self.node.children[0].name.as_str(),
            ) {
                assert(!same_named(self.node.children@));
                return Err(self.err(ErrorKind::Structure));
            }
            out.push(self.child_at(i));
            i = i + 1;
        }
        assert(same_named(self.node.children@));
        Ok(out)
    }

    /// As `only_same_named_children`, but an element without children is a
    /// structural error.
    pub fn only_same_named_children1(&self) -> (r: Result<Vec<Parser<'a>>, DecodeError>)
        ensures
            r is Ok <==> same_named(self.node.children@) && self.node.children@.len() > 0,
            r matches Ok(v) ==> v@.len() == self.node.children@.len() && (forall|i: int|
                0 <= i < v@.len() ==> *(#[trigger] v@[i]).node == self.node.children@[i]
                    && v@[i].path@ == self.path@.push(self.node.children@[i].name)),
            r matches Err(e) ==> e.kind == ErrorKind::Structure && e.path@ == self.path@,
    {
        let out = self.only_same_named_children()?;
        if out.len() == 0 {
            return Err(self.err(ErrorKind::Structure));
        }
        Ok(out)
    }

    /// All element children, whose tag names must be pairwise distinct.
    pub fn uniquely_named_children(&self) -> (r: Result<Vec<Parser<'a>>, DecodeError>)
        ensures
            r is Ok <==> unique_names(self.node.children@),
            r matches Ok(v) ==> v@.len() == self.node.children@.len() && (forall|i: int|
                0 <= i < v@.len() ==> *(#[trigger] v@[i]).node == self.node.children@[i]
                    && v@[i].path@ == self.path@.push(self.node.children@[i].name)),
            r matches Err(e) ==> e.kind == ErrorKind::DuplicateField && e.path@ == self.path@,
    {
        let n = self.node.children.len();
        let mut out: Vec<Parser<'a>> = Vec::new();
        let mut i: usize = 0;
        while i < n
            invariant
                n == self.node.children@.len(),
                i <= n,
                out@.len() == i,
                forall|k: int|
                    0 <= k < i ==> *(#[trigger] out@[k]).node == self.node.children@[k]
                        && out@[k].path@ == self.path@.push(self.node.children@[k].name),
                forall|k1: int, k2: int|
                    0 <= k1 < k2 < i ==> (#[trigger] self.node.children@[k1]).name@
                        != (#[trigger] self.node.children@[k2]).name@,
            decreases n - i,
        {
            let mut j: usize = 0;
            while j < i
                invariant
                    i < n,
                    n == self.node.children@.len(),
                    j <= i,
                    forall|k: int|
                        0 <= k < j ==> (#[trigger] self.node.children@[k]).name@
                            != self.node.children@[i as int].name@,
                decreases i - j,
            {
                if str_eq(
                    self.node.children[j].name.as_str(),
                    self.node.children[i].name.as_str(),
                ) {
                    assert(!unique_names(self.node.children@));
                    return Err(self.err(ErrorKind::DuplicateField));
                }
                j = j + 1;
            }
            out.push(self.child_at(i));
            i = i + 1;
        }
        Ok(out)
    }

    /// As `uniquely_named_children`, but an element without children is a
    /// structural error.
    pub fn uniquely_named_children1(&self) -> (r: Result<Vec<Parser<'a>>, DecodeError>)
        ensures
            r is Ok <==> unique_names(self.node.children@) && self.node.children@.len() > 0,
            r matches Ok(v) ==> v@.len() == self.node.children@.len() && (forall|i: int|
                0 <= i < v@.len() ==> *(#[trigger] v@[i]).node == self.node.children@[i]
                    && v@[i].path@ == self.path@.push(self.node.children@[i].name)),
            r matches Err(e) ==> (e.kind == ErrorKind::DuplicateField || e.kind
                == ErrorKind::Structure) && e.path@ == self.path@,
    {
        let out = self.uniquely_named_children()?;
        if out.len() == 0 {
            return Err(self.err(ErrorKind::Structure));
        }
        Ok(out)
    }

    /// The child named `name` if there is exactly one; `None` if there is
    /// none; a structural error if the name repeats.
    pub fn uniquely_named_child_opt(&self, name: &str) -> (r: Result<
        Option<Parser<'a>>,
        DecodeError,
    >)
        ensures
            r is Ok <==> count_named(self.node.children@, name@) <= 1,
            r matches Ok(Some(p)) ==> count_named(self.node.children@, name@) == 1
                && crate::xml::index_named(self.node.children@, name@) >= 0 && *p.node
                == self.node.children@[crate::xml::index_named(self.node.children@, name@)]
                && p.path@ == self.path@.push(
                self.node.children@[crate::xml::index_named(self.node.children@, name@)].name,
            ),
            r matches Ok(None) ==> count_named(self.node.children@, name@) == 0,
            r matches Err(e) ==> e.kind == ErrorKind::Structure && e.path@ == self.path@,
    {
        let c = self.node.count_children_named(name);
        if c > 1 {
            return Err(self.err(ErrorKind::Structure));
        }
        if c == 0 {
            return Ok(None);
        }
        let n = self.node.children.len();
        let mut i: usize = 0;
        while i < n
            invariant
                n == self.node.children@.len(),
                i <= n,
                count_named(self.node.children@, name@) == 1,
                forall|k: int| 0 <= k < i ==> (#[trigger] self.node.children@[k]).name@ != name@,
            decreases n - i,
        {
            if str_eq(self.node.children[i].name.as_str(), name) {
                proof {
                    crate::xml::lemma_index_named_at(self.node.children@, name@, i as int);
                }
                return Ok(Some(self.child_at(i)));
            }
            i = i + 1;
        }
        // One child is named `name`, so the scan above finds it.
        proof {
            lemma_count_named_zero(self.node.children@, name@);
        }
        assert(false);
        Ok(None)
    }

    /// The first child named `name`, with the breadcrumb extended.
    pub fn find_child(&self, name: &str) -> (r: Option<Parser<'a>>)
        ensures
            match r {
                Some(cp) => crate::xml::index_named(self.node.children@, name@) >= 0 && *cp.node
                    == self.node.children@[crate::xml::index_named(
                    self.node.children@,
                    name@,
                )] && cp.path@ == self.path@.push(
                    self.node.children@[crate::xml::index_named(
                        self.node.children@,
                        name@,
                    )].name,
                ),
                None => crate::xml::index_named(self.node.children@, name@) == -1,
            },
    {
        let n = self.node.children.len();
        let mut i: usize = 0;
        while i < n
            invariant
                n == self.node.children@.len(),
                i <= n,
                forall|k: int| 0 <= k < i ==> (#[trigger] self.node.children@[k]).name@ != name@,
            decreases n - i,
        {
            if str_eq(self.node.children[i].name.as_str(), name) {
                proof {
                    crate::xml::lemma_index_named_at(self.node.children@, name@, i as int);
                }
                return Some(self.child_at(i));
            }
            i = i + 1;
        }
        proof {
            crate::xml::lemma_index_named_none(self.node.children@, name@);
        }
        None
    }

    /// The only element child; a structural error unless there is exactly
    /// one.
    pub fn single_child(&self) -> (r: Result<Parser<'a>, DecodeError>)
        ensures
            r is Ok <==> self.node.children@.len() == 1,
            r matches Ok(p) ==> *p.node == self.node.children@[0] && p.path@ == self.path@.push(
                self.node.children@[0].name,
            ),
            r matches Err(e) ==> e.kind == ErrorKind::Structure && e.path@ == self.path@,
    {
        if self.node.children.len() != 1 {
            return Err(self.err(ErrorKind::Structure));
        }
        Ok(self.child_at(0))
    }
}

proof fn lemma_count_named_zero(s: Seq<XmlElem>, n: Seq<char>)
    requires
        forall|i: int| 0 <= i < s.len() ==> (#[trigger] s[i]).name@ != n,
    ensures
        count_named(s, n) == 0,
    decreases s.len(),
{
    if s.len() > 0 {
        assert(forall|i: int|
            0 <= i < s.drop_first().len() ==> (#[trigger] s.drop_first()[i]).name@ != n) by {
            assert(forall|i: int|
                0 <= i < s.drop_first().len() ==> s.drop_first()[i] == s[i + 1]);
        }
        lemma_count_named_zero(s.drop_first(), n);
    }
}

} // verus!
