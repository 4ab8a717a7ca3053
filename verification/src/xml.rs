use vstd::prelude::*;
use crate::text::str_eq;

verus! {

/// One element of a parsed XML document.  Only element nodes are kept:
/// `children` holds the element children in document order, `text` the
/// element's leading character data (as the underlying parser reports it),
/// and `attrs` the attributes in document order.
#[derive(Debug)]
pub struct XmlElem {
    pub name: String,
    pub attrs: Vec<(String, String)>,
    pub text: Option<String>,
    pub children: Vec<XmlElem>,
}

// ------------------------------------------------------------------
// Spec-level queries over element sequences and attribute lists.
// ------------------------------------------------------------------

/// The first element of `s` whose tag name is `n`.
pub open spec fn find_named(s: Seq<XmlElem>, n: Seq<char>) -> Option<XmlElem>
    decreases s.len(),
{
    if s.len() == 0 {
        None
    } else if s[0].name@ == n {
        Some(s[0])
    } else {
        find_named(s.drop_first(), n)
    }
}

/// How many elements of `s` have tag name `n`.
pub open spec fn count_named(s: Seq<XmlElem>, n: Seq<char>) -> int
    decreases s.len(),
{
    if s.len() == 0 {
        0
    } else {
        (if s[0].name@ == n {
            1int
        } else {
            0int
        }) + count_named(s.drop_first(), n)
    }
}

pub open spec fn all_named(s: Seq<XmlElem>, n: Seq<char>) -> bool {
    forall|i: int| 0 <= i < s.len() ==> (#[trigger] s[i]).name@ == n
}

/// All elements share one tag name (an empty sequence counts).
pub open spec fn same_named(s: Seq<XmlElem>) -> bool {
    s.len() == 0 || all_named(s, s[0].name@)
}

/// No tag name occurs twice.
pub open spec fn unique_names(s: Seq<XmlElem>) -> bool {
    forall|i: int, j: int| 0 <= i < j < s.len() ==> (#[trigger] s[i]).name@ != (#[trigger] s[j]).name@
}

/// The index of the first element of `s` named `n`, or `-1`.
pub open spec fn index_named(s: Seq<XmlElem>, n: Seq<char>) -> int
    decreases s.len(),
{
    if s.len() == 0 {
        -1
    } else if s[0].name@ == n {
        0
    } else {
        let r = index_named(s.drop_first(), n);
        if r < 0 {
            -1
        } else {
            r + 1
        }
    }
}

pub proof fn lemma_index_named(s: Seq<XmlElem>, n: Seq<char>)
    ensures
        index_named(s, n) == -1 || (0 <= index_named(s, n) < s.len() && s[index_named(
            s,
            n,
        )].name@ == n),
        index_named(s, n) == -1 ==> forall|i: int|
            0 <= i < s.len() ==> (#[trigger] s[i]).name@ != n,
        index_named(s, n) >= 0 ==> forall|i: int|
            0 <= i < index_named(s, n) ==> (#[trigger] s[i]).name@ != n,
    decreases s.len(),
{
    if s.len() > 0 && s[0].name@ != n {
        let t = s.drop_first();
        lemma_index_named(t, n);
        let r = index_named(t, n);
        if r == -1 {
            assert forall|i: int| 0 <= i < s.len() implies (#[trigger] s[i]).name@ != n by {
                if i > 0 {
                    assert(s[i] == t[i - 1]);
                }
            }
        } else {
            assert forall|i: int| 0 <= i < r + 1 implies (#[trigger] s[i]).name@ != n by {
                if i > 0 {
                    assert(s[i] == t[i - 1]);
                }
            }
        }
    }
}

/// The characterization of `index_named` at a found position.
pub proof fn lemma_index_named_at(s: Seq<XmlElem>, n: Seq<char>, i: int)
    requires
        0 <= i < s.len(),
        s[i].name@ == n,
        forall|k: int| 0 <= k < i ==> (#[trigger] s[k]).name@ != n,
    ensures
        index_named(s, n) == i,
    decreases i,
{
    if i > 0 {
        let t = s.drop_first();
        assert(forall|k: int| 0 <= k < i - 1 ==> (#[trigger] t[k]).name@ != n);
        lemma_index_named_at(t, n, i - 1);
    }
}

/// `index_named` is `-1` exactly when no element bears the name.
pub proof fn lemma_index_named_none(s: Seq<XmlElem>, n: Seq<char>)
    requires
        forall|k: int| 0 <= k < s.len() ==> (#[trigger] s[k]).name@ != n,
    ensures
        index_named(s, n) == -1,
    decreases s.len(),
{
    if s.len() > 0 {
        let t = s.drop_first();
        assert(forall|k: int| 0 <= k < t.len() ==> (#[trigger] t[k]).name@ != n) by {
            assert(forall|k: int| 0 <= k < t.len() ==> t[k] == s[k + 1]);
        }
        lemma_index_named_none(t, n);
    }
}

/// How appending one element changes the index of the first match.
pub proof fn lemma_index_named_snoc(s: Seq<XmlElem>, c: XmlElem, n: Seq<char>)
    ensures
        index_named(s.push(c), n) == (if index_named(s, n) >= 0 {
            index_named(s, n)
        } else if c.name@ == n {
            s.len() as int
        } else {
            -1
        }),
{
    let t = s.push(c);
    lemma_index_named(s, n);
    assert(forall|k: int| 0 <= k < s.len() ==> t[k] == s[k]);
    assert(t[s.len() as int] == c);
    if index_named(s, n) >= 0 {
        lemma_index_named_at(t, n, index_named(s, n));
    } else if c.name@ == n {
        lemma_index_named_at(t, n, s.len() as int);
    } else {
        lemma_index_named_none(t, n);
    }
}

/// The value of the first attribute named `n`.
pub open spec fn attr_lookup(attrs: Seq<(String, String)>, n: Seq<char>) -> Option<Seq<char>>
    decreases attrs.len(),
{
    if attrs.len() == 0 {
        None
    } else if attrs[0].0@ == n {
        Some(attrs[0].1@)
    } else {
        attr_lookup(attrs.drop_first(), n)
    }
}

impl XmlElem {
    /// The value of this element's first attribute named `n`.
    pub open spec fn attr_of(self, n: Seq<char>) -> Option<Seq<char>> {
        attr_lookup(self.attrs@, n)
    }

    /// Looks up an attribute by name.
    pub fn attr(&self, name: &str) -> (r: Option<&str>)
        ensures
            match r {
                Some(v) => self.attr_of(name@) == Some(v@),
                None => self.attr_of(name@) is None,
            },
    {
        proof {
            assert(self.attrs@.skip(0) =~= self.attrs@);
        }
        let mut i: usize = 0;
        while i < self.attrs.len()
            invariant
                i <= self.attrs@.len(),
                attr_lookup(self.attrs@, name@) == attr_lookup(
                    self.attrs@.skip(i as int),
                    name@,
                ),
            decreases self.attrs@.len() - i,
        {
            proof {
                assert(self.attrs@.skip(i as int)[0] == self.attrs@[i as int]);
                assert(self.attrs@.skip(i as int).drop_first() =~= self.attrs@.skip(i + 1));
            }
            if str_eq(self.attrs[i].0.as_str(), name) {
                return Some(self.attrs[i].1.as_str());
            }
            i = i + 1;
        }
        proof {
            assert(self.attrs@.skip(i as int) =~= Seq::<(String, String)>::empty());
        }
        None
    }

    /// Finds the first child element named `name`.
    pub fn find_child<'a>(&'a self, name: &str) -> (r: Option<&'a XmlElem>)
        ensures
            match r {
                Some(c) => find_named(self.children@, name@) == Some(*c),
                None => find_named(self.children@, name@) is None,
            },
    {
        proof {
            assert(self.children@.skip(0) =~= self.children@);
        }
        let mut i: usize = 0;
        while i < self.children.len()
            invariant
                i <= self.children@.len(),
                find_named(self.children@, name@) == find_named(
                    self.children@.skip(i as int),
                    name@,
                ),
            decreases self.children@.len() - i,
        {
            proof {
                assert(self.children@.skip(i as int)[0] == self.children@[i as int]);
                assert(self.children@.skip(i as int).drop_first() =~= self.children@.skip(i + 1));
            }
            if str_eq(self.children[i].name.as_str(), name) {
                return Some(&self.children[i]);
            }
            i = i + 1;
        }
        proof {
            assert(self.children@.skip(i as int) =~= Seq::<XmlElem>::empty());
        }
        None
    }

    /// Whether all element children share one tag name.
    pub fn children_same_named(&self) -> (r: bool)
        ensures
            r == same_named(self.children@),
    {
        let n = self.children.len();
        let mut i: usize = 0;
        while i < n
            invariant
                n == self.children@.len(),
                i <= n,
                forall|k: int|
                    0 <= k < i ==> (#[trigger] self.children@[k]).name@
                        == self.children@[0].name@,
            decreases n - i,
        {
            if !str_eq(self.children[i].name.as_str(), self.children[0].name.as_str()) {
                assert(!same_named(self.children@));
                return false;
            }
            i = i + 1;
        }
        true
    }

    /// Whether the element children's tag names are pairwise distinct.
    pub fn children_unique_named(&self) -> (r: bool)
        ensures
            r == unique_names(self.children@),
    {
        let n = self.children.len();
        let mut i: usize = 0;
        while i < n
            invariant
                n == self.children@.len(),
                i <= n,
                forall|k1: int, k2: int|
                    0 <= k1 < k2 < i ==> (#[trigger] self.children@[k1]).name@
                        != (#[trigger] self.children@[k2]).name@,
            decreases n - i,
        {
            let mut j: usize = 0;
            while j < i
                invariant
                    i < n,
                    n == self.children@.len(),
                    j <= i,
                    forall|k: int|
                        0 <= k < j ==> (#[trigger] self.children@[k]).name@
                            != self.children@[i as int].name@,
                decreases i - j,
            {
                if str_eq(self.children[j].name.as_str(), self.children[i].name.as_str()) {
                    assert(!unique_names(self.children@));
                    return false;
                }
                j = j + 1;
            }
            i = i + 1;
        }
        true
    }

    /// Counts the children named `name`.
    pub fn count_children_named(&self, name: &str) -> (r: usize)
        ensures
            r == count_named(self.children@, name@),
    {
        proof {
            lemma_count_named_bounds(self.children@, name@);
        }
        let mut i: usize = 0;
        let mut c: usize = 0;
        while i < self.children.len()
            invariant
                i <= self.children@.len(),
                c == count_named(self.children@.take(i as int), name@),
                c <= i,
            decreases self.children@.len() - i,
        {
            proof {
                lemma_count_named_step(self.children@, name@, i as int);
            }
            if str_eq(self.children[i].name.as_str(), name) {
                c = c + 1;
            }
            i = i + 1;
            proof {
                lemma_count_named_bounds(self.children@.take(i as int), name@);
            }
        }
        proof {
            assert(self.children@.take(i as int) =~= self.children@);
        }
        c
    }
}

proof fn lemma_count_named_step(s: Seq<XmlElem>, n: Seq<char>, i: int)
    requires
        0 <= i < s.len(),
    ensures
        count_named(s.take(i + 1), n) == count_named(s.take(i), n) + (if s[i].name@ == n {
            1int
        } else {
            0int
        }),
    decreases i,
{
    let p = s.take(i + 1);
    if i == 0 {
        assert(p.drop_first() =~= s.take(0));
        assert(count_named(s.take(0), n) == 0);
    } else {
        assert(p.drop_first() =~= s.drop_first().take(i));
        assert(s.take(i).drop_first() =~= s.drop_first().take(i - 1));
        lemma_count_named_step(s.drop_first(), n, i - 1);
        assert(s.drop_first()[i - 1] == s[i]);
    }
}

proof fn lemma_count_named_bounds(s: Seq<XmlElem>, n: Seq<char>)
    ensures
        0 <= count_named(s, n) <= s.len(),
    decreases s.len(),
{
    if s.len() > 0 {
        lemma_count_named_bounds(s.drop_first(), n);
    }
}

// ------------------------------------------------------------------
// The trusted parse boundary: document bytes to the element tree.
// ------------------------------------------------------------------

/// Declares roxmltree's node type, so that the copier below can take it;
/// the verifier sees nothing of its contents.
#[verifier::external_type_specification]
#[verifier::external_body]
pub struct ExXmlNode<'a, 'input: 'a>(roxmltree::Node<'a, 'input>);

/// Recursively copies a parsed element into the library's tree.  Relies on
/// roxmltree::Node's accessors: `tag_name().name()` is the local tag name,
/// `attributes()` yields the attributes in document order, `text()` the
/// leading character data, and `children()` the child nodes, of which the
/// element nodes are kept.  Its callers state their contracts; nothing is
/// claimed here.
#[verifier::external_body]
fn node_to_elem(node: roxmltree::Node<'_, '_>) -> XmlElem {
    XmlElem {
        name: node.tag_name().name().to_string(),
        attrs: node
            .attributes()
            .map(|a| (a.name().to_string(), a.value().to_string()))
            .collect(),
        text: node.text().map(|t| t.to_string()),
        children: node
            .children()
            .filter(|c| c.is_element())
            .map(node_to_elem)
            .collect(),
    }
}

/// The characters of `bytes` decoded as UTF-8, if the bytes are valid UTF-8.
pub uninterp spec fn utf8_chars(bytes: Seq<u8>) -> Option<Seq<char>>;

/// Relies on simdutf8::basic::from_utf8: it succeeds exactly on valid UTF-8
/// input, and the resulting text is a function of the bytes alone.
#[verifier::external_body]
fn bytes_to_str(bytes: &[u8]) -> (r: Option<&str>)
    ensures
        match r {
            Some(s) => utf8_chars(bytes@) == Some(s@),
            None => utf8_chars(bytes@) is None,
        },
{
    simdutf8::basic::from_utf8(bytes).ok()
}

/// The element tree of the XML document `text`, if `text` is well-formed XML.
pub uninterp spec fn xml_doc(text: Seq<char>) -> Option<XmlElem>;

/// Relies on roxmltree::Document::parse: parsing is a function of the text
/// alone; it fails exactly on malformed XML, and on success the document has
/// one root element, copied here into the library's tree.
#[verifier::external_body]
fn parse_xml_text(text: &str) -> (r: Option<XmlElem>)
    ensures
        r == xml_doc(text@),
{
    match roxmltree::Document::parse(text) {
        Ok(doc) => Some(node_to_elem(doc.root_element())),
        Err(_) => None,
    }
}

/// The root element of the document encoded by `bytes`, if the bytes are
/// valid UTF-8 and well-formed XML.
pub open spec fn spec_parse_document(bytes: Seq<u8>) -> Option<XmlElem> {
    match utf8_chars(bytes) {
        Some(t) => xml_doc(t),
        None => None,
    }
}

/// Parses document bytes into the library's element tree.
pub fn parse_document(bytes: &[u8]) -> (r: Option<XmlElem>)
    ensures
        r == spec_parse_document(bytes@),
{
    match bytes_to_str(bytes) {
        Some(s) => parse_xml_text(s),
        None => None,
    }
}

} // verus!
