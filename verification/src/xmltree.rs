//! A flat, parent-indexed model of a parsed XML document, produced by the
//! trusted markup-parsing wrapper and then traversed by verified code.
//!
//! Elements are held in document (pre-)order; every element's parent comes
//! before it, which the library checks before trusting the shape.

use std::collections::HashMap;
use vstd::prelude::*;
use crate::text::spec_trim;

verus! {

/// One attribute of an element.
pub struct XmlAttr {
    pub name: String,
    pub value: String,
}

/// One element: its tag, the index of its parent element (`None` for the
/// document root element), its attributes, and its immediate text content.
pub struct XmlElem {
    pub tag: String,
    pub parent: Option<usize>,
    pub attrs: Vec<XmlAttr>,
    pub text: String,
}

/// All elements of a document, in document order.
pub struct XmlTree {
    pub elems: Vec<XmlElem>,
}

pub ghost struct XmlAttrView {
    pub name: Seq<char>,
    pub value: Seq<char>,
}

pub ghost struct XmlElemView {
    pub tag: Seq<char>,
    pub parent: Option<int>,
    pub attrs: Seq<XmlAttrView>,
    pub text: Seq<char>,
}

impl View for XmlAttr {
    type V = XmlAttrView;

    open spec fn view(&self) -> XmlAttrView {
        XmlAttrView { name: self.name@, value: self.value@ }
    }
}

impl View for XmlElem {
    type V = XmlElemView;

    open spec fn view(&self) -> XmlElemView {
        XmlElemView {
            tag: self.tag@,
            parent: match self.parent {
                Some(p) => Some(p as int),
                None => None,
            },
            attrs: self.attrs@.map_values(|a: XmlAttr| a@),
            text: self.text@,
        }
    }
}

impl View for XmlTree {
    type V = Seq<XmlElemView>;

    open spec fn view(&self) -> Seq<XmlElemView> {
        self.elems@.map_values(|e: XmlElem| e@)
    }
}

/// Every element's parent is an earlier element.
pub open spec fn wf_tree(t: Seq<XmlElemView>) -> bool {
    forall|k: int|
        0 <= k < t.len() ==> (#[trigger] t[k].parent matches Some(p) ==> 0 <= p < k)
}

/// The flat element list that parsing the given markup yields, or `None` when
/// the markup is not well-formed. The result is a function of the text alone.
pub uninterp spec fn xml_doc_of(text: Seq<char>) -> Option<Seq<XmlElemView>>;

/// Relies on `roxmltree::Document::parse`: it rejects exactly the documents
/// that are not well-formed XML, and on success hands back the element tree,
/// which this wrapper flattens in document order. Each element's parent is
/// inserted before it, so parent indices point strictly backwards.
#[verifier::external_body]
pub fn parse_xml_text(text: &str) -> (r: Option<XmlTree>)
    ensures
        r is Some <==> xml_doc_of(text@) is Some,
        r matches Some(t) ==> (xml_doc_of(text@) matches Some(m) && t@ == m && wf_tree(m)),
{
    let doc = roxmltree::Document::parse(text).ok()?;
    let mut elems: Vec<XmlElem> = Vec::new();
    let mut idx = HashMap::new();
    for node in doc.descendants().filter(|n| n.is_element()) {
        let attrs = node.attributes().map(|a| mk_attr(a.name(), a.value())).collect();
        let parent = node.parent().and_then(|p| idx.get(&p.id().get_usize()).copied());
        idx.insert(node.id().get_usize(), elems.len());
        elems.push(mk_elem(node.tag_name().name(), parent, attrs, node.text().unwrap_or("")));
    }
    Some(XmlTree { elems })
}

fn mk_attr(name: &str, value: &str) -> (r: XmlAttr)
    ensures
        r@.name == name@,
        r@.value == value@,
{
    XmlAttr { name: String::from_str(name), value: String::from_str(value) }
}

fn mk_elem(tag: &str, parent: Option<usize>, attrs: Vec<XmlAttr>, text: &str) -> (r: XmlElem)
    ensures
        r.tag@ == tag@,
        r.parent == parent,
        r.attrs == attrs,
        r.text@ == text@,
{
    XmlElem { tag: String::from_str(tag), parent, attrs, text: String::from_str(text) }
}

/// Some strict ancestor of `i` carries the given tag.
pub open spec fn spec_under_tag(t: Seq<XmlElemView>, i: int, tag: Seq<char>) -> bool
    decreases i,
{
    if 0 <= i < t.len() {
        match t[i].parent {
            Some(p) => if 0 <= p < i {
                t[p].tag == tag || spec_under_tag(t, p, tag)
            } else {
                false
            },
            None => false,
        }
    } else {
        false
    }
}

/// `i` is a strict descendant of `anc`.
pub open spec fn spec_has_ancestor(t: Seq<XmlElemView>, i: int, anc: int) -> bool
    decreases i,
{
    if 0 <= i < t.len() {
        match t[i].parent {
            Some(p) => if 0 <= p < i {
                p == anc || spec_has_ancestor(t, p, anc)
            } else {
                false
            },
            None => false,
        }
    } else {
        false
    }
}

/// The first element at index `k` or later whose parent is `i` and whose tag
/// matches.
pub open spec fn spec_find_child(t: Seq<XmlElemView>, i: int, tag: Seq<char>, k: int) -> Option<
    int,
>
    decreases t.len() - k when 0 <= k
{
    if !(0 <= k < t.len()) {
        None
    } else if t[k].parent == Some(i) && t[k].tag == tag {
        Some(k)
    } else {
        spec_find_child(t, i, tag, k + 1)
    }
}

/// The first element at index `k` or later that strictly descends from `i`
/// and whose tag matches.
pub open spec fn spec_find_desc(t: Seq<XmlElemView>, i: int, tag: Seq<char>, k: int) -> Option<
    int,
>
    decreases t.len() - k when 0 <= k
{
    if !(0 <= k < t.len()) {
        None
    } else if spec_has_ancestor(t, k, i) && t[k].tag == tag {
        Some(k)
    } else {
        spec_find_desc(t, i, tag, k + 1)
    }
}

/// All strict descendants of `i` with the given tag, in document order,
/// starting at index `k`.
pub open spec fn spec_desc_list(t: Seq<XmlElemView>, i: int, tag: Seq<char>, k: int) -> Seq<int>
    decreases t.len() - k when 0 <= k
{
    if !(0 <= k < t.len()) {
        Seq::empty()
    } else if spec_has_ancestor(t, k, i) && t[k].tag == tag {
        seq![k] + spec_desc_list(t, i, tag, k + 1)
    } else {
        spec_desc_list(t, i, tag, k + 1)
    }
}

/// The element holding a named field of element `i`: a direct child with the
/// field's tag when one exists, else the first deeper descendant with it.
pub open spec fn spec_field_elem(t: Seq<XmlElemView>, i: int, tag: Seq<char>) -> Option<int> {
    match spec_find_child(t, i, tag, 0) {
        Some(c) => Some(c),
        None => spec_find_desc(t, i, tag, 0),
    }
}

/// The trimmed text of a named field of element `i`, when the field exists.
pub open spec fn spec_field_text(t: Seq<XmlElemView>, i: int, tag: Seq<char>) -> Option<
    Seq<char>,
> {
    match spec_field_elem(t, i, tag) {
        Some(e) => Some(spec_trim(t[e].text)),
        None => None,
    }
}

/// The value of the first attribute of that name, scanning from `k`.
pub open spec fn spec_find_attr(attrs: Seq<XmlAttrView>, name: Seq<char>, k: int) -> Option<
    Seq<char>,
>
    decreases attrs.len() - k when 0 <= k
{
    if !(0 <= k < attrs.len()) {
        None
    } else if attrs[k].name == name {
        Some(attrs[k].value)
    } else {
        spec_find_attr(attrs, name, k + 1)
    }
}

/// The value of the named attribute of element `i`, when present.
pub open spec fn spec_attr(t: Seq<XmlElemView>, i: int, name: Seq<char>) -> Option<Seq<char>> {
    spec_find_attr(t[i].attrs, name, 0)
}

impl XmlTree {
    pub open spec fn wf(&self) -> bool {
        wf_tree(self@)
    }

    pub fn len(&self) -> (r: usize)
        ensures
            r == self@.len(),
    {
        self.elems.len()
    }

    /// Decide [`wf_tree`] by scanning the parent indices.
    pub fn check_wf(&self) -> (r: bool)
        ensures
            r == self.wf(),
    {
        let n = self.elems.len();
        let mut k: usize = 0;
        while k < n
            invariant
                n == self@.len(),
                k <= n,
                forall|j: int|
                    0 <= j < k ==> (#[trigger] self@[j].parent matches Some(p) ==> 0 <= p < j),
            decreases n - k,
        {
            match self.elems[k].parent {
                Some(p) => {
                    if p >= k {
                        proof {
                            assert(self@[k as int] == self.elems@[k as int]@);
                            assert(self@[k as int].parent matches Some(q) && !(0 <= q < k));
                        }
                        return false;
                    }
                },
                None => {},
            }
            k = k + 1;
        }
        true
    }

    /// Decide [`spec_under_tag`] by walking the ancestor chain.
    pub fn under_tag(&self, i: usize, tag: &str) -> (r: bool)
        requires
            self.wf(),
            i < self@.len(),
        ensures
            r == spec_under_tag(self@, i as int, tag@),
    {
        let mut cur: usize = i;
        loop
            invariant
                self.wf(),
                cur < self@.len(),
                spec_under_tag(self@, i as int, tag@) == spec_under_tag(self@, cur as int, tag@),
            decreases cur,
        {
            match self.elems[cur].parent {
                None => {
                    return false;
                },
                Some(p) => {
                    if crate::text::str_eq(self.elems[p].tag.as_str(), tag) {
                        return true;
                    }
                    cur = p;
                },
            }
        }
    }

    /// Decide [`spec_has_ancestor`] by walking the ancestor chain.
    pub fn has_ancestor(&self, i: usize, anc: usize) -> (r: bool)
        requires
            self.wf(),
            i < self@.len(),
        ensures
            r == spec_has_ancestor(self@, i as int, anc as int),
    {
        let mut cur: usize = i;
        loop
            invariant
                self.wf(),
                cur < self@.len(),
                spec_has_ancestor(self@, i as int, anc as int) == spec_has_ancestor(
                    self@,
                    cur as int,
                    anc as int,
                ),
            decreases cur,
        {
            match self.elems[cur].parent {
                None => {
                    return false;
                },
                Some(p) => {
                    if p == anc {
                        return true;
                    }
                    cur = p;
                },
            }
        }
    }

    /// Find the element of a named field per [`spec_field_elem`].
    pub fn field_elem(&self, i: usize, tag: &str) -> (r: Option<usize>)
        requires
            self.wf(),
            i < self@.len(),
        ensures
            match r {
                Some(e) => spec_field_elem(self@, i as int, tag@) == Some(e as int) && e
                    < self@.len(),
                None => spec_field_elem(self@, i as int, tag@) is None,
            },
    {
        let n = self.elems.len();
        let mut k: usize = 0;
        while k < n
            invariant
                self.wf(),
                n == self@.len(),
                i < n,
                k <= n,
                spec_find_child(self@, i as int, tag@, 0) == spec_find_child(
                    self@,
                    i as int,
                    tag@,
                    k as int,
                ),
            decreases n - k,
        {
            if self.elems[k].parent == Some(i) && crate::text::str_eq(
                self.elems[k].tag.as_str(),
                tag,
            ) {
                return Some(k);
            }
            k = k + 1;
        }
        let mut k: usize = 0;
        while k < n
            invariant
                self.wf(),
                n == self@.len(),
                i < n,
                k <= n,
                spec_find_child(self@, i as int, tag@, 0) is None,
                spec_find_desc(self@, i as int, tag@, 0) == spec_find_desc(
                    self@,
                    i as int,
                    tag@,
                    k as int,
                ),
            decreases n - k,
        {
            if self.has_ancestor(k, i) && crate::text::str_eq(self.elems[k].tag.as_str(), tag) {
                return Some(k);
            }
            k = k + 1;
        }
        None
    }

    /// The trimmed text of a named field, per [`spec_field_text`].
    pub fn field_text(&self, i: usize, tag: &str) -> (r: Option<String>)
        requires
            self.wf(),
            i < self@.len(),
        ensures
            match r {
                Some(s) => spec_field_text(self@, i as int, tag@) == Some(s@),
                None => spec_field_text(self@, i as int, tag@) is None,
            },
    {
        match self.field_elem(i, tag) {
            Some(e) => Some(crate::text::trim_str(self.elems[e].text.as_str())),
            None => None,
        }
    }

    /// The named attribute of element `i`, per [`spec_attr`].
    pub fn attr(&self, i: usize, name: &str) -> (r: Option<&String>)
        requires
            i < self@.len(),
        ensures
            match r {
                Some(v) => spec_attr(self@, i as int, name@) == Some(v@),
                None => spec_attr(self@, i as int, name@) is None,
            },
    {
        let attrs = &self.elems[i].attrs;
        let n = attrs.len();
        let mut k: usize = 0;
        while k < n
            invariant
                i < self@.len(),
                attrs@.map_values(|a: XmlAttr| a@) == self@[i as int].attrs,
                n == attrs@.len(),
                k <= n,
                spec_find_attr(self@[i as int].attrs, name@, 0) == spec_find_attr(
                    self@[i as int].attrs,
                    name@,
                    k as int,
                ),
            decreases n - k,
        {
            if crate::text::str_eq(attrs[k].name.as_str(), name) {
                return Some(&attrs[k].value);
            }
            k = k + 1;
        }
        None
    }

    /// All strict descendants of `i` with the given tag, in document order,
    /// per [`spec_desc_list`].
    pub fn desc_list(&self, i: usize, tag: &str) -> (r: Vec<usize>)
        requires
            self.wf(),
            i < self@.len(),
        ensures
            r@.map_values(|x: usize| x as int) == spec_desc_list(self@, i as int, tag@, 0),
            forall|j: int| 0 <= j < r@.len() ==> r@[j] < self@.len(),
    {
        let n = self.elems.len();
        let mut out: Vec<usize> = Vec::new();
        let mut k: usize = 0;
        while k < n
            invariant
                self.wf(),
                n == self@.len(),
                i < n,
                k <= n,
                forall|j: int| 0 <= j < out@.len() ==> out@[j] < n,
                spec_desc_list(self@, i as int, tag@, 0) == out@.map_values(|x: usize| x as int)
                    + spec_desc_list(self@, i as int, tag@, k as int),
            decreases n - k,
        {
            if self.has_ancestor(k, i) && crate::text::str_eq(self.elems[k].tag.as_str(), tag) {
                let ghost old_out = out@;
                out.push(k);
                proof {
                    assert(out@.map_values(|x: usize| x as int) =~= old_out.map_values(
                        |x: usize| x as int,
                    ) + seq![k as int]);
                    assert(old_out.map_values(|x: usize| x as int) + (seq![k as int]
                        + spec_desc_list(self@, i as int, tag@, k + 1)) =~= (old_out.map_values(
                        |x: usize| x as int,
                    ) + seq![k as int]) + spec_desc_list(self@, i as int, tag@, k + 1));
                }
            }
            k = k + 1;
        }
        proof {
            assert(spec_desc_list(self@, i as int, tag@, 0) =~= out@.map_values(
                |x: usize| x as int,
            ));
        }
        out
    }
}

} // verus!
