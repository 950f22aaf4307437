//! Utility functions over XML trees.
//!
//! The tree is modeled by name and children, which is all the walks below
//! read; converting a concrete XML document into this shape is the caller's
//! business.

use vstd::prelude::*;
use crate::calendar::str_eq;

verus! {

/// An XML element: its tag name and its child elements.
#[derive(Debug)]
pub struct XmlNode {
    pub name: String,
    pub children: Vec<XmlNode>,
}

/// Every descendant of the root carrying `name`, in document order; a
/// matching element's own subtree is not searched further, and the root
/// itself is never reported.
pub open spec fn descendants_named(t: XmlNode, name: Seq<char>) -> Seq<XmlNode>
    decreases t, 1int,
{
    list_named(t.children@, name)
}

pub open spec fn list_named(ts: Seq<XmlNode>, name: Seq<char>) -> Seq<XmlNode>
    decreases ts, 0int,
{
    if ts.len() == 0 {
        Seq::empty()
    } else {
        (if ts[0].name@ == name {
            seq![ts[0]]
        } else {
            descendants_named(ts[0], name)
        }) + list_named(ts.subrange(1, ts.len() as int), name)
    }
}

/// The first element of the tree carrying `name`, in depth-first preorder,
/// the root included.
pub open spec fn first_named(t: XmlNode, name: Seq<char>) -> Option<XmlNode>
    decreases t, 1int,
{
    if t.name@ == name {
        Some(t)
    } else {
        first_in_list(t.children@, name)
    }
}

pub open spec fn first_in_list(ts: Seq<XmlNode>, name: Seq<char>) -> Option<XmlNode>
    decreases ts, 0int,
{
    if ts.len() == 0 {
        None
    } else {
        match first_named(ts[0], name) {
            Some(e) => Some(e),
            None => first_in_list(ts.subrange(1, ts.len() as int), name),
        }
    }
}

/// Walks an XML tree and returns every element that has the given name.
pub fn find_elems<'a>(root: &'a XmlNode, searched_name: &str) -> (r: Vec<&'a XmlNode>)
    ensures
        r@.map_values(|x: &XmlNode| *x) == descendants_named(*root, searched_name@),
    decreases *root,
{
    let mut elems: Vec<&'a XmlNode> = Vec::new();
    let mut i: usize = 0;
    proof {
        assert(root.children@.subrange(0, root.children@.len() as int) =~= root.children@);
        assert(elems@.map_values(|x: &XmlNode| *x) =~= Seq::<XmlNode>::empty());
    }
    while i < root.children.len()
        invariant
            i <= root.children@.len(),
            descendants_named(*root, searched_name@) == elems@.map_values(|x: &XmlNode| *x)
                + list_named(
                root.children@.subrange(i as int, root.children@.len() as int),
                searched_name@,
            ),
        decreases root.children@.len() - i,
    {
        let ghost suf = root.children@.subrange(i as int, root.children@.len() as int);
        proof {
            assert(suf[0] == root.children@[i as int]);
            assert(suf.subrange(1, suf.len() as int) =~= root.children@.subrange(
                i as int + 1,
                root.children@.len() as int,
            ));
        }
        let el = &root.children[i];
        let ghost pre = elems@;
        if str_eq(el.name.as_str(), searched_name) {
            elems.push(el);
            proof {
                assert(elems@.map_values(|x: &XmlNode| *x) =~= pre.map_values(|x: &XmlNode| *x)
                    + seq![*el]);
            }
        } else {
            proof {
                assert(decreases_to!(*root => root.children@[i as int]));
            }
            let mut ret = find_elems(el, searched_name);
            let ghost retv = ret@;
            elems.append(&mut ret);
            proof {
                assert(elems@.map_values(|x: &XmlNode| *x) =~= pre.map_values(|x: &XmlNode| *x)
                    + retv.map_values(|x: &XmlNode| *x));
            }
        }
        i += 1;
    }
    proof {
        assert(list_named(
            root.children@.subrange(
                root.children@.len() as int,
                root.children@.len() as int,
            ),
            searched_name@,
        ) =~= Seq::<XmlNode>::empty());
        assert(elems@.map_values(|x: &XmlNode| *x) =~= descendants_named(*root, searched_name@));
    }
    elems
}

/// Walks an XML tree until it finds an element with the given name.
pub fn find_elem<'a>(root: &'a XmlNode, searched_name: &str) -> (r: Option<&'a XmlNode>)
    ensures
        match r {
            Some(e) => first_named(*root, searched_name@) == Some(*e),
            None => first_named(*root, searched_name@) is None,
        },
    decreases *root,
{
    if str_eq(root.name.as_str(), searched_name) {
        return Some(root);
    }
    let mut i: usize = 0;
    proof {
        assert(root.children@.subrange(0, root.children@.len() as int) =~= root.children@);
    }
    while i < root.children.len()
        invariant
            i <= root.children@.len(),
            root.name@ != searched_name@,
            first_named(*root, searched_name@) == first_in_list(
                root.children@.subrange(i as int, root.children@.len() as int),
                searched_name@,
            ),
        decreases root.children@.len() - i,
    {
        let ghost suf = root.children@.subrange(i as int, root.children@.len() as int);
        proof {
            assert(suf[0] == root.children@[i as int]);
            assert(suf.subrange(1, suf.len() as int) =~= root.children@.subrange(
                i as int + 1,
                root.children@.len() as int,
            ));
        }
        let el = &root.children[i];
        proof {
            assert(decreases_to!(*root => root.children@[i as int]));
        }
        let ret = find_elem(el, searched_name);
        if let Some(found) = ret {
            return Some(found);
        }
        i += 1;
    }
    None
}

} // verus!
