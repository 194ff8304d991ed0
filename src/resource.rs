//! The description of the entity that produces telemetry.
use vstd::prelude::*;

use crate::attributes::{attrs_view, canonical, canonicalize, copy_attributes, AttrView, KeyValue};

verus! {

/// Attributes that describe the entity producing telemetry, kept in canonical
/// form: sorted by key, one value per key.
pub struct Resource {
    attrs: Vec<KeyValue>,
}

impl View for Resource {
    type V = Seq<AttrView>;

    closed spec fn view(&self) -> Seq<AttrView> {
        attrs_view(self.attrs@)
    }
}

impl Resource {
    /// A resource from attributes; a later value for a key replaces an earlier one.
    pub fn new(attrs: Vec<KeyValue>) -> (r: Resource)
        ensures
            r@ == canonical(attrs_view(attrs@)),
    {
        Resource { attrs: canonicalize(&attrs) }
    }

    /// A resource without attributes.
    pub fn empty() -> (r: Resource)
        ensures
            r@ == Seq::<AttrView>::empty(),
    {
        let r = Resource { attrs: Vec::new() };
        proof {
            assert(attrs_view(r.attrs@) =~= Seq::<AttrView>::empty());
        }
        r
    }

    /// The resource's attributes, sorted by key.
    pub fn attributes(&self) -> (r: Vec<KeyValue>)
        ensures
            attrs_view(r@) == self@,
    {
        copy_attributes(&self.attrs)
    }

    /// Both resources' attributes; where a key is in both, `other`'s value wins.
    pub fn merge(&self, other: &Resource) -> (r: Resource)
        ensures
            r@ == canonical(self@ + other@),
    {
        let mut all = copy_attributes(&self.attrs);
        let mut more = copy_attributes(&other.attrs);
        let ghost a = attrs_view(all@);
        let ghost b = attrs_view(more@);
        all.append(&mut more);
        proof {
            assert(attrs_view(all@) =~= a + b);
        }
        Resource { attrs: canonicalize(&all) }
    }
}

impl Clone for Resource {
    fn clone(&self) -> (r: Self)
        ensures
            r@ == self@,
    {
        Resource { attrs: copy_attributes(&self.attrs) }
    }
}

} // verus!
