//! The CPU-side mesh that vertex buffers are filled from: named attribute
//! streams that each hold a fixed number of components per vertex.
use vstd::prelude::*;

verus! {

/// One named per-vertex stream of a mesh, stored as a flat array:
/// the components of vertex `v` are `data[v * no_components .. (v + 1) * no_components]`.
#[derive(Debug)]
pub struct AttributeData<T> {
    pub name: String,
    pub no_components: usize,
    pub data: Vec<T>,
}

/// The first attribute of `attrs` whose name is `name`.
pub open spec fn lookup<T>(attrs: Seq<AttributeData<T>>, name: Seq<char>) -> Option<AttributeData<T>>
    decreases attrs.len(),
{
    if attrs.len() == 0 {
        None
    } else if attrs[0].name@ == name {
        Some(attrs[0])
    } else {
        lookup(attrs.drop_first(), name)
    }
}

/// What `lookup` finds is one of the attributes searched.
pub proof fn lemma_lookup_member<T>(attrs: Seq<AttributeData<T>>, name: Seq<char>)
    ensures
        lookup(attrs, name) is Some ==> exists|i: int| 0 <= i < attrs.len() && attrs[i] == lookup(attrs, name)->0,
    decreases attrs.len(),
{
    if attrs.len() > 0 && attrs[0].name@ != name {
        let rest = attrs.drop_first();
        lemma_lookup_member(rest, name);
        if lookup(rest, name) is Some {
            let j = choose|j: int| 0 <= j < rest.len() && rest[j] == lookup(rest, name)->0;
            assert(attrs[j + 1] == rest[j]);
        }
    } else if attrs.len() > 0 {
        assert(attrs[0] == lookup(attrs, name)->0);
    }
}

/// A mesh: a vertex count and the attribute streams of those vertices.
#[derive(Debug)]
pub struct StaticMesh<T> {
    pub no_vertices: usize,
    pub attributes: Vec<AttributeData<T>>,
}

impl<T> StaticMesh<T> {
    /// Every attribute has a positive component count and holds exactly
    /// `no_components` values for each vertex.
    pub open spec fn wf(&self) -> bool {
        forall|i: int|
            0 <= i < self.attributes@.len() ==> {
                &&& #[trigger] self.attributes@[i].no_components > 0
                &&& self.attributes@[i].data@.len() == self.attributes@[i].no_components
                    * self.no_vertices
            }
    }

    /// The attribute that `attribute(name)` finds.
    pub open spec fn spec_attribute(&self, name: Seq<char>) -> Option<AttributeData<T>> {
        lookup(self.attributes@, name)
    }

    /// An attribute that a well-formed mesh finds has a positive width and
    /// holds `no_components` values for each vertex.
    pub proof fn lemma_found_fits(&self, name: Seq<char>)
        requires
            self.wf(),
            self.spec_attribute(name) is Some,
        ensures
            self.spec_attribute(name)->0.no_components > 0,
            self.spec_attribute(name)->0.data@.len() == self.spec_attribute(name)->0.no_components
                * self.no_vertices,
    {
        lemma_lookup_member(self.attributes@, name);
        let i = choose|i: int|
            0 <= i < self.attributes@.len() && self.attributes@[i] == lookup(self.attributes@, name)->0;
        assert(self.attributes@[i].no_components > 0);
    }

    /// A mesh of `no_vertices` vertices with no attribute yet.
    pub fn new(no_vertices: usize) -> (r: StaticMesh<T>)
        ensures
            r.no_vertices == no_vertices,
            r.attributes@.len() == 0,
            r.wf(),
    {
        StaticMesh { no_vertices, attributes: Vec::new() }
    }

    /// Appends an attribute stream. A name already present keeps resolving to
    /// the earlier stream.
    pub fn add_attribute(&mut self, name: String, no_components: usize, data: Vec<T>)
        requires
            old(self).wf(),
            no_components > 0,
            data@.len() == no_components * old(self).no_vertices,
        ensures
            final(self).wf(),
            final(self).no_vertices == old(self).no_vertices,
            final(self).attributes@ == old(self).attributes@.push(
                AttributeData { name, no_components, data },
            ),
    {
        self.attributes.push(AttributeData { name, no_components, data });
    }

    /// The number of vertices.
    pub fn no_vertices(&self) -> (r: usize)
        ensures
            r == self.no_vertices,
    {
        self.no_vertices
    }

    /// The first attribute named `name`, or `None` where the mesh has none.
    pub fn attribute(&self, name: &str) -> (r: Option<&AttributeData<T>>)
        ensures
            match r {
                Some(a) => self.spec_attribute(name@) == Some(*a),
                None => self.spec_attribute(name@) is None,
            },
    {
        let key: String = name.to_owned();
        let mut i: usize = 0;
        assert(self.attributes@.skip(0) =~= self.attributes@);
        while i < self.attributes.len()
            invariant
                i <= self.attributes@.len(),
                key@ == name@,
                lookup(self.attributes@, name@) == lookup(self.attributes@.skip(i as int), name@),
            decreases self.attributes@.len() - i,
        {
            let a = &self.attributes[i];
            assert(self.attributes@.skip(i as int).drop_first() =~= self.attributes@.skip(i + 1));
            if a.name == key {
                return Some(a);
            }
            i = i + 1;
        }
        None
    }
}

} // verus!
