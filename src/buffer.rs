//! Vertex and index buffers: the layout a vertex buffer records, the packed
//! data it hands over for upload, and the binds both kinds ask for.
use vstd::prelude::*;
use vstd::std_specs::iter::IteratorSpec;
use std::slice::Iter;
use crate::binding::{bind_step, BindingCache, Target};
use crate::layout::{
    deinterleave, is_interleaving, lemma_deinterleave_round_trip, lemma_field_in_record, lemma_offset_step, lemma_offset_total,
    lemma_packed_interleaves, offset_of, packed, row_prefix, streams_fit, total_width, widths_of,
};
use crate::mesh::{AttributeData, StaticMesh};

verus! {

/// What can go wrong while creating or filling a buffer.
#[derive(Debug)]
pub enum Error {
    /// A requested attribute is not in the mesh; `name` is that attribute.
    AttributeNotFound { name: String },
    /// The driver handed out no buffer handle.
    AllocationError,
}

/// One attribute slot of a vertex buffer's layout.
#[derive(Debug)]
pub struct Att {
    pub name: String,
    pub no_components: usize,
}

/// The component counts of a layout, in order.
pub open spec fn layout_widths(atts: Seq<Att>) -> Seq<usize> {
    atts.map_values(|a: Att| a.no_components)
}

/// What the driver has to be told for one fill: bind `id` on `target` first
/// where `bind_issued` holds, then upload `data` to `target` as static data.
#[derive(Debug)]
pub struct Upload<T> {
    pub target: Target,
    pub id: u32,
    pub bind_issued: bool,
    pub data: Vec<T>,
}

/// The handle that the driver returns when it could not allocate a buffer.
pub const NO_BUFFER: u32 = 0;

/// Every requested name is in the mesh.
pub open spec fn all_present<T>(mesh: StaticMesh<T>, names: Seq<&str>) -> bool {
    forall|i: int| 0 <= i < names.len() ==> #[trigger] mesh.spec_attribute(names[i]@) is Some
}

/// The attribute streams that a request selects, in request order.
pub open spec fn selection<T>(mesh: StaticMesh<T>, names: Seq<&str>) -> Seq<AttributeData<T>> {
    names.map_values(|n: &str| mesh.spec_attribute(n@)->0)
}

/// Request `i` is the first one whose name the mesh lacks.
pub open spec fn first_missing<T>(mesh: StaticMesh<T>, names: Seq<&str>, i: int) -> bool {
    &&& 0 <= i < names.len()
    &&& mesh.spec_attribute(names[i]@) is None
    &&& forall|j: int| 0 <= j < i ==> #[trigger] mesh.spec_attribute(names[j]@) is Some
}

/// `e` reports that the attribute `name` is missing.
pub open spec fn reports_missing(e: Error, name: Seq<char>) -> bool {
    match e {
        Error::AttributeNotFound { name: n } => n@ == name,
        Error::AllocationError => false,
    }
}

/// Where every name is present, one packed vertex record and all records of
/// the mesh fit in a `usize`.
pub open spec fn request_fits<T>(mesh: StaticMesh<T>, names: Seq<&str>) -> bool {
    all_present(mesh, names) ==> {
        let stride = total_width(widths_of(selection(mesh, names)));
        &&& stride <= usize::MAX
        &&& stride * mesh.no_vertices <= usize::MAX
    }
}

/// `layout` records the request `names` on `mesh`: one slot per request, in
/// request order, each with the requested name and the width of its stream.
pub open spec fn records_request<T>(layout: Seq<Att>, mesh: StaticMesh<T>, names: Seq<&str>) -> bool {
    &&& layout.len() == names.len()
    &&& forall|k: int|
        0 <= k < names.len() ==> {
            &&& (#[trigger] layout[k]).name@ == names[k]@
            &&& layout[k].no_components == selection(mesh, names)[k].no_components
        }
}

/// Filling loses nothing: reading attribute `k` back out of the uploaded data
/// with the recorded layout's widths gives the mesh's stream for the `k`-th
/// requested name exactly.
pub proof fn lemma_fill_round_trip<T>(mesh: StaticMesh<T>, names: Seq<&str>, layout: Seq<Att>, data: Seq<T>, k: int)
    requires
        mesh.wf(),
        all_present(mesh, names),
        records_request(layout, mesh, names),
        is_interleaving(data, selection(mesh, names), mesh.no_vertices as nat),
        0 <= k < names.len(),
    ensures
        deinterleave(data, layout_widths(layout), k, mesh.no_vertices as nat) == mesh.spec_attribute(names[k]@)->0.data@,
{
    let sel = selection(mesh, names);
    assert forall|m: int| 0 <= m < sel.len() implies #[trigger] sel[m].no_components > 0
        && sel[m].data@.len() == sel[m].no_components * mesh.no_vertices by {
        mesh.lemma_found_fits(names[m]@);
    }
    assert(layout_widths(layout) =~= widths_of(sel));
    lemma_deinterleave_round_trip(data, sel, mesh.no_vertices as nat, k);
}

/// A buffer of interleaved vertex data, with the layout it was last filled with.
#[derive(Debug)]
pub struct VertexBuffer {
    id: u32,
    stride: usize,
    attributes_infos: Vec<Att>,
}

impl VertexBuffer {
    /// The driver handle of this buffer.
    pub closed spec fn spec_id(&self) -> u32 {
        self.id
    }

    /// The number of components in one vertex record.
    pub closed spec fn spec_stride(&self) -> nat {
        self.stride as nat
    }

    /// The attribute slots of one vertex record, in order.
    pub closed spec fn layout(&self) -> Seq<Att> {
        self.attributes_infos@
    }

    /// The stride is the sum of the layout's widths, and the handle is a real one.
    pub open spec fn wf(&self) -> bool {
        &&& self.spec_stride() == total_width(layout_widths(self.layout()))
        &&& self.spec_id() != NO_BUFFER
    }

    /// Wraps the handle `id` that the driver allocated, with an empty layout.
    /// Fails with `AllocationError` exactly when `id` is no buffer.
    /// The caller binds it next.
    pub fn create(id: u32) -> (r: Result<VertexBuffer, Error>)
        ensures
            match r {
                Ok(b) => {
                    &&& id != NO_BUFFER
                    &&& b.spec_id() == id
                    &&& b.spec_stride() == 0
                    &&& b.layout().len() == 0
                    &&& b.wf()
                },
                Err(e) => id == NO_BUFFER && e is AllocationError,
            },
    {
        if id == NO_BUFFER {
            return Err(Error::AllocationError);
        }
        let b = VertexBuffer { id, stride: 0, attributes_infos: Vec::new() };
        assert(layout_widths(b.layout()) =~= Seq::<usize>::empty());
        Ok(b)
    }

    /// The driver handle of this buffer.
    pub fn id(&self) -> (r: u32)
        ensures
            r == self.spec_id(),
    {
        self.id
    }

    /// Makes this buffer the bound vertex buffer; returns whether the driver
    /// has to be told.
    pub fn bind(&self, cache: &mut BindingCache) -> (issued: bool)
        ensures
            bind_step(*old(cache), *final(cache), self.spec_id(), Target::Array, issued),
    {
        cache.bind(self.id, Target::Array)
    }

    /// The number of components in one vertex record: 0 before the first fill.
    pub fn stride(&self) -> (r: usize)
        ensures
            r == self.spec_stride(),
    {
        self.stride
    }

    /// The layout's attribute slots, in order, from the first.
    pub fn attributes_iter(&self) -> (r: Iter<'_, Att>)
        ensures
            r.remaining() == self.layout().as_ref(),
    {
        proof {
            broadcast use vstd::std_specs::slice::axiom_spec_slice_iter;
        }
        self.attributes_infos.as_slice().iter()
    }

    /// Binds this buffer and hands `data` over for upload as its whole content.
    pub fn fill_with<T>(&self, data: Vec<T>, cache: &mut BindingCache) -> (r: Upload<T>)
        ensures
            r.target == Target::Array,
            r.id == self.spec_id(),
            r.data@ == data@,
            bind_step(*old(cache), *final(cache), self.spec_id(), Target::Array, r.bind_issued),
    {
        let bind_issued = self.bind(cache);
        Upload { target: Target::Array, id: self.id, bind_issued, data }
    }

    /// Lays out the mesh attributes named by `attribute_names`, in that order,
    /// as one interleaved record per vertex, records the new layout and hands
    /// the packed data over for upload.
    ///
    /// Every name is looked up before anything changes: where one is missing,
    /// the first missing name is reported and neither the buffer nor the cache
    /// is touched.
    pub fn fill_from_attributes<T: Copy>(
        &mut self,
        mesh: &StaticMesh<T>,
        attribute_names: &Vec<&str>,
        cache: &mut BindingCache,
    ) -> (r: Result<Upload<T>, Error>)
        requires
            old(self).wf(),
            mesh.wf(),
            request_fits(*mesh, attribute_names@),
        ensures
            match r {
                Ok(up) => {
                    let sel = selection(*mesh, attribute_names@);
                    &&& all_present(*mesh, attribute_names@)
                    &&& final(self).wf()
                    &&& final(self).spec_id() == old(self).spec_id()
                    &&& final(self).spec_stride() == total_width(widths_of(sel))
                    &&& records_request(final(self).layout(), *mesh, attribute_names@)
                    &&& is_interleaving(up.data@, sel, mesh.no_vertices as nat)
                    &&& up.target == Target::Array
                    &&& up.id == old(self).spec_id()
                    &&& bind_step(*old(cache), *final(cache), old(self).spec_id(), Target::Array, up.bind_issued)
                },
                Err(e) => {
                    &&& exists|i: int|
                        #[trigger] first_missing(*mesh, attribute_names@, i) && reports_missing(e, attribute_names@[i]@)
                    &&& *final(self) == *old(self)
                    &&& *final(cache) == *old(cache)
                },
            },
    {
        let ghost names = attribute_names@;
        let mut found: Vec<&AttributeData<T>> = Vec::new();
        let mut i: usize = 0;
        while i < attribute_names.len()
            invariant
                names == attribute_names@,
                i <= names.len(),
                found@.len() == i,
                forall|k: int| 0 <= k < i ==> mesh.spec_attribute(#[trigger] names[k]@) == Some(*found@[k]),
            decreases names.len() - i,
        {
            match mesh.attribute(attribute_names[i]) {
                Some(a) => found.push(a),
                None => {
                    assert(first_missing(*mesh, names, i as int));
                    return Err(Error::AttributeNotFound { name: attribute_names[i].to_owned() });
                },
            }
            i = i + 1;
        }
        let ghost sel = selection(*mesh, names);
        let ghost ws = widths_of(sel);
        let nv = mesh.no_vertices();
        assert(all_present(*mesh, names));
        assert forall|k: int| 0 <= k < sel.len() implies #[trigger] sel[k] == *found@[k] && sel[k].no_components > 0
            && sel[k].data@.len() == sel[k].no_components * nv by {
            mesh.lemma_found_fits(names[k]@);
        }
        assert(streams_fit(sel, nv as nat));

        let mut stride: usize = 0;
        let mut atts: Vec<Att> = Vec::new();
        let mut k: usize = 0;
        while k < found.len()
            invariant
                names == attribute_names@,
                found@.len() == names.len(),
                forall|m: int| 0 <= m < sel.len() ==> #[trigger] sel[m] == *found@[m],
                sel.len() == names.len(),
                ws == widths_of(sel),
                total_width(ws) <= usize::MAX,
                k <= found@.len(),
                stride == offset_of(ws, k as int),
                atts@.len() == k,
                forall|m: int|
                    0 <= m < k ==> {
                        &&& (#[trigger] atts@[m]).name@ == names[m]@
                        &&& atts@[m].no_components == sel[m].no_components
                    },
            decreases found@.len() - k,
        {
            proof {
                lemma_offset_step(ws, k as int);
                lemma_field_in_record(ws, k as int);
            }
            let w = found[k].no_components;
            stride = stride + w;
            atts.push(Att { name: attribute_names[k].to_owned(), no_components: w });
            k = k + 1;
        }
        proof {
            lemma_offset_total(ws);
        }
        assert(layout_widths(atts@) =~= ws);

        let mut data: Vec<T> = Vec::new();
        let mut v: usize = 0;
        while v < nv
            invariant
                found@.len() == sel.len(),
                forall|m: int| 0 <= m < sel.len() ==> #[trigger] sel[m] == *found@[m],
                streams_fit(sel, nv as nat),
                v <= nv,
                data@ == packed(sel, v as int),
            decreases nv - v,
        {
            let mut k: usize = 0;
            while k < found.len()
                invariant
                    found@.len() == sel.len(),
                    forall|m: int| 0 <= m < sel.len() ==> #[trigger] sel[m] == *found@[m],
                    streams_fit(sel, nv as nat),
                    v < nv,
                    k <= sel.len(),
                    data@ == packed(sel, v as int) + row_prefix(sel, v as int, k as int),
                decreases sel.len() - k,
            {
                let a: &AttributeData<T> = found[k];
                let w = a.no_components;
                assert(sel[k as int] == *a);
                assert(a.data@.len() == w * nv);
                assert((v + 1) * w <= nv * w) by (nonlinear_arith)
                    requires
                        v < nv,
                ;
                assert(v * w + w == (v + 1) * w) by (nonlinear_arith);
                let ghost before = data@;
                let n = a.data.len();
                assert(v * w + w <= n);
                let base = v * w;
                let mut j: usize = 0;
                while j < w
                    invariant
                        a.data@.len() == w * nv,
                        base == v * w,
                        base + w <= n,
                        n == a.data@.len(),
                        j <= w,
                        data@ == before + a.data@.subrange(base as int, base + j),
                    decreases w - j,
                {
                    data.push(a.data[base + j]);
                    j = j + 1;
                    assert(data@ =~= before + a.data@.subrange(base as int, base + j));
                }
                assert(data@ =~= packed(sel, v as int) + row_prefix(sel, v as int, k + 1));
                k = k + 1;
            }
            assert(data@ =~= packed(sel, v + 1));
            v = v + 1;
        }
        proof {
            lemma_packed_interleaves(sel, nv as nat);
        }

        self.stride = stride;
        self.attributes_infos = atts;
        let up = self.fill_with(data, cache);
        Ok(up)
    }
}

/// A buffer of vertex indices for indexed draws.
#[derive(Debug)]
pub struct ElementBuffer {
    id: u32,
}

impl ElementBuffer {
    /// The driver handle of this buffer.
    pub closed spec fn spec_id(&self) -> u32 {
        self.id
    }

    /// Wraps the handle `id` that the driver allocated. Fails with
    /// `AllocationError` exactly when `id` is no buffer. The caller binds it
    /// next.
    pub fn create(id: u32) -> (r: Result<ElementBuffer, Error>)
        ensures
            match r {
                Ok(b) => id != NO_BUFFER && b.spec_id() == id,
                Err(e) => id == NO_BUFFER && e is AllocationError,
            },
    {
        if id == NO_BUFFER {
            return Err(Error::AllocationError);
        }
        Ok(ElementBuffer { id })
    }

    /// The driver handle of this buffer.
    pub fn id(&self) -> (r: u32)
        ensures
            r == self.spec_id(),
    {
        self.id
    }

    /// Makes this buffer the bound index buffer; returns whether the driver
    /// has to be told.
    pub fn bind(&self, cache: &mut BindingCache) -> (issued: bool)
        ensures
            bind_step(*old(cache), *final(cache), self.spec_id(), Target::ElementArray, issued),
    {
        cache.bind(self.id, Target::ElementArray)
    }

    /// Binds this buffer and hands `data` over for upload as its whole
    /// content, unchanged: no index is checked against any vertex buffer.
    pub fn fill_with(&self, data: &[u32], cache: &mut BindingCache) -> (r: Upload<u32>)
        ensures
            r.target == Target::ElementArray,
            r.id == self.spec_id(),
            r.data@ == data@,
            bind_step(*old(cache), *final(cache), self.spec_id(), Target::ElementArray, r.bind_issued),
    {
        let bind_issued = self.bind(cache);
        let mut copy: Vec<u32> = Vec::new();
        let mut i: usize = 0;
        while i < data.len()
            invariant
                i <= data@.len(),
                copy@ == data@.subrange(0, i as int),
            decreases data@.len() - i,
        {
            copy.push(data[i]);
            i = i + 1;
            assert(copy@ =~= data@.subrange(0, i as int));
        }
        assert(copy@ =~= data@);
        Upload { target: Target::ElementArray, id: self.id, bind_issued, data: copy }
    }
}

} // verus!
