//! The interleaved (array-of-structs) layout: widths, offsets and strides of
//! the attributes of one vertex record, and what packing attribute streams into
//! one stride-addressed sequence means.
use vstd::prelude::*;
use crate::mesh::AttributeData;
use vstd::arithmetic::div_mod::{lemma_div_pos_is_pos, lemma_fundamental_div_mod};

verus! {

/// The sum of `ws`.
pub open spec fn total_width(ws: Seq<usize>) -> nat
    decreases ws.len(),
{
    if ws.len() == 0 {
        0
    } else {
        total_width(ws.drop_last()) + ws.last() as nat
    }
}

/// Where the `k`-th attribute starts inside a vertex record: the sum of the
/// widths before it.
pub open spec fn offset_of(ws: Seq<usize>, k: int) -> nat {
    total_width(ws.take(k))
}

/// The component counts of attribute streams, in order.
pub open spec fn widths_of<T>(sel: Seq<AttributeData<T>>) -> Seq<usize> {
    sel.map_values(|a: AttributeData<T>| a.no_components)
}

/// Each stream has a positive width and holds `width * nv` values.
pub open spec fn streams_fit<T>(sel: Seq<AttributeData<T>>, nv: nat) -> bool {
    forall|k: int|
        0 <= k < sel.len() ==> {
            &&& #[trigger] sel[k].no_components > 0
            &&& sel[k].data@.len() == sel[k].no_components * nv
        }
}

/// Where component `j` of attribute `k` of vertex `v` lands in the packed data.
pub open spec fn slot_index(ws: Seq<usize>, v: int, k: int, j: int) -> int {
    v * total_width(ws) + offset_of(ws, k) + j
}

/// `d` is the interleaving of `sel` over `nv` vertices: its length is
/// `stride * nv`, and component `j` of attribute `k` of vertex `v` sits at
/// `v * stride + offset_k + j`.
pub open spec fn is_interleaving<T>(d: Seq<T>, sel: Seq<AttributeData<T>>, nv: nat) -> bool {
    let ws = widths_of(sel);
    &&& d.len() == total_width(ws) * nv
    &&& forall|v: int, k: int, j: int|
        0 <= v < nv && 0 <= k < sel.len() && 0 <= j < sel[k].no_components
            ==> #[trigger] d[slot_index(ws, v, k, j)] == sel[k].data@[v * sel[k].no_components + j]
}

/// Reads attribute `k` back out of packed data laid out by the widths `ws`:
/// the inverse of interleaving, for one stream.
pub open spec fn deinterleave<T>(d: Seq<T>, ws: Seq<usize>, k: int, nv: nat) -> Seq<T> {
    let w = ws[k] as int;
    Seq::new(nv * (ws[k] as nat), |i: int| d[slot_index(ws, i / w, k, i % w)])
}

/// Attributes `0..k` of vertex `v`, one after another.
pub open spec fn row_prefix<T>(sel: Seq<AttributeData<T>>, v: int, k: int) -> Seq<T>
    decreases k,
{
    if k <= 0 {
        Seq::empty()
    } else {
        let w = sel[k - 1].no_components as int;
        row_prefix(sel, v, k - 1) + sel[k - 1].data@.subrange(v * w, v * w + w)
    }
}

/// The records of vertices `0..v`, one after another.
pub open spec fn packed<T>(sel: Seq<AttributeData<T>>, v: int) -> Seq<T>
    decreases v,
{
    if v <= 0 {
        Seq::empty()
    } else {
        packed(sel, v - 1) + row_prefix(sel, v - 1, sel.len() as int)
    }
}

/// The next offset is this one plus this attribute's width.
pub proof fn lemma_offset_step(ws: Seq<usize>, k: int)
    requires
        0 <= k < ws.len(),
    ensures
        offset_of(ws, k + 1) == offset_of(ws, k) + ws[k],
{
    assert(ws.take(k + 1).drop_last() =~= ws.take(k));
}

/// Offsets never decrease along the layout.
pub proof fn lemma_offset_monotone(ws: Seq<usize>, k: int, m: int)
    requires
        0 <= k <= m <= ws.len(),
    ensures
        offset_of(ws, k) <= offset_of(ws, m),
    decreases m - k,
{
    if k < m {
        lemma_offset_step(ws, m - 1);
        lemma_offset_monotone(ws, k, m - 1);
    }
}

/// The offset past the last attribute is the stride.
pub proof fn lemma_offset_total(ws: Seq<usize>)
    ensures
        offset_of(ws, ws.len() as int) == total_width(ws),
{
    assert(ws.take(ws.len() as int) =~= ws);
}

/// Attribute `k` occupies `offset_k .. offset_k + width_k`, inside the record.
pub proof fn lemma_field_in_record(ws: Seq<usize>, k: int)
    requires
        0 <= k < ws.len(),
    ensures
        offset_of(ws, k) + ws[k] <= total_width(ws),
{
    lemma_offset_step(ws, k);
    lemma_offset_monotone(ws, k + 1, ws.len() as int);
    lemma_offset_total(ws);
}

proof fn lemma_row_prefix<T>(sel: Seq<AttributeData<T>>, nv: nat, v: int, n: int)
    requires
        streams_fit(sel, nv),
        0 <= v < nv,
        0 <= n <= sel.len(),
    ensures
        row_prefix(sel, v, n).len() == offset_of(widths_of(sel), n),
        forall|k: int, j: int|
            0 <= k < n && 0 <= j < sel[k].no_components ==> #[trigger] row_prefix(sel, v, n)[offset_of(widths_of(sel), k) + j]
                == sel[k].data@[v * sel[k].no_components + j],
    decreases n,
{
    let ws = widths_of(sel);
    if n == 0 {
        assert(ws.take(0) =~= Seq::<usize>::empty());
    } else {
        lemma_row_prefix(sel, nv, v, n - 1);
        let w = sel[n - 1].no_components as int;
        assert(sel[n - 1].no_components > 0);
        assert(v * w + w <= nv * w) by (nonlinear_arith)
            requires
                v < nv,
                w > 0,
        ;
        assert(ws[n - 1] == w);
        lemma_offset_step(ws, n - 1);
        assert forall|k: int, j: int|
            0 <= k < n && 0 <= j < sel[k].no_components implies #[trigger] row_prefix(sel, v, n)[offset_of(ws, k) + j]
                == sel[k].data@[v * sel[k].no_components + j] by {
            if k < n - 1 {
                lemma_offset_step(ws, k);
                lemma_offset_monotone(ws, k + 1, n - 1);
                assert(ws[k] == sel[k].no_components);
            }
        }
    }
}

proof fn lemma_packed<T>(sel: Seq<AttributeData<T>>, nv: nat, n: int)
    requires
        streams_fit(sel, nv),
        0 <= n <= nv,
    ensures
        packed(sel, n).len() == n * total_width(widths_of(sel)),
        forall|v: int, p: int|
            0 <= v < n && 0 <= p < total_width(widths_of(sel)) ==> #[trigger] packed(sel, n)[v * total_width(widths_of(sel)) + p]
                == row_prefix(sel, v, sel.len() as int)[p],
    decreases n,
{
    let s = total_width(widths_of(sel)) as int;
    if n > 0 {
        lemma_packed(sel, nv, n - 1);
        lemma_row_prefix(sel, nv, n - 1, sel.len() as int);
        lemma_offset_total(widths_of(sel));
        assert((n - 1) * s + s == n * s) by (nonlinear_arith);
        assert forall|v: int, p: int|
            0 <= v < n && 0 <= p < s implies #[trigger] packed(sel, n)[v * s + p] == row_prefix(sel, v, sel.len() as int)[p] by {
            if v < n - 1 {
                assert(v * s + s <= (n - 1) * s) by (nonlinear_arith)
                    requires
                        v + 1 <= n - 1,
                        s >= 0,
                ;
                assert(0 <= v * s) by (nonlinear_arith)
                    requires
                        v >= 0,
                        s >= 0,
                ;
            }
        }
    }
}

/// The packed records of all `nv` vertices are the interleaving of `sel`.
pub proof fn lemma_packed_interleaves<T>(sel: Seq<AttributeData<T>>, nv: nat)
    requires
        streams_fit(sel, nv),
    ensures
        is_interleaving(packed(sel, nv as int), sel, nv),
{
    let ws = widths_of(sel);
    let s = total_width(ws) as int;
    lemma_packed(sel, nv, nv as int);
    assert(nv * s == s * nv) by (nonlinear_arith);
    assert forall|v: int, k: int, j: int|
        0 <= v < nv && 0 <= k < sel.len() && 0 <= j < sel[k].no_components implies #[trigger] packed(sel, nv as int)[slot_index(ws, v, k, j)]
            == sel[k].data@[v * sel[k].no_components + j] by {
        lemma_row_prefix(sel, nv, v, sel.len() as int);
        lemma_field_in_record(ws, k);
        assert(ws[k] == sel[k].no_components);
        let p = offset_of(ws, k) + j;
        assert(packed(sel, nv as int)[v * s + p] == row_prefix(sel, v, sel.len() as int)[p]);
    }
}

/// Interleaving loses nothing: reading attribute `k` back out of an
/// interleaving of `sel`, with the same widths, gives that attribute's stream
/// exactly.
pub proof fn lemma_deinterleave_round_trip<T>(d: Seq<T>, sel: Seq<AttributeData<T>>, nv: nat, k: int)
    requires
        streams_fit(sel, nv),
        is_interleaving(d, sel, nv),
        0 <= k < sel.len(),
    ensures
        deinterleave(d, widths_of(sel), k, nv) == sel[k].data@,
{
    let ws = widths_of(sel);
    let w = ws[k] as int;
    assert(w == sel[k].no_components && w > 0);
    assert forall|i: int| 0 <= i < nv * w implies #[trigger] deinterleave(d, ws, k, nv)[i] == sel[k].data@[i] by {
        lemma_fundamental_div_mod(i, w);
        lemma_div_pos_is_pos(i, w);
        let q = i / w;
        let r = i % w;
        assert(0 <= r < w);
        assert(q < nv) by (nonlinear_arith)
            requires
                w * q + r < nv * w,
                r >= 0,
                w > 0,
        ;
        assert(q * w + r == i) by (nonlinear_arith)
            requires
                i == w * q + r,
        ;
    }
    assert(deinterleave(d, ws, k, nv) =~= sel[k].data@);
}

} // verus!
