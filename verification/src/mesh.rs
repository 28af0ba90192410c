//! The layout of vertices in a buffer of floating-point numbers: where
//! each attribute of a vertex starts, and how far one vertex lies from the
//! next.

use vstd::prelude::*;

verus! {

/// The size of one number of a vertex buffer, in bytes.
pub const FLOAT_BYTES: usize = 4;

/// The largest number of components of a vertex.
pub const MAX_COMPONENTS: usize = 0x1000_0000;

/// One attribute of a vertex.
#[derive(Clone, Copy, Debug, PartialEq, Eq, Structural)]
pub struct Attribute {
    /// The place of the attribute in the vertex program.
    pub index: u32,
    /// How many numbers make up the attribute.
    pub components: u32,
    /// Where the attribute starts in a vertex, in bytes.
    pub offset: usize,
}

/// The layout of a vertex whose attributes follow one another.
#[derive(Debug)]
pub struct VertexLayout {
    /// How far one vertex lies from the next, in bytes.
    pub stride: usize,
    pub attributes: Vec<Attribute>,
}

/// The sum of the first `n` of some numbers of components.
pub open spec fn components_before(c: Seq<u32>, n: int) -> int
    decreases n,
{
    if n <= 0 {
        0
    } else {
        components_before(c, n - 1) + c[n - 1]
    }
}

/// The sum grows with the number of terms.
pub proof fn lemma_components_before(c: Seq<u32>, i: int, j: int)
    requires
        0 <= i <= j,
    ensures
        0 <= components_before(c, i) <= components_before(c, j),
    decreases j,
{
    if i < j {
        lemma_components_before(c, i, j - 1);
    } else if i > 0 {
        lemma_components_before(c, i - 1, i - 1);
        lemma_components_before(c, i - 1, j - 1);
    }
}

/// Lays out a vertex whose attributes have the given numbers of
/// components and follow one another without gaps; none where a vertex
/// would have more than `MAX_COMPONENTS` components.
pub fn interleaved_layout(components: &Vec<u32>) -> (r: Option<VertexLayout>)
    ensures
        r is Some <==> components_before(components@, components.len() as int) <= MAX_COMPONENTS
            && components.len() <= u32::MAX,
        r is Some ==> {
            let l = r->0;
            &&& l.stride == FLOAT_BYTES * components_before(components@, components.len() as int)
            &&& l.attributes.len() == components.len()
            &&& forall|i: int|
                0 <= i < components.len() ==> (#[trigger] l.attributes[i]).index == i
                    && l.attributes[i].components == components[i] && l.attributes[i].offset
                    == FLOAT_BYTES * components_before(components@, i)
        },
{
    if components.len() > u32::MAX as usize {
        return None;
    }
    let mut attributes: Vec<Attribute> = Vec::new();
    let mut total: usize = 0;
    let mut i: usize = 0;
    while i < components.len()
        invariant
            i <= components.len(),
            components.len() <= u32::MAX,
            total == components_before(components@, i as int),
            total <= MAX_COMPONENTS,
            attributes.len() == i,
            forall|j: int|
                0 <= j < i ==> (#[trigger] attributes[j]).index == j && attributes[j].components
                    == components[j] && attributes[j].offset == FLOAT_BYTES * components_before(
                    components@,
                    j,
                ),
        decreases components.len() - i,
    {
        let c = components[i];
        attributes.push(Attribute { index: i as u32, components: c, offset: FLOAT_BYTES * total });
        if c as usize > MAX_COMPONENTS - total {
            proof {
                lemma_components_before(components@, i + 1, components.len() as int);
            }
            return None;
        }
        total = total + c as usize;
        i = i + 1;
    }
    Some(VertexLayout { stride: FLOAT_BYTES * total, attributes })
}

/// The size in bytes of a buffer of `floats` numbers; none where it does
/// not fit.
pub fn buffer_bytes(floats: usize) -> (r: Option<usize>)
    ensures
        r is Some <==> floats * FLOAT_BYTES <= usize::MAX,
        r is Some ==> r->0 == floats * FLOAT_BYTES,
{
    floats.checked_mul(FLOAT_BYTES)
}

/// The number of whole vertices in a buffer of `floats` numbers.
pub fn vertex_count(floats: usize, layout: &VertexLayout) -> (r: usize)
    requires
        layout.stride > 0,
        layout.stride % FLOAT_BYTES == 0,
    ensures
        r == floats / (layout.stride / FLOAT_BYTES),
{
    floats / (layout.stride / FLOAT_BYTES)
}

} // verus!
