//! Embeddings without a model, for offline runs: the bytes of a text spread over the components.
use vstd::prelude::*;

verus! {

/// The number of components of an embedding.
pub const DIMENSIONS: usize = 384;

/// The number of positions up to `len` that fall to a component.
pub open spec fn share(len: int, component: int) -> int {
    if len <= component {
        0
    } else {
        (len - component - 1) / DIMENSIONS as int + 1
    }
}

/// The bytes that fall to a component: those at the positions that leave the component as
/// their remainder, in their order.
pub open spec fn component_bytes(bytes: Seq<u8>, component: int) -> Seq<u8> {
    Seq::new(
        share(bytes.len() as int, component) as nat,
        |k: int| bytes[k * DIMENSIONS as int + component],
    )
}

/// One more byte belongs to the component that its position leaves as a remainder, and to no
/// other.
proof fn lemma_share_step(len: int, component: int)
    requires
        0 <= len,
        0 <= component < DIMENSIONS,
    ensures
        share(len + 1, component) == if len % DIMENSIONS as int == component {
            share(len, component) + 1
        } else {
            share(len, component)
        },
        len % DIMENSIONS as int == component ==> share(len, component) * DIMENSIONS + component
            == len,
{
}

/// The bytes of a text, each at the component to which it falls. A component of the
/// embedding is the sum of its bytes, each as a fraction of the largest byte, and the whole
/// is brought to length one.
pub fn mock_components(text: &str) -> (r: Vec<Vec<u8>>)
    ensures
        r@.len() == DIMENSIONS,
        forall|c: int|
            0 <= c < DIMENSIONS ==> (#[trigger] r@[c])@ == component_bytes(
                vstd::utf8::encode_utf8(text@),
                c,
            ),
{
    let bytes = text.as_bytes();
    let ghost all = bytes@;
    let mut components: Vec<Vec<u8>> = Vec::new();
    let mut c: usize = 0;
    while c < DIMENSIONS
        invariant
            c <= DIMENSIONS,
            components@.len() == c,
            forall|k: int|
                0 <= k < c ==> (#[trigger] components@[k])@ == component_bytes(all.take(0), k),
        decreases DIMENSIONS - c,
    {
        let empty: Vec<u8> = Vec::new();
        assert(empty@ =~= component_bytes(all.take(0), c as int));
        components.push(empty);
        c += 1;
    }
    let mut i: usize = 0;
    while i < bytes.len()
        invariant
            i <= bytes@.len(),
            all == bytes@,
            components@.len() == DIMENSIONS,
            forall|k: int|
                0 <= k < DIMENSIONS ==> (#[trigger] components@[k])@ == component_bytes(
                    all.take(i as int),
                    k,
                ),
        decreases bytes@.len() - i,
    {
        let slot: usize = i % DIMENSIONS;
        let ghost before = components@;
        components[slot].push(bytes[i]);
        proof {
            assert forall|k: int| 0 <= k < DIMENSIONS implies (#[trigger] components@[k])@
                == component_bytes(all.take(i + 1), k) by {
                lemma_share_step(i as int, k);
                assert(before[k]@ == component_bytes(all.take(i as int), k));
                assert(components@[k]@ =~= component_bytes(all.take(i + 1), k));
            }
        }
        i += 1;
    }
    assert(all.take(i as int) =~= all);
    components
}

/// Every byte of a text falls to exactly one place: the quotient of its position, at the
/// component that is the remainder.
pub proof fn law_every_byte_has_its_place(bytes: Seq<u8>, i: int)
    requires
        0 <= i < bytes.len(),
    ensures
        ({
            let component = i % DIMENSIONS as int;
            let place = i / DIMENSIONS as int;
            &&& 0 <= place < component_bytes(bytes, component).len()
            &&& component_bytes(bytes, component)[place] == bytes[i]
        }),
{
}

/// A component holds nothing but its share of the bytes: what stands at a place of it is the
/// byte at the position with that quotient and that remainder.
pub proof fn law_every_place_has_its_byte(bytes: Seq<u8>, component: int, place: int)
    requires
        0 <= component < DIMENSIONS,
        0 <= place < component_bytes(bytes, component).len(),
    ensures
        DIMENSIONS == 384,
        place * 384 + component < bytes.len(),
        component_bytes(bytes, component)[place] == bytes[place * 384 + component],
{
}

}
