//! Building the key snapshot the machine reads.
use vstd::prelude::*;

verus! {

/// The snapshot in which exactly the keys listed in `pressed` are down: entry
/// `k` is 1 when `k` occurs in `pressed`, else 0. Values above 0xF name no key.
pub fn get_chip8_keys(pressed: &[u8]) -> (r: [u8; 16])
    ensures
        forall|k: int|
            0 <= k < 16 ==> (#[trigger] r@[k] == 1 <==> exists|j: int|
                0 <= j < pressed@.len() && pressed@[j] == k) && r@[k] <= 1,
{
    let mut result: [u8; 16] = [0u8; 16];
    let mut j: usize = 0;
    while j < pressed.len()
        invariant
            j <= pressed@.len(),
            forall|k: int|
                0 <= k < 16 ==> (#[trigger] result@[k] == 1 <==> exists|i: int|
                    0 <= i < j && pressed@[i] == k) && result@[k] <= 1,
        decreases pressed@.len() - j,
    {
        let key: u8 = pressed[j];
        if key < 16 {
            result[key as usize] = 1;
        }
        assert forall|k: int| 0 <= k < 16 implies (#[trigger] result@[k] == 1 <==> exists|i: int|
            0 <= i < j + 1 && pressed@[i] == k) by {
            if result@[k] == 1 && k != key {
                let w = choose|i: int| 0 <= i < j && pressed@[i] == k;
                assert(0 <= w < j + 1 && pressed@[w] == k);
            }
            if k == key {
                assert(0 <= j < j + 1 && pressed@[j as int] == k);
            }
            if exists|i: int| 0 <= i < j + 1 && pressed@[i] == k {
                let w = choose|i: int| 0 <= i < j + 1 && pressed@[i] == k;
                if w < j {
                    assert(exists|i: int| 0 <= i < j && pressed@[i] == k);
                }
            }
        }
        j = j + 1;
    }
    result
}

} // verus!
