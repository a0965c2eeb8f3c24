//! The order in which the channel lines are timed.
//!
//! A walk through the lines in ascending order trains the stride prefetcher, which then
//! pulls lines in ahead of the timed loads. The lines are therefore visited in a fixed
//! scrambled order.

use vstd::prelude::*;
use vstd::seq_lib::seq_to_set_is_finite;
use vstd::set_lib::{lemma_int_range, lemma_subset_equality, set_int_range};
use crate::tuning::VALUES;

verus! {

/// The order that visits line 0 first, line 1 second, and so on.
pub open spec fn ascending() -> Seq<u8> {
    Seq::new(VALUES as nat, |slot: int| slot as u8)
}

/// A probe order names each of the 256 byte values once, and not in ascending order.
pub open spec fn is_probe_order(order: Seq<u8>) -> bool {
    &&& order.len() == VALUES
    &&& order.no_duplicates()
    &&& order != ascending()
}

/// The built-in probe order.
pub open spec fn probe_table() -> Seq<u8> {
    seq![
        133u8, 211, 224, 148, 141, 69, 183, 14, 76, 90, 37, 52, 94, 26, 46, 250,
        41, 220, 237, 143, 156, 111, 166, 201, 36, 81, 104, 89, 96, 255, 182, 22,
        64, 47, 87, 209, 225, 142, 151, 226, 219, 152, 126, 130, 106, 178, 186, 221,
        17, 158, 125, 150, 20, 79, 243, 160, 167, 101, 249, 71, 51, 247, 124, 213,
        222, 44, 5, 48, 193, 231, 212, 132, 55, 215, 176, 109, 240, 218, 206, 177,
        164, 63, 82, 173, 61, 252, 4, 103, 154, 175, 59, 197, 199, 99, 146, 1,
        241, 122, 74, 30, 159, 188, 242, 138, 93, 6, 129, 134, 181, 140, 123, 18,
        229, 187, 162, 163, 80, 202, 29, 203, 38, 73, 185, 60, 13, 194, 190, 184,
        62, 214, 161, 95, 196, 0, 21, 58, 53, 239, 227, 169, 149, 34, 45, 43,
        165, 248, 200, 195, 8, 136, 98, 253, 144, 192, 121, 11, 9, 170, 15, 35,
        57, 147, 23, 216, 65, 28, 157, 85, 107, 232, 174, 88, 16, 223, 67, 135,
        25, 112, 86, 97, 7, 155, 208, 145, 70, 168, 246, 230, 72, 10, 210, 31,
        27, 40, 2, 245, 233, 205, 12, 128, 75, 33, 102, 172, 153, 139, 198, 39,
        131, 100, 191, 118, 179, 254, 84, 3, 207, 77, 19, 92, 32, 113, 228, 91,
        78, 244, 171, 120, 114, 105, 235, 110, 251, 83, 180, 236, 49, 217, 204, 24,
        115, 117, 54, 127, 238, 119, 108, 66, 189, 234, 68, 116, 137, 42, 56, 50,
    ]
}

/// For each byte value, its place in the built-in probe order.
spec fn probe_places() -> Seq<int> {
    seq![
        133int, 95, 194, 215, 86, 66, 105, 180, 148, 156, 189, 155, 198, 124, 7, 158,
        172, 48, 111, 218, 52, 134, 31, 162, 239, 176, 13, 192, 165, 118, 99, 191,
        220, 201, 141, 159, 24, 10, 120, 207, 193, 16, 253, 143, 65, 142, 14, 33,
        67, 236, 255, 60, 11, 136, 242, 72, 254, 160, 135, 90, 123, 84, 128, 81,
        32, 164, 247, 174, 250, 5, 184, 59, 188, 121, 98, 200, 8, 217, 224, 53,
        116, 25, 82, 233, 214, 167, 178, 34, 171, 27, 9, 223, 219, 104, 12, 131,
        28, 179, 150, 93, 209, 57, 202, 87, 26, 229, 44, 168, 246, 75, 231, 21,
        177, 221, 228, 240, 251, 241, 211, 245, 227, 154, 97, 110, 62, 50, 42, 243,
        199, 106, 43, 208, 71, 0, 107, 175, 149, 252, 103, 205, 109, 4, 37, 19,
        152, 183, 94, 161, 3, 140, 51, 38, 41, 204, 88, 181, 20, 166, 49, 100,
        55, 130, 114, 115, 80, 144, 22, 56, 185, 139, 157, 226, 203, 83, 170, 89,
        74, 79, 45, 212, 234, 108, 30, 6, 127, 122, 46, 113, 101, 248, 126, 210,
        153, 68, 125, 147, 132, 91, 206, 92, 146, 23, 117, 119, 238, 197, 78, 216,
        182, 35, 190, 1, 70, 63, 129, 73, 163, 237, 77, 40, 17, 47, 64, 173,
        2, 36, 39, 138, 222, 112, 187, 69, 169, 196, 249, 230, 235, 18, 244, 137,
        76, 96, 102, 54, 225, 195, 186, 61, 145, 58, 15, 232, 85, 151, 213, 29,
    ]
}

proof fn lemma_probe_places()
    ensures
        probe_table().len() == VALUES,
        forall|slot: int|
            0 <= slot < VALUES ==> probe_places()[#[trigger] probe_table()[slot] as int] == slot,
{
}

/// The built-in table is a probe order.
pub proof fn lemma_probe_table_is_order()
    ensures
        is_probe_order(probe_table()),
{
    lemma_probe_places();
    let table = probe_table();
    assert forall|a: int, b: int| 0 <= a < table.len() && 0 <= b < table.len() && a != b implies table[a]
        != table[b] by {
        assert(probe_places()[table[a] as int] == a);
        assert(probe_places()[table[b] as int] == b);
    }
    assert(table[0] != ascending()[0]);
}

/// A scan in probe order visits every line exactly once: each byte value stands at one
/// place of the order and at no other.
pub proof fn lemma_order_visits_each_value_once(order: Seq<u8>, value: u8)
    requires
        is_probe_order(order),
    ensures
        exists|slot: int| 0 <= slot < VALUES && order[slot] == value,
        forall|a: int, b: int|
            0 <= a < VALUES && 0 <= b < VALUES && order[a] == value && order[b] == value ==> a == b,
{
    let ints = order.map_values(|v: u8| v as int);
    assert forall|a: int, b: int| 0 <= a < ints.len() && 0 <= b < ints.len() && a != b implies ints[a]
        != ints[b] by {
        assert(order[a] != order[b]);
    }
    ints.unique_seq_to_set();
    seq_to_set_is_finite(ints);
    lemma_int_range(0, VALUES as int);
    assert(ints.to_set().subset_of(set_int_range(0, VALUES as int))) by {
        assert forall|v: int| ints.to_set().contains(v) implies set_int_range(
            0,
            VALUES as int,
        ).contains(v) by {
            let slot = choose|slot: int| 0 <= slot < ints.len() && ints[slot] == v;
            assert(ints[slot] == order[slot] as int);
        }
    }
    lemma_subset_equality(ints.to_set(), set_int_range(0, VALUES as int));
    assert(set_int_range(0, VALUES as int).contains(value as int));
    assert(ints.to_set().contains(value as int));
    let slot = choose|slot: int| 0 <= slot < ints.len() && ints[slot] == value as int;
    assert(order[slot] == value);
}

/// The built-in probe order.
pub fn builtin_probe_order() -> (order: Vec<u8>)
    ensures
        order@ == probe_table(),
        is_probe_order(order@),
{
    let order: Vec<u8> = vec![
        133u8, 211, 224, 148, 141, 69, 183, 14, 76, 90, 37, 52, 94, 26, 46, 250,
        41, 220, 237, 143, 156, 111, 166, 201, 36, 81, 104, 89, 96, 255, 182, 22,
        64, 47, 87, 209, 225, 142, 151, 226, 219, 152, 126, 130, 106, 178, 186, 221,
        17, 158, 125, 150, 20, 79, 243, 160, 167, 101, 249, 71, 51, 247, 124, 213,
        222, 44, 5, 48, 193, 231, 212, 132, 55, 215, 176, 109, 240, 218, 206, 177,
        164, 63, 82, 173, 61, 252, 4, 103, 154, 175, 59, 197, 199, 99, 146, 1,
        241, 122, 74, 30, 159, 188, 242, 138, 93, 6, 129, 134, 181, 140, 123, 18,
        229, 187, 162, 163, 80, 202, 29, 203, 38, 73, 185, 60, 13, 194, 190, 184,
        62, 214, 161, 95, 196, 0, 21, 58, 53, 239, 227, 169, 149, 34, 45, 43,
        165, 248, 200, 195, 8, 136, 98, 253, 144, 192, 121, 11, 9, 170, 15, 35,
        57, 147, 23, 216, 65, 28, 157, 85, 107, 232, 174, 88, 16, 223, 67, 135,
        25, 112, 86, 97, 7, 155, 208, 145, 70, 168, 246, 230, 72, 10, 210, 31,
        27, 40, 2, 245, 233, 205, 12, 128, 75, 33, 102, 172, 153, 139, 198, 39,
        131, 100, 191, 118, 179, 254, 84, 3, 207, 77, 19, 92, 32, 113, 228, 91,
        78, 244, 171, 120, 114, 105, 235, 110, 251, 83, 180, 236, 49, 217, 204, 24,
        115, 117, 54, 127, 238, 119, 108, 66, 189, 234, 68, 116, 137, 42, 56, 50,
    ];
    proof {
        assert(order@ =~= probe_table());
        lemma_probe_table_is_order();
    }
    order
}

/// Whether `order` is a probe order.
pub fn probe_order_ok(order: &Vec<u8>) -> (ok: bool)
    ensures
        ok == is_probe_order(order@),
{
    if order.len() != VALUES {
        return false;
    }
    let mut seen: Vec<bool> = vec![false; VALUES];
    let mut in_place: bool = true;
    let mut slot: usize = 0;
    while slot < VALUES
        invariant
            slot <= VALUES,
            order@.len() == VALUES,
            seen@.len() == VALUES,
            forall|value: int|
                0 <= value < VALUES ==> (#[trigger] seen@[value] <==> exists|earlier: int|
                    0 <= earlier < slot && order@[earlier] == value),
            forall|a: int, b: int| 0 <= a < b < slot ==> order@[a] != order@[b],
            in_place <==> forall|earlier: int| 0 <= earlier < slot ==> order@[earlier] == earlier,
        decreases VALUES - slot,
    {
        let value: usize = order[slot] as usize;
        if seen[value] {
            proof {
                let earlier = choose|earlier: int| 0 <= earlier < slot && order@[earlier] == value;
                assert(order@[earlier] == order@[slot as int]);
            }
            return false;
        }
        let ghost before = seen@;
        seen[value] = true;
        if value != slot {
            in_place = false;
        }
        proof {
            assert forall|v: int| 0 <= v < VALUES implies (#[trigger] seen@[v] <==> exists|earlier: int|
                0 <= earlier < slot + 1 && order@[earlier] == v) by {
                if v == value {
                    assert(order@[slot as int] == v);
                } else {
                    assert(seen@[v] == before[v]);
                    if before[v] {
                        let earlier = choose|earlier: int| 0 <= earlier < slot && order@[earlier] == v;
                        assert(0 <= earlier < slot + 1 && order@[earlier] == v);
                    }
                }
            }
        }
        slot = slot + 1;
    }
    proof {
        if in_place {
            assert(order@ =~= ascending());
        } else {
            let moved = choose|earlier: int| 0 <= earlier < VALUES && order@[earlier] != earlier;
            assert(ascending()[moved] == moved);
        }
    }
    !in_place
}

} // verus!
