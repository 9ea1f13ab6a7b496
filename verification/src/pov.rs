//! Worst-case proof size of reading a storage item out of a trie with a
//! fan-out of sixteen.

use vstd::prelude::*;

verus! {

/// Number of trie layers needed to address `i` values: the least `d` with
/// `i <= 16^d`, and 8 for every `i` above `16^7`.
pub open spec fn log_16(i: int) -> int {
    if i <= 0 {
        0
    } else if i <= 16 {
        1
    } else if i <= 256 {
        2
    } else if i <= 4_096 {
        3
    } else if i <= 65_536 {
        4
    } else if i <= 1_048_576 {
        5
    } else if i <= 16_777_216 {
        6
    } else if i <= 268_435_456 {
        7
    } else {
        8
    }
}

/// Proof size of the first read of a key out of a map with at most
/// `max_values` entries, or with `worst_case_map_values` entries where the
/// map is unbounded: 15 hashes of 33 bytes for each layer of the trie.
pub open spec fn read_overhead(max_values: Option<u32>, worst_case_map_values: u32) -> int {
    let values = match max_values {
        Some(n) => n,
        None => worst_case_map_values,
    };
    log_16(values as int) * 15 * 33
}

/// Number of trie layers needed to address `i` values.
pub fn easy_log_16(i: u32) -> (r: u32)
    ensures
        r == log_16(i as int),
{
    if i == 0 {
        0
    } else if i <= 16 {
        1
    } else if i <= 256 {
        2
    } else if i <= 4_096 {
        3
    } else if i <= 65_536 {
        4
    } else if i <= 1_048_576 {
        5
    } else if i <= 16_777_216 {
        6
    } else if i <= 268_435_456 {
        7
    } else {
        8
    }
}

/// Proof size of the first read of a key out of a map with at most
/// `max_values` entries.
pub fn single_read_pov_overhead(max_values: Option<u32>, worst_case_map_values: u32) -> (r: u32)
    ensures
        r == read_overhead(max_values, worst_case_map_values),
        r <= 3960,
{
    let values = match max_values {
        Some(n) => n,
        None => worst_case_map_values,
    };
    let depth: u32 = easy_log_16(values);
    depth * 15 * 33
}

/// Worst-case proof size of a storage item whose values are at most
/// `max_size` bytes long: the size of a value, and for the first read
/// under a prefix the overhead of the trie. `None` for an item whose
/// values are unbounded.
pub fn worst_case_pov(
    max_values: Option<u32>,
    max_size: Option<u32>,
    is_new_prefix: bool,
    worst_case_map_values: u32,
) -> (r: Option<u32>)
    requires
        max_size.is_some() ==> max_size.unwrap() + (if is_new_prefix {
            read_overhead(max_values, worst_case_map_values)
        } else {
            0
        }) <= u32::MAX,
    ensures
        r == (match max_size {
            Some(size) => Some(
                (size + (if is_new_prefix {
                    read_overhead(max_values, worst_case_map_values)
                } else {
                    0
                })) as u32,
            ),
            None => None,
        }),
{
    match max_size {
        Some(size) => {
            let trie_size: u32 = if is_new_prefix {
                single_read_pov_overhead(max_values, worst_case_map_values)
            } else {
                0
            };
            Some(trie_size + size)
        },
        None => None,
    }
}

/// The error of the component `index`: the recorded one, and 0 where none
/// is recorded for it.
pub fn extract_errors(errors: &Option<Vec<u128>>, index: usize) -> (r: u128)
    ensures
        r == (match *errors {
            Some(e) => if index < e@.len() {
                e@[index as int]
            } else {
                0
            },
            None => 0,
        }),
{
    match errors {
        Some(e) => {
            if index < e.len() {
                e[index]
            } else {
                0
            }
        },
        None => 0,
    }
}

} // verus!
