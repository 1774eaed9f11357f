//! Interpreting a signal bitmap as an ordered list of signal names.
//!
//! Bit `N - 1` of the 64-bit bitmap set means that signal `N` is present
//! in the set; indices 1 through 63 are examined in ascending order.
use vstd::prelude::*;

use crate::signals::sigabbrev_np;
use crate::signals::spec_sig_name;
use crate::signals::lemma_sig_name_injective;

verus! {

/// Total number of signals; a bitmap is interpreted for the 1-based
/// indices strictly below this bound.
pub const NR_SIGS: u8 = 64;

/// Whether the bitmap holds the signal with 1-based index `idx`.
pub open spec fn spec_sig_present(m: u64, idx: int) -> bool {
    m & (1u64 << ((idx - 1) as u64)) != 0
}

/// The names of the present signals with index in `[1, upto)`, in
/// ascending index order.
pub open spec fn spec_sig_list(m: u64, upto: int) -> Seq<Seq<char>>
    decreases upto,
{
    if upto <= 1 {
        Seq::<Seq<char>>::empty()
    } else if spec_sig_present(m, upto - 1) {
        spec_sig_list(m, upto - 1).push(spec_sig_name((upto - 1) as u8))
    } else {
        spec_sig_list(m, upto - 1)
    }
}

/// The number of set bits of the bitmap at positions in `[0, below)`.
pub open spec fn spec_popcount(m: u64, below: int) -> nat
    decreases below,
{
    if below <= 0 {
        0
    } else {
        spec_popcount(m, below - 1) + (if m & (1u64 << ((below - 1) as u64)) != 0 {
            1nat
        } else {
            0nat
        })
    }
}

/// Returns the ordered list of names of the signals present in the
/// specified bitmap.
pub fn interpret(map: &u64) -> (r: Vec<String>)
    ensures
        r.deep_view() == spec_sig_list(*map, NR_SIGS as int),
{
    let mut sig_idx: u8 = 0x1;
    let mut sig_vec: Vec<String> = Vec::new();

    proof {
        assert(sig_vec.deep_view() =~= spec_sig_list(*map, 1));
    }
    while sig_idx < NR_SIGS
        invariant
            1 <= sig_idx <= NR_SIGS,
            sig_vec.deep_view() == spec_sig_list(*map, sig_idx as int),
        decreases NR_SIGS - sig_idx,
    {
        let ghost prev: Seq<Seq<char>> = sig_vec.deep_view();
        if (*map & (0x1_u64 << ((sig_idx - 1) as u64))) != 0 {
            let name: String = sigabbrev_np(&sig_idx);
            sig_vec.push(name);
            proof {
                assert(sig_vec.deep_view() =~= prev.push(spec_sig_name(sig_idx)));
            }
        }
        sig_idx += 1;
        proof {
            assert(sig_vec.deep_view() =~= spec_sig_list(*map, sig_idx as int));
        }
    }
    sig_vec
}

proof fn lemma_sig_list_len(m: u64, upto: int)
    requires
        upto >= 1,
    ensures
        spec_sig_list(m, upto).len() == spec_popcount(m, upto - 1),
    decreases upto,
{
    if upto > 1 {
        lemma_sig_list_len(m, upto - 1);
    }
}

/// The 1-based index of the signal named at position `j` of the name
/// list for signals below `upto` (0 where `j` is out of range).
pub open spec fn spec_sig_index(m: u64, upto: int, j: int) -> u8
    decreases upto,
{
    if upto <= 1 {
        0
    } else if spec_sig_present(m, upto - 1) && j == spec_sig_list(m, upto).len() - 1 {
        (upto - 1) as u8
    } else {
        spec_sig_index(m, upto - 1, j)
    }
}

proof fn lemma_sig_list_index(m: u64, upto: int, j: int)
    requires
        1 <= upto <= NR_SIGS as int,
        0 <= j < spec_sig_list(m, upto).len(),
    ensures
        1 <= spec_sig_index(m, upto, j) < upto,
        spec_sig_present(m, spec_sig_index(m, upto, j) as int),
        spec_sig_list(m, upto)[j] == spec_sig_name(spec_sig_index(m, upto, j)),
    decreases upto,
{
    if upto > 1 {
        if !(spec_sig_present(m, upto - 1) && j == spec_sig_list(m, upto).len() - 1) {
            lemma_sig_list_index(m, upto - 1, j);
        }
    }
}

proof fn lemma_sig_index_mono(m: u64, upto: int, j1: int, j2: int)
    requires
        1 <= upto <= NR_SIGS as int,
        0 <= j1 < j2 < spec_sig_list(m, upto).len(),
    ensures
        spec_sig_index(m, upto, j1) < spec_sig_index(m, upto, j2),
    decreases upto,
{
    if spec_sig_present(m, upto - 1) && j2 == spec_sig_list(m, upto).len() - 1 {
        lemma_sig_list_index(m, upto - 1, j1);
    } else {
        lemma_sig_index_mono(m, upto - 1, j1, j2);
    }
}

/// The interpreter's output follows strictly increasing signal index:
/// position `j` of the list names the present signal with index
/// `spec_sig_index(m, upto, j)`, and those indices grow with `j`.
pub proof fn lemma_interpret_ordered(m: u64, j1: int, j2: int)
    requires
        0 <= j1 < j2 < spec_sig_list(m, NR_SIGS as int).len(),
    ensures
        1 <= spec_sig_index(m, NR_SIGS as int, j1) < spec_sig_index(m, NR_SIGS as int, j2)
            < NR_SIGS,
        spec_sig_present(m, spec_sig_index(m, NR_SIGS as int, j1) as int),
        spec_sig_present(m, spec_sig_index(m, NR_SIGS as int, j2) as int),
        spec_sig_list(m, NR_SIGS as int)[j1] == spec_sig_name(
            spec_sig_index(m, NR_SIGS as int, j1),
        ),
        spec_sig_list(m, NR_SIGS as int)[j2] == spec_sig_name(
            spec_sig_index(m, NR_SIGS as int, j2),
        ),
{
    lemma_sig_list_index(m, NR_SIGS as int, j1);
    lemma_sig_list_index(m, NR_SIGS as int, j2);
    lemma_sig_index_mono(m, NR_SIGS as int, j1, j2);
}

/// The interpreter never emits duplicate names: two positions of the
/// name list always hold different strings.
pub proof fn lemma_interpret_no_duplicates(m: u64, j1: int, j2: int)
    requires
        0 <= j1 < j2 < spec_sig_list(m, NR_SIGS as int).len(),
    ensures
        spec_sig_list(m, NR_SIGS as int)[j1] != spec_sig_list(m, NR_SIGS as int)[j2],
{
    lemma_interpret_ordered(m, j1, j2);
    lemma_sig_name_injective(
        spec_sig_index(m, NR_SIGS as int, j1),
        spec_sig_index(m, NR_SIGS as int, j2),
    );
}

proof fn lemma_zero_bit(k: u64)
    by (bit_vector)
    requires
        k < 64,
    ensures
        0u64 & (1u64 << k) == 0,
{
}

/// A zero bitmap holds no signals: the interpreter yields no names.
pub proof fn lemma_zero_bitmap_no_signals(upto: int)
    requires
        upto <= NR_SIGS as int,
    ensures
        spec_sig_list(0, upto) == Seq::<Seq<char>>::empty(),
    decreases upto,
{
    if upto > 1 {
        lemma_zero_bit((upto - 2) as u64);
        assert(!spec_sig_present(0, upto - 1));
        lemma_zero_bitmap_no_signals(upto - 1);
    }
}

/// Round trip with the bitmap: the interpreter yields exactly as many
/// names as the bitmap has set bits among positions 0 through 62.
pub proof fn lemma_interpret_count(m: u64)
    ensures
        spec_sig_list(m, NR_SIGS as int).len() == spec_popcount(m, NR_SIGS - 1),
{
    lemma_sig_list_len(m, NR_SIGS as int);
}

} // verus!
