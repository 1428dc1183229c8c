//! The modifier registry: a fixed table of named pure byte-string
//! transforms that a replacement template can apply to a captured group.

use vstd::prelude::*;

verus! {

/// A named pure text transform, bound into a replacement plan at
/// compile time so that no name lookup happens while matching.
#[derive(Clone, Copy, PartialEq, Eq, Structural, Debug)]
pub enum Modifier {
    /// ASCII uppercase, registered under the name `U`.
    Upper,
    /// ASCII lowercase, registered under the name `L`.
    Lower,
}

/// ASCII-uppercase one byte; bytes outside `a..=z` are unchanged.
pub open spec fn upper_byte(b: u8) -> u8 {
    if 97 <= b <= 122 {
        (b - 32) as u8
    } else {
        b
    }
}

/// ASCII-lowercase one byte; bytes outside `A..=Z` are unchanged.
pub open spec fn lower_byte(b: u8) -> u8 {
    if 65 <= b <= 90 {
        (b + 32) as u8
    } else {
        b
    }
}

/// What applying a modifier to a byte string means.
pub open spec fn apply_modifier_spec(m: Modifier, s: Seq<u8>) -> Seq<u8> {
    match m {
        Modifier::Upper => s.map_values(|b: u8| upper_byte(b)),
        Modifier::Lower => s.map_values(|b: u8| lower_byte(b)),
    }
}

/// The registry as a mapping from names to transforms: `U` and `L`
/// are registered, every other name is unknown.
pub open spec fn modifier_spec(name: Seq<u8>) -> Option<Modifier> {
    if name == seq![85u8] {
        Some(Modifier::Upper)
    } else if name == seq![76u8] {
        Some(Modifier::Lower)
    } else {
        None
    }
}

/// ASCII-uppercase a byte string.
pub fn to_upper(s: &[u8]) -> (r: Vec<u8>)
    ensures
        r@ == apply_modifier_spec(Modifier::Upper, s@),
{
    let mut r: Vec<u8> = Vec::new();
    let mut i: usize = 0;
    while i < s.len()
        invariant
            i <= s@.len(),
            r@.len() == i,
            forall|j: int| 0 <= j < i ==> r@[j] == upper_byte(s@[j]),
        decreases s@.len() - i,
    {
        let b = *vstd::slice::slice_index_get(s, i);
        if 97 <= b && b <= 122 {
            r.push(b - 32);
        } else {
            r.push(b);
        }
        i = i + 1;
    }
    proof {
        assert(r@ =~= s@.map_values(|b: u8| upper_byte(b)));
    }
    r
}

/// ASCII-lowercase a byte string.
pub fn to_lower(s: &[u8]) -> (r: Vec<u8>)
    ensures
        r@ == apply_modifier_spec(Modifier::Lower, s@),
{
    let mut r: Vec<u8> = Vec::new();
    let mut i: usize = 0;
    while i < s.len()
        invariant
            i <= s@.len(),
            r@.len() == i,
            forall|j: int| 0 <= j < i ==> r@[j] == lower_byte(s@[j]),
        decreases s@.len() - i,
    {
        let b = *vstd::slice::slice_index_get(s, i);
        if 65 <= b && b <= 90 {
            r.push(b + 32);
        } else {
            r.push(b);
        }
        i = i + 1;
    }
    proof {
        assert(r@ =~= s@.map_values(|b: u8| lower_byte(b)));
    }
    r
}

/// Look a modifier up by name.
pub fn get_modifier(requested: &[u8]) -> (r: Option<Modifier>)
    ensures
        r == modifier_spec(requested@),
{
    if requested.len() == 1 {
        let b = *vstd::slice::slice_index_get(requested, 0);
        if b == 85 {
            proof {
                assert(requested@ =~= seq![85u8]);
            }
            Some(Modifier::Upper)
        } else if b == 76 {
            proof {
                assert(requested@ =~= seq![76u8]);
            }
            Some(Modifier::Lower)
        } else {
            proof {
                assert(requested@ != seq![85u8]);
                assert(requested@ != seq![76u8]);
            }
            None
        }
    } else {
        proof {
            assert(requested@ != seq![85u8]);
            assert(requested@ != seq![76u8]);
        }
        None
    }
}

/// Apply a modifier to a byte string.
pub fn apply_modifier(m: Modifier, s: &[u8]) -> (r: Vec<u8>)
    ensures
        r@ == apply_modifier_spec(m, s@),
{
    match m {
        Modifier::Upper => to_upper(s),
        Modifier::Lower => to_lower(s),
    }
}

} // verus!
