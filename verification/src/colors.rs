use vstd::prelude::*;
use crate::text::str_eq;
use vstd::string::StringSliceAdditionalSpecFns;

verus! {

/// 32-bit FNV-1a hash of a byte string.
pub open spec fn fnv1a(bytes: Seq<u8>) -> u32
    decreases bytes.len(),
{
    if bytes.len() == 0 {
        2166136261u32
    } else {
        let h = fnv1a(bytes.drop_last()) ^ (bytes.last() as u32);
        ((h as nat * 16777619nat) % 0x1_0000_0000nat) as u32
    }
}

/// Hue (degrees, `0..360`) used to color a deep-sky object: FNV-1a of its name's UTF-8
/// bytes, modulo 360.
pub fn dso_hue(name: &str) -> (r: u32)
    ensures
        r == fnv1a(name.spec_bytes()) % 360,
        r < 360,
{
    let bytes = name.as_bytes();
    let mut hash: u32 = 2166136261;
    let mut i: usize = 0;
    while i < bytes.len()
        invariant
            i <= bytes@.len(),
            bytes@ == name.spec_bytes(),
            hash == fnv1a(bytes@.take(i as int)),
        decreases bytes@.len() - i,
    {
        let b = bytes[i];
        assert(bytes@.take(i + 1).drop_last() =~= bytes@.take(i as int));
        assert(bytes@.take(i + 1).last() == b);
        hash = hash ^ (b as u32);
        hash = hash.wrapping_mul(16777619);
        i = i + 1;
    }
    assert(bytes@.take(bytes@.len() as int) =~= bytes@);
    hash % 360
}

/// Palette slot of a solar-system body (Mercury … Neptune, then the Moon).
pub open spec fn spec_object_color_index(name: Seq<char>) -> Option<usize> {
    if name == "Mercury"@ {
        Some(0)
    } else if name == "Venus"@ {
        Some(1)
    } else if name == "Mars"@ {
        Some(2)
    } else if name == "Jupiter"@ {
        Some(3)
    } else if name == "Saturn"@ {
        Some(4)
    } else if name == "Uranus"@ {
        Some(5)
    } else if name == "Neptune"@ {
        Some(6)
    } else if name == "Moon"@ {
        Some(7)
    } else {
        None
    }
}

/// Palette slot of a body name; `None` for any other object (colored by hash).
pub fn object_color_index(name: &str) -> (r: Option<usize>)
    ensures
        r == spec_object_color_index(name@),
{
    if str_eq(name, "Mercury") {
        Some(0)
    } else if str_eq(name, "Venus") {
        Some(1)
    } else if str_eq(name, "Mars") {
        Some(2)
    } else if str_eq(name, "Jupiter") {
        Some(3)
    } else if str_eq(name, "Saturn") {
        Some(4)
    } else if str_eq(name, "Uranus") {
        Some(5)
    } else if str_eq(name, "Neptune") {
        Some(6)
    } else if str_eq(name, "Moon") {
        Some(7)
    } else {
        None
    }
}

} // verus!
