//! Deterministic coloring: a stable hash of the query-contig name picks
//! one of 97 fixed palette entries, so the same contig renders the same
//! color in every pass and every run.

use vstd::prelude::*;
use vstd::std_specs::hash::DefaultHasherAdditionalSpecFns;
use std::collections::hash_map::DefaultHasher;
use std::hash::Hasher;
use vstd::string::StringSliceAdditionalSpecFns;

verus! {

/// The number of entries in the fixed color palette.
pub const PALETTE_SIZE: u64 = 97;

/// The stable hash of a name: the name's UTF-8 bytes fed to the standard
/// hasher, followed by the one-byte terminator the standard library's
/// string hashing appends.
pub open spec fn hash_spec(s: Seq<char>) -> u64 {
    DefaultHasher::spec_finish(seq![vstd::utf8::encode_utf8(s), seq![0xffu8]])
}

/// Hashes a name with the standard hasher, exactly as hashing the owned
/// string through the `Hash` trait would.
pub fn calculate_hash(name: &str) -> (r: u64)
    ensures
        r == hash_spec(name@),
{
    let mut h = DefaultHasher::new();
    h.write(name.as_bytes());
    let terminator: [u8; 1] = [0xffu8];
    h.write(terminator.as_slice());
    assert(h@ =~~= seq![name.spec_bytes(), seq![0xffu8]]);
    h.finish()
}

/// The palette slot for a name: its stable hash, reduced modulo the
/// palette size. A pure function of the name alone.
pub open spec fn color_index_spec(s: Seq<char>) -> u64 {
    hash_spec(s) % PALETTE_SIZE
}

/// Picks the palette slot for a query-contig name.
pub fn color_index(name: &str) -> (r: u64)
    ensures
        r == color_index_spec(name@),
        r < PALETTE_SIZE,
{
    calculate_hash(name) % PALETTE_SIZE
}

/// The fixed palette, as the hex color text of each slot.
pub open spec fn palette_spec(i: int) -> Seq<char> {
    if i == 0 {
        "#870098"@
    } else if i == 1 {
        "#00aaa5"@
    } else if i == 2 {
        "#3bff00"@
    } else if i == 3 {
        "#ec0000"@
    } else if i == 4 {
        "#00a2c3"@
    } else if i == 5 {
        "#00f400"@
    } else if i == 6 {
        "#ff1500"@
    } else if i == 7 {
        "#0092dd"@
    } else if i == 8 {
        "#00dc00"@
    } else if i == 9 {
        "#ff8100"@
    } else if i == 10 {
        "#007ddd"@
    } else if i == 11 {
        "#00c700"@
    } else if i == 12 {
        "#ffb100"@
    } else if i == 13 {
        "#0038dd"@
    } else if i == 14 {
        "#00af00"@
    } else if i == 15 {
        "#fcd200"@
    } else if i == 16 {
        "#0000d5"@
    } else if i == 17 {
        "#009a00"@
    } else if i == 18 {
        "#f1e700"@
    } else if i == 19 {
        "#0000b1"@
    } else if i == 20 {
        "#00a55d"@
    } else if i == 21 {
        "#d4f700"@
    } else if i == 22 {
        "#4300a2"@
    } else if i == 23 {
        "#00aa93"@
    } else if i == 24 {
        "#a1ff00"@
    } else if i == 25 {
        "#dc0000"@
    } else if i == 26 {
        "#00aaab"@
    } else if i == 27 {
        "#1dff00"@
    } else if i == 28 {
        "#f40000"@
    } else if i == 29 {
        "#009fcb"@
    } else if i == 30 {
        "#00ef00"@
    } else if i == 31 {
        "#ff2d00"@
    } else if i == 32 {
        "#008ddd"@
    } else if i == 33 {
        "#00d700"@
    } else if i == 34 {
        "#ff9900"@
    } else if i == 35 {
        "#0078dd"@
    } else if i == 36 {
        "#00c200"@
    } else if i == 37 {
        "#ffb900"@
    } else if i == 38 {
        "#0025dd"@
    } else if i == 39 {
        "#00aa00"@
    } else if i == 40 {
        "#f9d700"@
    } else if i == 41 {
        "#0000c9"@
    } else if i == 42 {
        "#009b13"@
    } else if i == 43 {
        "#efed00"@
    } else if i == 44 {
        "#0300aa"@
    } else if i == 45 {
        "#00a773"@
    } else if i == 46 {
        "#ccf900"@
    } else if i == 47 {
        "#63009e"@
    } else if i == 48 {
        "#00aa98"@
    } else if i == 49 {
        "#84ff00"@
    } else if i == 50 {
        "#e10000"@
    } else if i == 51 {
        "#00a7b3"@
    } else if i == 52 {
        "#00ff00"@
    } else if i == 53 {
        "#f90000"@
    } else if i == 54 {
        "#009bd7"@
    } else if i == 55 {
        "#00ea00"@
    } else if i == 56 {
        "#ff4500"@
    } else if i == 57 {
        "#0088dd"@
    } else if i == 58 {
        "#00d200"@
    } else if i == 59 {
        "#ffa100"@
    } else if i == 60 {
        "#005ddd"@
    } else if i == 61 {
        "#00bc00"@
    } else if i == 62 {
        "#ffc100"@
    } else if i == 63 {
        "#0013dd"@
    } else if i == 64 {
        "#00a400"@
    } else if i == 65 {
        "#f7dd00"@
    } else if i == 66 {
        "#0000c1"@
    } else if i == 67 {
        "#009f33"@
    } else if i == 68 {
        "#e8f000"@
    } else if i == 69 {
        "#1800a7"@
    } else if i == 70 {
        "#00aa88"@
    } else if i == 71 {
        "#c4fc00"@
    } else if i == 72 {
        "#78009b"@
    } else if i == 73 {
        "#00aaa0"@
    } else if i == 74 {
        "#67ff00"@
    } else if i == 75 {
        "#e60000"@
    } else if i == 76 {
        "#00a4bb"@
    } else if i == 77 {
        "#00fa00"@
    } else if i == 78 {
        "#fe0000"@
    } else if i == 79 {
        "#0098dd"@
    } else if i == 80 {
        "#00e200"@
    } else if i == 81 {
        "#ff5d00"@
    } else if i == 82 {
        "#0082dd"@
    } else if i == 83 {
        "#00cc00"@
    } else if i == 84 {
        "#ffa900"@
    } else if i == 85 {
        "#004bdd"@
    } else if i == 86 {
        "#00b400"@
    } else if i == 87 {
        "#ffc900"@
    } else if i == 88 {
        "#0000dd"@
    } else if i == 89 {
        "#009f00"@
    } else if i == 90 {
        "#f4e200"@
    } else if i == 91 {
        "#0000b9"@
    } else if i == 92 {
        "#00a248"@
    } else if i == 93 {
        "#dcf400"@
    } else if i == 94 {
        "#2d00a4"@
    } else if i == 95 {
        "#00aa8d"@
    } else if i == 96 {
        "#bcff00"@
    } else {
        Seq::<char>::empty()
    }
}

/// The hex color of a palette slot.
pub fn palette_color(i: u64) -> (r: &'static str)
    requires
        i < PALETTE_SIZE,
    ensures
        r@ == palette_spec(i as int),
{
    match i {
        0 => "#870098",
        1 => "#00aaa5",
        2 => "#3bff00",
        3 => "#ec0000",
        4 => "#00a2c3",
        5 => "#00f400",
        6 => "#ff1500",
        7 => "#0092dd",
        8 => "#00dc00",
        9 => "#ff8100",
        10 => "#007ddd",
        11 => "#00c700",
        12 => "#ffb100",
        13 => "#0038dd",
        14 => "#00af00",
        15 => "#fcd200",
        16 => "#0000d5",
        17 => "#009a00",
        18 => "#f1e700",
        19 => "#0000b1",
        20 => "#00a55d",
        21 => "#d4f700",
        22 => "#4300a2",
        23 => "#00aa93",
        24 => "#a1ff00",
        25 => "#dc0000",
        26 => "#00aaab",
        27 => "#1dff00",
        28 => "#f40000",
        29 => "#009fcb",
        30 => "#00ef00",
        31 => "#ff2d00",
        32 => "#008ddd",
        33 => "#00d700",
        34 => "#ff9900",
        35 => "#0078dd",
        36 => "#00c200",
        37 => "#ffb900",
        38 => "#0025dd",
        39 => "#00aa00",
        40 => "#f9d700",
        41 => "#0000c9",
        42 => "#009b13",
        43 => "#efed00",
        44 => "#0300aa",
        45 => "#00a773",
        46 => "#ccf900",
        47 => "#63009e",
        48 => "#00aa98",
        49 => "#84ff00",
        50 => "#e10000",
        51 => "#00a7b3",
        52 => "#00ff00",
        53 => "#f90000",
        54 => "#009bd7",
        55 => "#00ea00",
        56 => "#ff4500",
        57 => "#0088dd",
        58 => "#00d200",
        59 => "#ffa100",
        60 => "#005ddd",
        61 => "#00bc00",
        62 => "#ffc100",
        63 => "#0013dd",
        64 => "#00a400",
        65 => "#f7dd00",
        66 => "#0000c1",
        67 => "#009f33",
        68 => "#e8f000",
        69 => "#1800a7",
        70 => "#00aa88",
        71 => "#c4fc00",
        72 => "#78009b",
        73 => "#00aaa0",
        74 => "#67ff00",
        75 => "#e60000",
        76 => "#00a4bb",
        77 => "#00fa00",
        78 => "#fe0000",
        79 => "#0098dd",
        80 => "#00e200",
        81 => "#ff5d00",
        82 => "#0082dd",
        83 => "#00cc00",
        84 => "#ffa900",
        85 => "#004bdd",
        86 => "#00b400",
        87 => "#ffc900",
        88 => "#0000dd",
        89 => "#009f00",
        90 => "#f4e200",
        91 => "#0000b9",
        92 => "#00a248",
        93 => "#dcf400",
        94 => "#2d00a4",
        95 => "#00aa8d",
        96 => "#bcff00",
        _ => "",
    }
}

/// Color assignment is a pure function of the query name: any two equal
/// names receive the same palette slot, in any pass and any run.
pub proof fn lemma_color_deterministic(a: &str, b: &str)
    requires
        a@ == b@,
    ensures
        color_index_spec(a@) == color_index_spec(b@),
{
}

} // verus!
