//! XML 1.0 character classes: `Char`, `S`, the Appendix B classes used by the
//! pre-fifth-edition name rules, `PubidChar`, and the fifth-edition name rules.

use vstd::prelude::*;

verus! {

/// `lo <= v <= hi` for some range of a sorted table of 16-bit ranges.
pub open spec fn in_short_ranges(t: Seq<(u16, u16)>, v: u32) -> bool {
    exists|i: int| 0 <= i < t.len() && t[i].0 as u32 <= v && v <= t[i].1 as u32
}

/// `lo <= v <= hi` for some range of a sorted table of 32-bit ranges.
pub open spec fn in_long_ranges(t: Seq<(u32, u32)>, v: u32) -> bool {
    exists|i: int| 0 <= i < t.len() && t[i].0 <= v && v <= t[i].1
}

/// Each range is non-empty and strictly below the next one.
pub open spec fn short_ranges_sorted(t: Seq<(u16, u16)>) -> bool {
    &&& forall|i: int| 0 <= i < t.len() ==> t[i].0 <= t[i].1
    &&& forall|i: int, j: int| 0 <= i < j < t.len() ==> t[i].1 < t[j].0
}

/// Each range is non-empty and strictly below the next one.
pub open spec fn long_ranges_sorted(t: Seq<(u32, u32)>) -> bool {
    &&& forall|i: int| 0 <= i < t.len() ==> t[i].0 <= t[i].1
    &&& forall|i: int, j: int| 0 <= i < j < t.len() ==> t[i].1 < t[j].0
}

/// Binary search of a range table, as `xmlCharInRange`: values below 0x10000 are
/// looked up in `short`, the others in `long`.
pub fn xml_char_in_range(val: u32, short: &[(u16, u16)], long: &[(u32, u32)]) -> (r: bool)
    requires
        short_ranges_sorted(short@),
        long_ranges_sorted(long@),
    ensures
        r == (if val < 0x10000 {
            in_short_ranges(short@, val)
        } else {
            in_long_ranges(long@, val)
        }),
{
    if val < 0x10000 {
        let mut low: usize = 0;
        let mut high: usize = short.len();
        while low < high
            invariant
                0 <= low <= high <= short.len(),
                val < 0x10000,
                short_ranges_sorted(short@),
                forall|i: int| 0 <= i < low ==> (short@[i].1 as u32) < val,
                forall|i: int| high <= i < short.len() ==> val < (short@[i].0 as u32),
            decreases high - low,
        {
            let mid = low + (high - low) / 2;
            let (lo, hi) = short[mid];
            if val < lo as u32 {
                high = mid;
            } else if val > hi as u32 {
                low = mid + 1;
            } else {
                return true;
            }
        }
        false
    } else {
        let mut low: usize = 0;
        let mut high: usize = long.len();
        while low < high
            invariant
                0 <= low <= high <= long.len(),
                val >= 0x10000,
                long_ranges_sorted(long@),
                forall|i: int| 0 <= i < low ==> long@[i].1 < val,
                forall|i: int| high <= i < long.len() ==> val < long@[i].0,
            decreases high - low,
        {
            let mid = low + (high - low) / 2;
            let (lo, hi) = long[mid];
            if val < lo {
                high = mid;
            } else if val > hi {
                low = mid + 1;
            } else {
                assert(long@[mid as int].0 <= val && val <= long@[mid as int].1);
                return true;
            }
        }
        false
    }
}

/// The `Char` production of XML 1.0.
pub open spec fn is_xml_char(c: u32) -> bool {
    (0x09 <= c <= 0x0a) || c == 0x0d || (0x20 <= c <= 0xd7ff) || (0xe000 <= c <= 0xfffd) || (
    0x10000 <= c <= 0x10ffff)
}

/// `xmlIsCharQ`: the `Char` production.
pub fn xml_is_char(c: u32) -> (r: bool)
    ensures
        r == is_xml_char(c),
{
    if c < 0x100 {
        (0x09 <= c && c <= 0x0a) || c == 0x0d || c >= 0x20
    } else {
        (0x100 <= c && c <= 0xd7ff) || (0xe000 <= c && c <= 0xfffd) || (0x10000 <= c && c
            <= 0x10ffff)
    }
}

/// The `S` production: space, tab, line feed, carriage return.
pub open spec fn is_xml_blank(c: u32) -> bool {
    c == 0x20 || c == 0x09 || c == 0x0a || c == 0x0d
}

/// `xmlIsBlankQ`.
pub fn xml_is_blank(c: u32) -> (r: bool)
    ensures
        r == is_xml_blank(c),
{
    c == 0x20 || (0x09 <= c && c <= 0x0a) || c == 0x0d
}

/// Appendix B `BaseChar` above U+00FF.
pub open spec fn is_high_base_char(c: u32) -> bool {
    (0x0100 <= c && c <= 0x0131) || (0x0134 <= c && c <= 0x013e)
    || (0x0141 <= c && c <= 0x0148) || (0x014a <= c && c <= 0x017e)
    || (0x0180 <= c && c <= 0x01c3) || (0x01cd <= c && c <= 0x01f0)
    || (0x01f4 <= c && c <= 0x01f5) || (0x01fa <= c && c <= 0x0217)
    || (0x0250 <= c && c <= 0x02a8) || (0x02bb <= c && c <= 0x02c1) || c == 0x0386
    || (0x0388 <= c && c <= 0x038a) || c == 0x038c || (0x038e <= c && c <= 0x03a1)
    || (0x03a3 <= c && c <= 0x03ce) || (0x03d0 <= c && c <= 0x03d6) || c == 0x03da
    || c == 0x03dc || c == 0x03de || c == 0x03e0 || (0x03e2 <= c && c <= 0x03f3)
    || (0x0401 <= c && c <= 0x040c) || (0x040e <= c && c <= 0x044f)
    || (0x0451 <= c && c <= 0x045c) || (0x045e <= c && c <= 0x0481)
    || (0x0490 <= c && c <= 0x04c4) || (0x04c7 <= c && c <= 0x04c8)
    || (0x04cb <= c && c <= 0x04cc) || (0x04d0 <= c && c <= 0x04eb)
    || (0x04ee <= c && c <= 0x04f5) || (0x04f8 <= c && c <= 0x04f9)
    || (0x0531 <= c && c <= 0x0556) || c == 0x0559 || (0x0561 <= c && c <= 0x0586)
    || (0x05d0 <= c && c <= 0x05ea) || (0x05f0 <= c && c <= 0x05f2)
    || (0x0621 <= c && c <= 0x063a) || (0x0641 <= c && c <= 0x064a)
    || (0x0671 <= c && c <= 0x06b7) || (0x06ba <= c && c <= 0x06be)
    || (0x06c0 <= c && c <= 0x06ce) || (0x06d0 <= c && c <= 0x06d3) || c == 0x06d5
    || (0x06e5 <= c && c <= 0x06e6) || (0x0905 <= c && c <= 0x0939) || c == 0x093d
    || (0x0958 <= c && c <= 0x0961) || (0x0985 <= c && c <= 0x098c)
    || (0x098f <= c && c <= 0x0990) || (0x0993 <= c && c <= 0x09a8)
    || (0x09aa <= c && c <= 0x09b0) || c == 0x09b2 || (0x09b6 <= c && c <= 0x09b9)
    || (0x09dc <= c && c <= 0x09dd) || (0x09df <= c && c <= 0x09e1)
    || (0x09f0 <= c && c <= 0x09f1) || (0x0a05 <= c && c <= 0x0a0a)
    || (0x0a0f <= c && c <= 0x0a10) || (0x0a13 <= c && c <= 0x0a28)
    || (0x0a2a <= c && c <= 0x0a30) || (0x0a32 <= c && c <= 0x0a33)
    || (0x0a35 <= c && c <= 0x0a36) || (0x0a38 <= c && c <= 0x0a39)
    || (0x0a59 <= c && c <= 0x0a5c) || c == 0x0a5e || (0x0a72 <= c && c <= 0x0a74)
    || (0x0a85 <= c && c <= 0x0a8b) || c == 0x0a8d || (0x0a8f <= c && c <= 0x0a91)
    || (0x0a93 <= c && c <= 0x0aa8) || (0x0aaa <= c && c <= 0x0ab0)
    || (0x0ab2 <= c && c <= 0x0ab3) || (0x0ab5 <= c && c <= 0x0ab9) || c == 0x0abd
    || c == 0x0ae0 || (0x0b05 <= c && c <= 0x0b0c) || (0x0b0f <= c && c <= 0x0b10)
    || (0x0b13 <= c && c <= 0x0b28) || (0x0b2a <= c && c <= 0x0b30)
    || (0x0b32 <= c && c <= 0x0b33) || (0x0b36 <= c && c <= 0x0b39) || c == 0x0b3d
    || (0x0b5c <= c && c <= 0x0b5d) || (0x0b5f <= c && c <= 0x0b61)
    || (0x0b85 <= c && c <= 0x0b8a) || (0x0b8e <= c && c <= 0x0b90)
    || (0x0b92 <= c && c <= 0x0b95) || (0x0b99 <= c && c <= 0x0b9a) || c == 0x0b9c
    || (0x0b9e <= c && c <= 0x0b9f) || (0x0ba3 <= c && c <= 0x0ba4)
    || (0x0ba8 <= c && c <= 0x0baa) || (0x0bae <= c && c <= 0x0bb5)
    || (0x0bb7 <= c && c <= 0x0bb9) || (0x0c05 <= c && c <= 0x0c0c)
    || (0x0c0e <= c && c <= 0x0c10) || (0x0c12 <= c && c <= 0x0c28)
    || (0x0c2a <= c && c <= 0x0c33) || (0x0c35 <= c && c <= 0x0c39)
    || (0x0c60 <= c && c <= 0x0c61) || (0x0c85 <= c && c <= 0x0c8c)
    || (0x0c8e <= c && c <= 0x0c90) || (0x0c92 <= c && c <= 0x0ca8)
    || (0x0caa <= c && c <= 0x0cb3) || (0x0cb5 <= c && c <= 0x0cb9) || c == 0x0cde
    || (0x0ce0 <= c && c <= 0x0ce1) || (0x0d05 <= c && c <= 0x0d0c)
    || (0x0d0e <= c && c <= 0x0d10) || (0x0d12 <= c && c <= 0x0d28)
    || (0x0d2a <= c && c <= 0x0d39) || (0x0d60 <= c && c <= 0x0d61)
    || (0x0e01 <= c && c <= 0x0e2e) || c == 0x0e30 || (0x0e32 <= c && c <= 0x0e33)
    || (0x0e40 <= c && c <= 0x0e45) || (0x0e81 <= c && c <= 0x0e82) || c == 0x0e84
    || (0x0e87 <= c && c <= 0x0e88) || c == 0x0e8a || c == 0x0e8d
    || (0x0e94 <= c && c <= 0x0e97) || (0x0e99 <= c && c <= 0x0e9f)
    || (0x0ea1 <= c && c <= 0x0ea3) || c == 0x0ea5 || c == 0x0ea7
    || (0x0eaa <= c && c <= 0x0eab) || (0x0ead <= c && c <= 0x0eae) || c == 0x0eb0
    || (0x0eb2 <= c && c <= 0x0eb3) || c == 0x0ebd || (0x0ec0 <= c && c <= 0x0ec4)
    || (0x0f40 <= c && c <= 0x0f47) || (0x0f49 <= c && c <= 0x0f69)
    || (0x10a0 <= c && c <= 0x10c5) || (0x10d0 <= c && c <= 0x10f6) || c == 0x1100
    || (0x1102 <= c && c <= 0x1103) || (0x1105 <= c && c <= 0x1107) || c == 0x1109
    || (0x110b <= c && c <= 0x110c) || (0x110e <= c && c <= 0x1112) || c == 0x113c
    || c == 0x113e || c == 0x1140 || c == 0x114c || c == 0x114e || c == 0x1150
    || (0x1154 <= c && c <= 0x1155) || c == 0x1159 || (0x115f <= c && c <= 0x1161)
    || c == 0x1163 || c == 0x1165 || c == 0x1167 || c == 0x1169
    || (0x116d <= c && c <= 0x116e) || (0x1172 <= c && c <= 0x1173) || c == 0x1175
    || c == 0x119e || c == 0x11a8 || c == 0x11ab || (0x11ae <= c && c <= 0x11af)
    || (0x11b7 <= c && c <= 0x11b8) || c == 0x11ba || (0x11bc <= c && c <= 0x11c2)
    || c == 0x11eb || c == 0x11f0 || c == 0x11f9 || (0x1e00 <= c && c <= 0x1e9b)
    || (0x1ea0 <= c && c <= 0x1ef9) || (0x1f00 <= c && c <= 0x1f15)
    || (0x1f18 <= c && c <= 0x1f1d) || (0x1f20 <= c && c <= 0x1f45)
    || (0x1f48 <= c && c <= 0x1f4d) || (0x1f50 <= c && c <= 0x1f57) || c == 0x1f59
    || c == 0x1f5b || c == 0x1f5d || (0x1f5f <= c && c <= 0x1f7d)
    || (0x1f80 <= c && c <= 0x1fb4) || (0x1fb6 <= c && c <= 0x1fbc) || c == 0x1fbe
    || (0x1fc2 <= c && c <= 0x1fc4) || (0x1fc6 <= c && c <= 0x1fcc)
    || (0x1fd0 <= c && c <= 0x1fd3) || (0x1fd6 <= c && c <= 0x1fdb)
    || (0x1fe0 <= c && c <= 0x1fec) || (0x1ff2 <= c && c <= 0x1ff4)
    || (0x1ff6 <= c && c <= 0x1ffc) || c == 0x2126 || (0x212a <= c && c <= 0x212b)
    || c == 0x212e || (0x2180 <= c && c <= 0x2182) || (0x3041 <= c && c <= 0x3094)
    || (0x30a1 <= c && c <= 0x30fa) || (0x3105 <= c && c <= 0x312c)
    || (0xac00 <= c && c <= 0xd7a3)
}

/// Appendix B `BaseChar`.
pub open spec fn is_base_char(c: u32) -> bool {
    if c < 0x100 {
        (0x41 <= c <= 0x5a) || (0x61 <= c <= 0x7a) || (0xc0 <= c <= 0xd6) || (0xd8 <= c <= 0xf6)
            || c >= 0xf8
    } else {
        is_high_base_char(c)
    }
}

/// `xmlIsBaseCharQ`.
pub fn xml_is_base_char(c: u32) -> (r: bool)
    ensures
        r == is_base_char(c),
{
    if c < 0x100 {
        (0x41 <= c && c <= 0x5a) || (0x61 <= c && c <= 0x7a) || (0xc0 <= c && c <= 0xd6) || (
        0xd8 <= c && c <= 0xf6) || c >= 0xf8
    } else {
        (0x0100 <= c && c <= 0x0131) || (0x0134 <= c && c <= 0x013e)
        || (0x0141 <= c && c <= 0x0148) || (0x014a <= c && c <= 0x017e)
        || (0x0180 <= c && c <= 0x01c3) || (0x01cd <= c && c <= 0x01f0)
        || (0x01f4 <= c && c <= 0x01f5) || (0x01fa <= c && c <= 0x0217)
        || (0x0250 <= c && c <= 0x02a8) || (0x02bb <= c && c <= 0x02c1) || c == 0x0386
        || (0x0388 <= c && c <= 0x038a) || c == 0x038c || (0x038e <= c && c <= 0x03a1)
        || (0x03a3 <= c && c <= 0x03ce) || (0x03d0 <= c && c <= 0x03d6) || c == 0x03da
        || c == 0x03dc || c == 0x03de || c == 0x03e0 || (0x03e2 <= c && c <= 0x03f3)
        || (0x0401 <= c && c <= 0x040c) || (0x040e <= c && c <= 0x044f)
        || (0x0451 <= c && c <= 0x045c) || (0x045e <= c && c <= 0x0481)
        || (0x0490 <= c && c <= 0x04c4) || (0x04c7 <= c && c <= 0x04c8)
        || (0x04cb <= c && c <= 0x04cc) || (0x04d0 <= c && c <= 0x04eb)
        || (0x04ee <= c && c <= 0x04f5) || (0x04f8 <= c && c <= 0x04f9)
        || (0x0531 <= c && c <= 0x0556) || c == 0x0559 || (0x0561 <= c && c <= 0x0586)
        || (0x05d0 <= c && c <= 0x05ea) || (0x05f0 <= c && c <= 0x05f2)
        || (0x0621 <= c && c <= 0x063a) || (0x0641 <= c && c <= 0x064a)
        || (0x0671 <= c && c <= 0x06b7) || (0x06ba <= c && c <= 0x06be)
        || (0x06c0 <= c && c <= 0x06ce) || (0x06d0 <= c && c <= 0x06d3) || c == 0x06d5
        || (0x06e5 <= c && c <= 0x06e6) || (0x0905 <= c && c <= 0x0939) || c == 0x093d
        || (0x0958 <= c && c <= 0x0961) || (0x0985 <= c && c <= 0x098c)
        || (0x098f <= c && c <= 0x0990) || (0x0993 <= c && c <= 0x09a8)
        || (0x09aa <= c && c <= 0x09b0) || c == 0x09b2 || (0x09b6 <= c && c <= 0x09b9)
        || (0x09dc <= c && c <= 0x09dd) || (0x09df <= c && c <= 0x09e1)
        || (0x09f0 <= c && c <= 0x09f1) || (0x0a05 <= c && c <= 0x0a0a)
        || (0x0a0f <= c && c <= 0x0a10) || (0x0a13 <= c && c <= 0x0a28)
        || (0x0a2a <= c && c <= 0x0a30) || (0x0a32 <= c && c <= 0x0a33)
        || (0x0a35 <= c && c <= 0x0a36) || (0x0a38 <= c && c <= 0x0a39)
        || (0x0a59 <= c && c <= 0x0a5c) || c == 0x0a5e || (0x0a72 <= c && c <= 0x0a74)
        || (0x0a85 <= c && c <= 0x0a8b) || c == 0x0a8d || (0x0a8f <= c && c <= 0x0a91)
        || (0x0a93 <= c && c <= 0x0aa8) || (0x0aaa <= c && c <= 0x0ab0)
        || (0x0ab2 <= c && c <= 0x0ab3) || (0x0ab5 <= c && c <= 0x0ab9) || c == 0x0abd
        || c == 0x0ae0 || (0x0b05 <= c && c <= 0x0b0c) || (0x0b0f <= c && c <= 0x0b10)
        || (0x0b13 <= c && c <= 0x0b28) || (0x0b2a <= c && c <= 0x0b30)
        || (0x0b32 <= c && c <= 0x0b33) || (0x0b36 <= c && c <= 0x0b39) || c == 0x0b3d
        || (0x0b5c <= c && c <= 0x0b5d) || (0x0b5f <= c && c <= 0x0b61)
        || (0x0b85 <= c && c <= 0x0b8a) || (0x0b8e <= c && c <= 0x0b90)
        || (0x0b92 <= c && c <= 0x0b95) || (0x0b99 <= c && c <= 0x0b9a) || c == 0x0b9c
        || (0x0b9e <= c && c <= 0x0b9f) || (0x0ba3 <= c && c <= 0x0ba4)
        || (0x0ba8 <= c && c <= 0x0baa) || (0x0bae <= c && c <= 0x0bb5)
        || (0x0bb7 <= c && c <= 0x0bb9) || (0x0c05 <= c && c <= 0x0c0c)
        || (0x0c0e <= c && c <= 0x0c10) || (0x0c12 <= c && c <= 0x0c28)
        || (0x0c2a <= c && c <= 0x0c33) || (0x0c35 <= c && c <= 0x0c39)
        || (0x0c60 <= c && c <= 0x0c61) || (0x0c85 <= c && c <= 0x0c8c)
        || (0x0c8e <= c && c <= 0x0c90) || (0x0c92 <= c && c <= 0x0ca8)
        || (0x0caa <= c && c <= 0x0cb3) || (0x0cb5 <= c && c <= 0x0cb9) || c == 0x0cde
        || (0x0ce0 <= c && c <= 0x0ce1) || (0x0d05 <= c && c <= 0x0d0c)
        || (0x0d0e <= c && c <= 0x0d10) || (0x0d12 <= c && c <= 0x0d28)
        || (0x0d2a <= c && c <= 0x0d39) || (0x0d60 <= c && c <= 0x0d61)
        || (0x0e01 <= c && c <= 0x0e2e) || c == 0x0e30 || (0x0e32 <= c && c <= 0x0e33)
        || (0x0e40 <= c && c <= 0x0e45) || (0x0e81 <= c && c <= 0x0e82) || c == 0x0e84
        || (0x0e87 <= c && c <= 0x0e88) || c == 0x0e8a || c == 0x0e8d
        || (0x0e94 <= c && c <= 0x0e97) || (0x0e99 <= c && c <= 0x0e9f)
        || (0x0ea1 <= c && c <= 0x0ea3) || c == 0x0ea5 || c == 0x0ea7
        || (0x0eaa <= c && c <= 0x0eab) || (0x0ead <= c && c <= 0x0eae) || c == 0x0eb0
        || (0x0eb2 <= c && c <= 0x0eb3) || c == 0x0ebd || (0x0ec0 <= c && c <= 0x0ec4)
        || (0x0f40 <= c && c <= 0x0f47) || (0x0f49 <= c && c <= 0x0f69)
        || (0x10a0 <= c && c <= 0x10c5) || (0x10d0 <= c && c <= 0x10f6) || c == 0x1100
        || (0x1102 <= c && c <= 0x1103) || (0x1105 <= c && c <= 0x1107) || c == 0x1109
        || (0x110b <= c && c <= 0x110c) || (0x110e <= c && c <= 0x1112) || c == 0x113c
        || c == 0x113e || c == 0x1140 || c == 0x114c || c == 0x114e || c == 0x1150
        || (0x1154 <= c && c <= 0x1155) || c == 0x1159 || (0x115f <= c && c <= 0x1161)
        || c == 0x1163 || c == 0x1165 || c == 0x1167 || c == 0x1169
        || (0x116d <= c && c <= 0x116e) || (0x1172 <= c && c <= 0x1173) || c == 0x1175
        || c == 0x119e || c == 0x11a8 || c == 0x11ab || (0x11ae <= c && c <= 0x11af)
        || (0x11b7 <= c && c <= 0x11b8) || c == 0x11ba || (0x11bc <= c && c <= 0x11c2)
        || c == 0x11eb || c == 0x11f0 || c == 0x11f9 || (0x1e00 <= c && c <= 0x1e9b)
        || (0x1ea0 <= c && c <= 0x1ef9) || (0x1f00 <= c && c <= 0x1f15)
        || (0x1f18 <= c && c <= 0x1f1d) || (0x1f20 <= c && c <= 0x1f45)
        || (0x1f48 <= c && c <= 0x1f4d) || (0x1f50 <= c && c <= 0x1f57) || c == 0x1f59
        || c == 0x1f5b || c == 0x1f5d || (0x1f5f <= c && c <= 0x1f7d)
        || (0x1f80 <= c && c <= 0x1fb4) || (0x1fb6 <= c && c <= 0x1fbc) || c == 0x1fbe
        || (0x1fc2 <= c && c <= 0x1fc4) || (0x1fc6 <= c && c <= 0x1fcc)
        || (0x1fd0 <= c && c <= 0x1fd3) || (0x1fd6 <= c && c <= 0x1fdb)
        || (0x1fe0 <= c && c <= 0x1fec) || (0x1ff2 <= c && c <= 0x1ff4)
        || (0x1ff6 <= c && c <= 0x1ffc) || c == 0x2126 || (0x212a <= c && c <= 0x212b)
        || c == 0x212e || (0x2180 <= c && c <= 0x2182) || (0x3041 <= c && c <= 0x3094)
        || (0x30a1 <= c && c <= 0x30fa) || (0x3105 <= c && c <= 0x312c)
        || (0xac00 <= c && c <= 0xd7a3)
    }
}

/// Appendix B `Digit`.
pub open spec fn is_digit(c: u32) -> bool {
    if c < 0x100 {
        0x30 <= c <= 0x39
    } else {
        (0x0660 <= c && c <= 0x0669) || (0x06f0 <= c && c <= 0x06f9)
        || (0x0966 <= c && c <= 0x096f) || (0x09e6 <= c && c <= 0x09ef)
        || (0x0a66 <= c && c <= 0x0a6f) || (0x0ae6 <= c && c <= 0x0aef)
        || (0x0b66 <= c && c <= 0x0b6f) || (0x0be7 <= c && c <= 0x0bef)
        || (0x0c66 <= c && c <= 0x0c6f) || (0x0ce6 <= c && c <= 0x0cef)
        || (0x0d66 <= c && c <= 0x0d6f) || (0x0e50 <= c && c <= 0x0e59)
        || (0x0ed0 <= c && c <= 0x0ed9) || (0x0f20 <= c && c <= 0x0f29)
    }
}

/// `xmlIsDigitQ`.
pub fn xml_is_digit(c: u32) -> (r: bool)
    ensures
        r == is_digit(c),
{
    if c < 0x100 {
        0x30 <= c && c <= 0x39
    } else {
        (0x0660 <= c && c <= 0x0669) || (0x06f0 <= c && c <= 0x06f9)
        || (0x0966 <= c && c <= 0x096f) || (0x09e6 <= c && c <= 0x09ef)
        || (0x0a66 <= c && c <= 0x0a6f) || (0x0ae6 <= c && c <= 0x0aef)
        || (0x0b66 <= c && c <= 0x0b6f) || (0x0be7 <= c && c <= 0x0bef)
        || (0x0c66 <= c && c <= 0x0c6f) || (0x0ce6 <= c && c <= 0x0cef)
        || (0x0d66 <= c && c <= 0x0d6f) || (0x0e50 <= c && c <= 0x0e59)
        || (0x0ed0 <= c && c <= 0x0ed9) || (0x0f20 <= c && c <= 0x0f29)
    }
}

/// Appendix B `CombiningChar`.
pub open spec fn is_combining(c: u32) -> bool {
    if c < 0x100 {
        false
    } else {
        (0x0300 <= c && c <= 0x0345) || (0x0360 <= c && c <= 0x0361)
        || (0x0483 <= c && c <= 0x0486) || (0x0591 <= c && c <= 0x05a1)
        || (0x05a3 <= c && c <= 0x05b9) || (0x05bb <= c && c <= 0x05bd) || c == 0x05bf
        || (0x05c1 <= c && c <= 0x05c2) || c == 0x05c4 || (0x064b <= c && c <= 0x0652)
        || c == 0x0670 || (0x06d6 <= c && c <= 0x06dc) || (0x06dd <= c && c <= 0x06df)
        || (0x06e0 <= c && c <= 0x06e4) || (0x06e7 <= c && c <= 0x06e8)
        || (0x06ea <= c && c <= 0x06ed) || (0x0901 <= c && c <= 0x0903) || c == 0x093c
        || (0x093e <= c && c <= 0x094c) || c == 0x094d || (0x0951 <= c && c <= 0x0954)
        || (0x0962 <= c && c <= 0x0963) || (0x0981 <= c && c <= 0x0983) || c == 0x09bc
        || c == 0x09be || c == 0x09bf || (0x09c0 <= c && c <= 0x09c4)
        || (0x09c7 <= c && c <= 0x09c8) || (0x09cb <= c && c <= 0x09cd) || c == 0x09d7
        || (0x09e2 <= c && c <= 0x09e3) || c == 0x0a02 || c == 0x0a3c || c == 0x0a3e
        || c == 0x0a3f || (0x0a40 <= c && c <= 0x0a42) || (0x0a47 <= c && c <= 0x0a48)
        || (0x0a4b <= c && c <= 0x0a4d) || (0x0a70 <= c && c <= 0x0a71)
        || (0x0a81 <= c && c <= 0x0a83) || c == 0x0abc || (0x0abe <= c && c <= 0x0ac5)
        || (0x0ac7 <= c && c <= 0x0ac9) || (0x0acb <= c && c <= 0x0acd)
        || (0x0b01 <= c && c <= 0x0b03) || c == 0x0b3c || (0x0b3e <= c && c <= 0x0b43)
        || (0x0b47 <= c && c <= 0x0b48) || (0x0b4b <= c && c <= 0x0b4d)
        || (0x0b56 <= c && c <= 0x0b57) || (0x0b82 <= c && c <= 0x0b83)
        || (0x0bbe <= c && c <= 0x0bc2) || (0x0bc6 <= c && c <= 0x0bc8)
        || (0x0bca <= c && c <= 0x0bcd) || c == 0x0bd7 || (0x0c01 <= c && c <= 0x0c03)
        || (0x0c3e <= c && c <= 0x0c44) || (0x0c46 <= c && c <= 0x0c48)
        || (0x0c4a <= c && c <= 0x0c4d) || (0x0c55 <= c && c <= 0x0c56)
        || (0x0c82 <= c && c <= 0x0c83) || (0x0cbe <= c && c <= 0x0cc4)
        || (0x0cc6 <= c && c <= 0x0cc8) || (0x0cca <= c && c <= 0x0ccd)
        || (0x0cd5 <= c && c <= 0x0cd6) || (0x0d02 <= c && c <= 0x0d03)
        || (0x0d3e <= c && c <= 0x0d43) || (0x0d46 <= c && c <= 0x0d48)
        || (0x0d4a <= c && c <= 0x0d4d) || c == 0x0d57 || c == 0x0e31
        || (0x0e34 <= c && c <= 0x0e3a) || (0x0e47 <= c && c <= 0x0e4e) || c == 0x0eb1
        || (0x0eb4 <= c && c <= 0x0eb9) || (0x0ebb <= c && c <= 0x0ebc)
        || (0x0ec8 <= c && c <= 0x0ecd) || (0x0f18 <= c && c <= 0x0f19) || c == 0x0f35
        || c == 0x0f37 || c == 0x0f39 || c == 0x0f3e || c == 0x0f3f
        || (0x0f71 <= c && c <= 0x0f84) || (0x0f86 <= c && c <= 0x0f8b)
        || (0x0f90 <= c && c <= 0x0f95) || c == 0x0f97 || (0x0f99 <= c && c <= 0x0fad)
        || (0x0fb1 <= c && c <= 0x0fb7) || c == 0x0fb9 || (0x20d0 <= c && c <= 0x20dc)
        || c == 0x20e1 || (0x302a <= c && c <= 0x302f) || c == 0x3099 || c == 0x309a
    }
}

/// `xmlIsCombiningQ`.
pub fn xml_is_combining(c: u32) -> (r: bool)
    ensures
        r == is_combining(c),
{
    if c < 0x100 {
        false
    } else {
        (0x0300 <= c && c <= 0x0345) || (0x0360 <= c && c <= 0x0361)
        || (0x0483 <= c && c <= 0x0486) || (0x0591 <= c && c <= 0x05a1)
        || (0x05a3 <= c && c <= 0x05b9) || (0x05bb <= c && c <= 0x05bd) || c == 0x05bf
        || (0x05c1 <= c && c <= 0x05c2) || c == 0x05c4 || (0x064b <= c && c <= 0x0652)
        || c == 0x0670 || (0x06d6 <= c && c <= 0x06dc) || (0x06dd <= c && c <= 0x06df)
        || (0x06e0 <= c && c <= 0x06e4) || (0x06e7 <= c && c <= 0x06e8)
        || (0x06ea <= c && c <= 0x06ed) || (0x0901 <= c && c <= 0x0903) || c == 0x093c
        || (0x093e <= c && c <= 0x094c) || c == 0x094d || (0x0951 <= c && c <= 0x0954)
        || (0x0962 <= c && c <= 0x0963) || (0x0981 <= c && c <= 0x0983) || c == 0x09bc
        || c == 0x09be || c == 0x09bf || (0x09c0 <= c && c <= 0x09c4)
        || (0x09c7 <= c && c <= 0x09c8) || (0x09cb <= c && c <= 0x09cd) || c == 0x09d7
        || (0x09e2 <= c && c <= 0x09e3) || c == 0x0a02 || c == 0x0a3c || c == 0x0a3e
        || c == 0x0a3f || (0x0a40 <= c && c <= 0x0a42) || (0x0a47 <= c && c <= 0x0a48)
        || (0x0a4b <= c && c <= 0x0a4d) || (0x0a70 <= c && c <= 0x0a71)
        || (0x0a81 <= c && c <= 0x0a83) || c == 0x0abc || (0x0abe <= c && c <= 0x0ac5)
        || (0x0ac7 <= c && c <= 0x0ac9) || (0x0acb <= c && c <= 0x0acd)
        || (0x0b01 <= c && c <= 0x0b03) || c == 0x0b3c || (0x0b3e <= c && c <= 0x0b43)
        || (0x0b47 <= c && c <= 0x0b48) || (0x0b4b <= c && c <= 0x0b4d)
        || (0x0b56 <= c && c <= 0x0b57) || (0x0b82 <= c && c <= 0x0b83)
        || (0x0bbe <= c && c <= 0x0bc2) || (0x0bc6 <= c && c <= 0x0bc8)
        || (0x0bca <= c && c <= 0x0bcd) || c == 0x0bd7 || (0x0c01 <= c && c <= 0x0c03)
        || (0x0c3e <= c && c <= 0x0c44) || (0x0c46 <= c && c <= 0x0c48)
        || (0x0c4a <= c && c <= 0x0c4d) || (0x0c55 <= c && c <= 0x0c56)
        || (0x0c82 <= c && c <= 0x0c83) || (0x0cbe <= c && c <= 0x0cc4)
        || (0x0cc6 <= c && c <= 0x0cc8) || (0x0cca <= c && c <= 0x0ccd)
        || (0x0cd5 <= c && c <= 0x0cd6) || (0x0d02 <= c && c <= 0x0d03)
        || (0x0d3e <= c && c <= 0x0d43) || (0x0d46 <= c && c <= 0x0d48)
        || (0x0d4a <= c && c <= 0x0d4d) || c == 0x0d57 || c == 0x0e31
        || (0x0e34 <= c && c <= 0x0e3a) || (0x0e47 <= c && c <= 0x0e4e) || c == 0x0eb1
        || (0x0eb4 <= c && c <= 0x0eb9) || (0x0ebb <= c && c <= 0x0ebc)
        || (0x0ec8 <= c && c <= 0x0ecd) || (0x0f18 <= c && c <= 0x0f19) || c == 0x0f35
        || c == 0x0f37 || c == 0x0f39 || c == 0x0f3e || c == 0x0f3f
        || (0x0f71 <= c && c <= 0x0f84) || (0x0f86 <= c && c <= 0x0f8b)
        || (0x0f90 <= c && c <= 0x0f95) || c == 0x0f97 || (0x0f99 <= c && c <= 0x0fad)
        || (0x0fb1 <= c && c <= 0x0fb7) || c == 0x0fb9 || (0x20d0 <= c && c <= 0x20dc)
        || c == 0x20e1 || (0x302a <= c && c <= 0x302f) || c == 0x3099 || c == 0x309a
    }
}

/// Appendix B `Extender`.
pub open spec fn is_extender(c: u32) -> bool {
    if c < 0x100 {
        c == 0xb7
    } else {
        c == 0x02d0 || c == 0x02d1 || c == 0x0387 || c == 0x0640 || c == 0x0e46 || c == 0x0ec6
        || c == 0x3005 || (0x3031 <= c && c <= 0x3035) || (0x309d <= c && c <= 0x309e)
        || (0x30fc <= c && c <= 0x30fe)
    }
}

/// `xmlIsExtenderQ`.
pub fn xml_is_extender(c: u32) -> (r: bool)
    ensures
        r == is_extender(c),
{
    if c < 0x100 {
        c == 0xb7
    } else {
        c == 0x02d0 || c == 0x02d1 || c == 0x0387 || c == 0x0640 || c == 0x0e46 || c == 0x0ec6
        || c == 0x3005 || (0x3031 <= c && c <= 0x3035) || (0x309d <= c && c <= 0x309e)
        || (0x30fc <= c && c <= 0x30fe)
    }
}

/// Appendix B `Ideographic`.
pub open spec fn is_ideographic(c: u32) -> bool {
    c >= 0x100 && ((0x4e00 <= c <= 0x9fa5) || c == 0x3007 || (0x3021 <= c <= 0x3029))
}

/// `xmlIsIdeographicQ`.
pub fn xml_is_ideographic(c: u32) -> (r: bool)
    ensures
        r == is_ideographic(c),
{
    if c < 0x100 {
        false
    } else {
        (0x4e00 <= c && c <= 0x9fa5) || c == 0x3007 || (0x3021 <= c && c <= 0x3029)
    }
}

/// `Letter ::= BaseChar | Ideographic`.
pub open spec fn is_letter(c: u32) -> bool {
    is_base_char(c) || is_ideographic(c)
}

/// `IS_LETTER`.
pub fn xml_is_letter(c: u32) -> (r: bool)
    ensures
        r == is_letter(c),
{
    xml_is_base_char(c) || xml_is_ideographic(c)
}

/// `PubidChar ::= #x20 | #xD | #xA | [a-zA-Z0-9] | [-'()+,./:=?;!*#@$_%]`.
pub open spec fn is_pubid(c: u32) -> bool {
    c == 0x20 || c == 0x0d || c == 0x0a || (0x61 <= c <= 0x7a) || (0x41 <= c <= 0x5a) || (0x30
        <= c <= 0x39) || c == 0x2d || c == 0x27 || c == 0x28 || c == 0x29 || c == 0x2b || c
        == 0x2c || c == 0x2e || c == 0x2f || c == 0x3a || c == 0x3d || c == 0x3f || c == 0x3b
        || c == 0x21 || c == 0x2a || c == 0x23 || c == 0x40 || c == 0x24 || c == 0x5f || c
        == 0x25
}

/// `xmlIsPubidCharQ`.
pub fn xml_is_pubid_char(c: u32) -> (r: bool)
    ensures
        r == is_pubid(c),
{
    c == 0x20 || c == 0x0d || c == 0x0a || (0x61 <= c && c <= 0x7a) || (0x41 <= c && c <= 0x5a)
        || (0x30 <= c && c <= 0x39) || c == 0x2d || c == 0x27 || c == 0x28 || c == 0x29 || c
        == 0x2b || c == 0x2c || c == 0x2e || c == 0x2f || c == 0x3a || c == 0x3d || c == 0x3f
        || c == 0x3b || c == 0x21 || c == 0x2a || c == 0x23 || c == 0x40 || c == 0x24 || c
        == 0x5f || c == 0x25
}

/// Fifth-edition `NameStartChar`, or `Letter | '_' | ':'` under the older
/// rules; space, `>` and `/` never start a name.
pub open spec fn is_name_start(c: u32, old10: bool) -> bool {
    if c == 0x20 || c == 0x3e || c == 0x2f {
        false
    } else if old10 {
        is_letter(c) || c == 0x5f || c == 0x3a
    } else {
        (0x61 <= c <= 0x7a) || (0x41 <= c <= 0x5a) || c == 0x5f || c == 0x3a || (0xc0 <= c
            <= 0xd6) || (0xd8 <= c <= 0xf6) || (0xf8 <= c <= 0x2ff) || (0x370 <= c <= 0x37d)
            || (0x37f <= c <= 0x1fff) || (0x200c <= c <= 0x200d) || (0x2070 <= c <= 0x218f)
            || (0x2c00 <= c <= 0x2fef) || (0x3001 <= c <= 0xd7ff) || (0xf900 <= c <= 0xfdcf)
            || (0xfdf0 <= c <= 0xfffd) || (0x10000 <= c <= 0xeffff)
    }
}

/// XML 1.0 fifth-edition `NameStartChar` (or the older rules when `old10`).
pub fn xml_is_name_start_char(c: u32, old10: bool) -> (r: bool)
    ensures
        r == is_name_start(c, old10),
{
    if c == 0x20 || c == 0x3e || c == 0x2f {
        return false;
    }
    if old10 {
        return xml_is_letter(c) || c == 0x5f || c == 0x3a;
    }
    (0x61 <= c && c <= 0x7a) || (0x41 <= c && c <= 0x5a) || c == 0x5f || c == 0x3a || (0xc0
        <= c && c <= 0xd6) || (0xd8 <= c && c <= 0xf6) || (0xf8 <= c && c <= 0x2ff) || (0x370
        <= c && c <= 0x37d) || (0x37f <= c && c <= 0x1fff) || (0x200c <= c && c <= 0x200d) || (
    0x2070 <= c && c <= 0x218f) || (0x2c00 <= c && c <= 0x2fef) || (0x3001 <= c && c <= 0xd7ff)
        || (0xf900 <= c && c <= 0xfdcf) || (0xfdf0 <= c && c <= 0xfffd) || (0x10000 <= c && c
        <= 0xeffff)
}

/// Fifth-edition `NameChar`, or the older `NameChar` when `old10`.
pub open spec fn is_name_char(c: u32, old10: bool) -> bool {
    if c == 0x20 || c == 0x3e || c == 0x2f {
        false
    } else if old10 {
        is_letter(c) || is_digit(c) || c == 0x2e || c == 0x2d || c == 0x5f || c == 0x3a
            || is_combining(c) || is_extender(c)
    } else {
        is_name_start(c, false) || (0x30 <= c <= 0x39) || c == 0x2d || c == 0x2e || c == 0xb7
            || (0x300 <= c <= 0x36f) || (0x203f <= c <= 0x2040)
    }
}

/// XML 1.0 fifth-edition `NameChar` (or the older rules when `old10`).
pub fn xml_is_name_char(c: u32, old10: bool) -> (r: bool)
    ensures
        r == is_name_char(c, old10),
{
    if c == 0x20 || c == 0x3e || c == 0x2f {
        return false;
    }
    if old10 {
        return xml_is_letter(c) || xml_is_digit(c) || c == 0x2e || c == 0x2d || c == 0x5f || c
            == 0x3a || xml_is_combining(c) || xml_is_extender(c);
    }
    xml_is_name_start_char(c, false) || (0x30 <= c && c <= 0x39) || c == 0x2d || c == 0x2e || c
        == 0xb7 || (0x300 <= c && c <= 0x36f) || (0x203f <= c && c <= 0x2040)
}

} // verus!
