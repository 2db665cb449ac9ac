//! Human readable presentation of descriptors: a pure formatting layer,
//! no I/O and no failure.

use vstd::prelude::*;
use vstd::string::StringExecFns;
use crate::arch::Arch;
use crate::arch::spec_display_name;

verus! {

/// The character of one decimal digit.
pub open spec fn spec_digit_char(d: int) -> char {
    if d == 0 {
        '0'
    } else if d == 1 {
        '1'
    } else if d == 2 {
        '2'
    } else if d == 3 {
        '3'
    } else if d == 4 {
        '4'
    } else if d == 5 {
        '5'
    } else if d == 6 {
        '6'
    } else if d == 7 {
        '7'
    } else if d == 8 {
        '8'
    } else {
        '9'
    }
}

/// Decimal notation of a non-negative number, most significant digit first.
pub open spec fn spec_dec(n: int) -> Seq<char>
    recommends
        n >= 0,
    decreases n,
{
    if n < 10 {
        seq![spec_digit_char(n)]
    } else {
        spec_dec(n / 10).push(spec_digit_char(n % 10))
    }
}

/// The one-character string of one decimal digit.
fn digit_str(d: u32) -> (r: &'static str)
    requires
        d < 10,
    ensures
        r@ == seq![spec_digit_char(d as int)],
{
    proof {
        reveal_strlit("0");
        reveal_strlit("1");
        reveal_strlit("2");
        reveal_strlit("3");
        reveal_strlit("4");
        reveal_strlit("5");
        reveal_strlit("6");
        reveal_strlit("7");
        reveal_strlit("8");
        reveal_strlit("9");
    }
    let r = if d == 0 {
        "0"
    } else if d == 1 {
        "1"
    } else if d == 2 {
        "2"
    } else if d == 3 {
        "3"
    } else if d == 4 {
        "4"
    } else if d == 5 {
        "5"
    } else if d == 6 {
        "6"
    } else if d == 7 {
        "7"
    } else if d == 8 {
        "8"
    } else {
        "9"
    };
    proof {
        assert(r@ =~= seq![spec_digit_char(d as int)]);
    }
    r
}

/// Renders a number in decimal.
pub fn u32_dec_string(n: u32) -> (r: String)
    ensures
        r@ == spec_dec(n as int),
    decreases n,
{
    if n < 10 {
        String::from_str(digit_str(n))
    } else {
        let mut s = u32_dec_string(n / 10);
        s.append(digit_str(n % 10));
        proof {
            assert(s@ =~= spec_dec(n as int));
        }
        s
    }
}

/// What the rendering of one descriptor spells: family name, subtype in
/// decimal, offset and size in decimal, and the alignment exponent as a
/// power of two.
pub open spec fn spec_arch_info(a: Arch) -> Seq<char> {
    "architecture: "@ + spec_display_name(a.cpu_type) + "\nCPU sub type: "@ + spec_dec(
        a.cpu_sub_type as int,
    ) + "\nOffset: "@ + spec_dec(a.offset as int) + "\nSize: "@ + spec_dec(a.size as int)
        + "\nAlign: 2^"@ + spec_dec(a.align as int) + "\n"@
}

impl Arch {
    /// Renders this descriptor for human display.
    pub fn info_string(&self) -> (r: String)
        ensures
            r@ == spec_arch_info(*self),
    {
        let mut s = String::from_str("architecture: ");
        let name = self.cpu_arch_string();
        s.append(name.as_str());
        s.append("\nCPU sub type: ");
        let sub = u32_dec_string(self.cpu_sub_type);
        s.append(sub.as_str());
        s.append("\nOffset: ");
        let off = u32_dec_string(self.offset);
        s.append(off.as_str());
        s.append("\nSize: ");
        let size = u32_dec_string(self.size);
        s.append(size.as_str());
        s.append("\nAlign: 2^");
        let align = u32_dec_string(self.align);
        s.append(align.as_str());
        s.append("\n");
        proof {
            assert(s@ =~= spec_arch_info(*self));
        }
        s
    }
}

} // verus!
