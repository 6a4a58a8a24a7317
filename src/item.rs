use vstd::prelude::*;
use vstd::string::StringExecFns;

use crate::tree::{bool_text, decimal, digit_char};

verus! {

/// One scalar in its final text form, about to become the last segment of a path.
pub struct StringItem {
    raw: String,
}

impl View for StringItem {
    type V = Seq<char>;

    open spec fn view(&self) -> Seq<char> {
        self.spec_raw()
    }
}

impl StringItem {
    pub closed spec fn spec_raw(&self) -> Seq<char> {
        self.raw@
    }

    /// The item's text.
    pub fn into_string(self) -> (r: String)
        ensures
            r@ == self@,
    {
        self.raw
    }
}

fn digit_str(d: usize) -> (r: &'static str)
    requires
        d < 10,
    ensures
        r@ == seq![digit_char(d as nat)],
{
    proof {
        reveal_strlit("0");
        reveal_strlit("1");
        reveal_strlit("2");
        reveal_strlit("3");
        reveal_strlit("4");
        reveal_strlit("5");
        reveal_strlit("6");
        reveal_strlit("7");
        reveal_strlit("8");
        reveal_strlit("9");
    }
    if d == 0 { "0" } else if d == 1 { "1" } else if d == 2 { "2" } else if d == 3 { "3" }
    else if d == 4 { "4" } else if d == 5 { "5" } else if d == 6 { "6" } else if d == 7 { "7" }
    else if d == 8 { "8" } else { "9" }
}

/// Decimal text of `n`.
pub fn decimal_string(n: usize) -> (r: String)
    ensures
        r@ == decimal(n as nat),
    decreases n,
{
    if n < 10 {
        String::from_str(digit_str(n))
    } else {
        let mut s = decimal_string(n / 10);
        s.append(digit_str(n % 10));
        s
    }
}

impl StringItem {
    /// An array index: decimal, zero-based, no sign or leading zeros.
    pub fn from_index(u: usize) -> (r: Self)
        ensures
            r@ == decimal(u as nat),
    {
        StringItem { raw: decimal_string(u) }
    }

    /// A boolean as `true` or `false`.
    pub fn from_bool(b: bool) -> (r: Self)
        ensures
            r@ == bool_text(b),
    {
        proof {
            reveal_strlit("true");
            reveal_strlit("false");
        }
        let raw = if b {
            String::from_str("true")
        } else {
            String::from_str("false")
        };
        StringItem { raw }
    }

    /// A string leaf, or a number's canonical text, taken verbatim.
    pub fn from_string(raw: String) -> (r: Self)
        ensures
            r@ == raw@,
    {
        StringItem { raw }
    }
}

} // verus!
