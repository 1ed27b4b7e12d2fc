//! The name shown for a countdown.
use vstd::prelude::*;
use vstd::string::*;
use crate::duration::{trim_text, trimmed};

verus! {

/// The decimal digits of `n`, without leading zeros.
pub open spec fn decimal(n: nat) -> Seq<char>
    decreases n,
{
    if n < 10 {
        seq![digit_char(n)]
    } else {
        decimal(n / 10).push(digit_char(n % 10))
    }
}

pub open spec fn digit_char(d: nat) -> char {
    ((d + '0' as u32) as u32) as char
}

/// The label of a countdown given no name: "任务#" followed by its id.
pub open spec fn placeholder_label(id: u64) -> Seq<char> {
    seq!['\u{4efb}', '\u{52a1}', '#'] + decimal(id as nat)
}

/// The label of a countdown: the name without surrounding white space, or
/// the placeholder when nothing is left of it.
pub open spec fn label_text(name: Seq<char>, id: u64) -> Seq<char> {
    if trimmed(name).len() == 0 {
        placeholder_label(id)
    } else {
        trimmed(name)
    }
}

/// `n` written in decimal.
pub fn decimal_text(n: u64) -> (r: String)
    ensures
        r@ == decimal(n as nat),
    decreases n,
{
    let digits = "0123456789";
    proof {
        reveal_strlit("0123456789");
    }
    let d = (n % 10) as usize;
    let one = digits.substring_char(d, d + 1);
    assert(one@ =~= seq![digit_char((n % 10) as nat)]);
    if n < 10 {
        String::from_str(one)
    } else {
        let mut r = decimal_text(n / 10);
        r.append(one);
        r
    }
}

/// The label for a countdown named `name` that gets the id `id`.
pub fn label_for(name: &str, id: u64) -> (r: String)
    ensures
        r@ == label_text(name@, id),
{
    let trimmed_name = trim_text(name);
    if trimmed_name.as_str().is_empty() {
        let mut r = String::from_str("\u{4efb}\u{52a1}#");
        proof {
            reveal_strlit("\u{4efb}\u{52a1}#");
        }
        let digits = decimal_text(id);
        r.append(digits.as_str());
        r
    } else {
        trimmed_name
    }
}

} // verus!
