//! Parsing of configuration values: mapping a pattern name to the occupation
//! pattern it selects.

use vstd::prelude::*;

verus! {

use vstd::string::StrSliceExecFns;

use crate::dipolar::Pattern;

/// Code point of `c` with an ASCII upper-case letter folded to lower case.
pub open spec fn lower_char_val(c: char) -> int {
    if 65 <= c as int <= 90 {
        c as int + 32
    } else {
        c as int
    }
}

/// Whether `s`, folded to ASCII lower case, spells exactly `t`.
pub open spec fn matches_lower(s: Seq<char>, t: Seq<char>) -> bool {
    &&& s.len() == t.len()
    &&& forall|i: int| 0 <= i < s.len() ==> lower_char_val(s[i]) == t[i] as int
}

/// The occupation pattern a configuration string selects, compared without
/// regard to letter case; an unrecognized name selects the filled pattern.
pub open spec fn spec_parse_pattern(s: Seq<char>) -> Pattern {
    if matches_lower(s, "cb"@) {
        Pattern::CB
    } else if matches_lower(s, "hstripe"@) {
        Pattern::HStripe
    } else {
        Pattern::Filled
    }
}

/// Compare `s` against the (lower-case) name `t`, folding ASCII upper-case
/// letters of `s` to lower case.
fn eq_folded_lower(s: &str, t: &str) -> (b: bool)
    ensures
        b == matches_lower(s@, t@),
{
    let n = s.unicode_len();
    if n != t.unicode_len() {
        return false;
    }
    let mut i: usize = 0;
    while i < n
        invariant
            i <= n,
            n == s@.len(),
            s@.len() == t@.len(),
            forall|j: int| 0 <= j < i ==> lower_char_val(s@[j]) == t@[j] as int,
        decreases n - i,
    {
        let c = s.get_char(i) as u32;
        let d = t.get_char(i) as u32;
        let folded = if 65 <= c && c <= 90 {
            c + 32
        } else {
            c
        };
        if folded != d {
            return false;
        }
        i = i + 1;
    }
    true
}

/// Select the occupation pattern named by a configuration string,
/// disregarding letter case; any unrecognized name falls back to the filled
/// pattern.
pub fn parse_pattern_str(pattern_str: String) -> (patt: Pattern)
    ensures
        patt == spec_parse_pattern(pattern_str@),
{
    let s = pattern_str.as_str();
    if eq_folded_lower(s, "cb") {
        Pattern::CB
    } else if eq_folded_lower(s, "hstripe") {
        Pattern::HStripe
    } else {
        Pattern::Filled
    }
}

} // verus!
