use vstd::prelude::*;
use vstd::string::StrSliceExecFns;

verus! {

/// The Unicode `White_Space` property.
pub open spec fn is_white_space(c: char) -> bool {
    let u = c as u32;
    (0x9 <= u && u <= 0xd) || u == 0x20 || u == 0x85 || u == 0xa0 || u == 0x1680 || (0x2000 <= u
        && u <= 0x200a) || u == 0x2028 || u == 0x2029 || u == 0x202f || u == 0x205f || u == 0x3000
}

/// A name is blank when trimming its surrounding white space leaves nothing:
/// it is empty or white space throughout.
pub open spec fn blank(s: Seq<char>) -> bool {
    forall|i: int| 0 <= i < s.len() ==> #[trigger] is_white_space(s[i])
}

/// Relies on `char::is_whitespace`, which std documents as the Unicode
/// `White_Space` property.
#[verifier::external_body]
fn char_is_whitespace(c: char) -> (r: bool)
    ensures
        r == is_white_space(c),
{
    c.is_whitespace()
}

/// Whether `s` is empty or white space throughout.
pub fn is_blank(s: &str) -> (r: bool)
    ensures
        r == blank(s@),
{
    let n = s.unicode_len();
    let mut i: usize = 0;
    while i < n
        invariant
            n == s@.len(),
            0 <= i <= n,
            forall|j: int| 0 <= j < i ==> #[trigger] is_white_space(s@[j]),
        decreases n - i,
    {
        let c = s.get_char(i);
        if !char_is_whitespace(c) {
            return false;
        }
        i = i + 1;
    }
    true
}

} // verus!
