//! Which files count as documents.

use vstd::prelude::*;
use vstd::string::StringSliceAdditionalSpecFns;
use vstd::utf8::encode_utf8_decode_utf8;

verus! {

/// The file name extensions of the documents that are indexed.
pub open spec fn names_text(extension: Seq<char>) -> bool {
    extension == "txt"@ || extension == "md"@ || extension == "pdf"@
}

/// Whether two strings hold the same characters.
pub fn same_text(a: &str, b: &str) -> (same: bool)
    ensures
        same == (a@ == b@),
{
    let x = a.as_bytes();
    let y = b.as_bytes();
    proof {
        encode_utf8_decode_utf8(a@);
        encode_utf8_decode_utf8(b@);
    }
    if x.len() != y.len() {
        return false;
    }
    let mut i: usize = 0;
    while i < x.len()
        invariant
            i <= x.len(),
            x@.len() == y@.len(),
            x@ == a.spec_bytes(),
            y@ == b.spec_bytes(),
            forall|j: int| 0 <= j < i ==> x@[j] == y@[j],
        decreases x.len() - i,
    {
        if x[i] != y[i] {
            return false;
        }
        i = i + 1;
    }
    assert(x@ =~= y@);
    true
}

/// Whether a file with this extension is a document to index: the extension
/// is `txt`, `md` or `pdf`, in lower case.
pub fn is_text_extension(extension: &str) -> (yes: bool)
    ensures
        yes == names_text(extension@),
{
    same_text(extension, "txt") || same_text(extension, "md") || same_text(extension, "pdf")
}

} // verus!
