use vstd::prelude::*;

verus! {

/// The BLAKE3 digest of a byte string.
pub uninterp spec fn blake3_digest(data: Seq<u8>) -> Seq<u8>;

/// Relies on `blake3::hash`, read out with `Hash::as_bytes`: the 32-byte digest of the input.
#[verifier::external_body]
fn blake3_bytes(data: &[u8]) -> (r: Vec<u8>)
    ensures
        r@ == blake3_digest(data@),
        r@.len() == 32,
{
    blake3::hash(data).as_bytes().to_vec()
}

/// The digest of a file's contents.
pub fn compute_file_hash(contents: &Vec<u8>) -> (r: Vec<u8>)
    ensures
        r@ == blake3_digest(contents@),
{
    blake3_bytes(contents.as_slice())
}

/// Whether two byte strings are equal.
pub fn same_bytes(a: &Vec<u8>, b: &Vec<u8>) -> (r: bool)
    ensures
        r == (a@ == b@),
{
    if a.len() != b.len() {
        return false;
    }
    let mut i: usize = 0;
    while i < a.len()
        invariant
            a@.len() == b@.len(),
            i <= a@.len(),
            forall|j: int| 0 <= j < i ==> a@[j] == b@[j],
        decreases a@.len() - i,
    {
        if a[i] != b[i] {
            return false;
        }
        i = i + 1;
    }
    assert(a@ =~= b@);
    true
}

/// Whether a generated file counts as changed, from its digests before and after it was
/// regenerated: it has, unless both exist and are equal.
pub fn digests_differ(before: &Option<Vec<u8>>, after: &Option<Vec<u8>>) -> (r: bool)
    ensures
        r == !(before is Some && after is Some && before->0@ == after->0@),
{
    match (before, after) {
        (Some(b), Some(a)) => !same_bytes(b, a),
        _ => true,
    }
}

/// Whether a generated file counts as changed, from its contents before and after it was
/// regenerated (`None` where it did not exist).
pub fn contents_changed(before: &Option<Vec<u8>>, after: &Option<Vec<u8>>) -> (r: bool)
    ensures
        r == !(before is Some && after is Some && blake3_digest(before->0@) == blake3_digest(
            after->0@,
        )),
{
    let hb = match before {
        Some(b) => Some(compute_file_hash(b)),
        None => None,
    };
    let ha = match after {
        Some(a) => Some(compute_file_hash(a)),
        None => None,
    };
    digests_differ(&hb, &ha)
}

} // verus!
