use vstd::prelude::*;

verus! {

/// Opaque identifier of a registered application.
#[derive(Clone, Debug)]
pub struct AppId {
    pub bytes: Vec<u8>,
}

impl View for AppId {
    type V = Seq<u8>;

    open spec fn view(&self) -> Seq<u8> {
        self.bytes@
    }
}

/// Key of a directory in the networked tree.
#[derive(Clone, Debug)]
pub struct DirKey {
    pub bytes: Vec<u8>,
}

impl View for DirKey {
    type V = Seq<u8>;

    open spec fn view(&self) -> Seq<u8> {
        self.bytes@
    }
}

/// Byte-wise equality of two byte vectors.
pub fn same_bytes(a: &Vec<u8>, b: &Vec<u8>) -> (r: bool)
    ensures
        r == (a@ == b@),
{
    if a.len() != b.len() {
        return false;
    }
    let mut i: usize = 0;
    while i < a.len()
        invariant
            a@.len() == b@.len(),
            i <= a@.len(),
            forall|k: int| 0 <= k < i ==> a@[k] == b@[k],
        decreases a@.len() - i,
    {
        if a[i] != b[i] {
            return false;
        }
        i = i + 1;
    }
    assert(a@ =~= b@);
    true
}

/// A fresh vector with the same bytes.
pub fn copy_bytes(a: &Vec<u8>) -> (r: Vec<u8>)
    ensures
        r@ == a@,
{
    let mut r: Vec<u8> = Vec::new();
    let mut i: usize = 0;
    while i < a.len()
        invariant
            i <= a@.len(),
            r@ == a@.subrange(0, i as int),
        decreases a@.len() - i,
    {
        r.push(a[i]);
        i = i + 1;
        assert(r@ =~= a@.subrange(0, i as int));
    }
    assert(r@ =~= a@);
    r
}

impl AppId {
    /// An identifier with the same bytes.
    pub fn copy(&self) -> (r: AppId)
        ensures
            r@ == self@,
    {
        AppId { bytes: copy_bytes(&self.bytes) }
    }

    pub fn new(bytes: Vec<u8>) -> (r: AppId)
        ensures
            r@ == bytes@,
    {
        AppId { bytes }
    }

    pub fn same_as(&self, other: &AppId) -> (r: bool)
        ensures
            r == (self@ == other@),
    {
        same_bytes(&self.bytes, &other.bytes)
    }
}

impl DirKey {
    /// A key with the same bytes.
    pub fn copy(&self) -> (r: DirKey)
        ensures
            r@ == self@,
    {
        DirKey { bytes: copy_bytes(&self.bytes) }
    }

    pub fn new(bytes: Vec<u8>) -> (r: DirKey)
        ensures
            r@ == bytes@,
    {
        DirKey { bytes }
    }
}

} // verus!
