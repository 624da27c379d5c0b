use vstd::prelude::*;

verus! {

/// The 64-bit SeaHash of the bytes `b`.
pub uninterp spec fn seahash_of(b: Seq<u8>) -> u64;

/// Relies on `seahash::hash`: the SeaHash of a buffer, a function of its bytes alone.
#[verifier::external_body]
fn seahash_hash(b: &[u8]) -> (r: u64)
    ensures
        r == seahash_of(b@),
{
    seahash::hash(b)
}

/// The eight bytes of `h`, most significant first.
pub open spec fn be_bytes(h: u64) -> Seq<u8> {
    seq![
        (h >> 56u64) as u8,
        (h >> 48u64) as u8,
        (h >> 40u64) as u8,
        (h >> 32u64) as u8,
        (h >> 24u64) as u8,
        (h >> 16u64) as u8,
        (h >> 8u64) as u8,
        h as u8,
    ]
}

/// The integer whose eight bytes, most significant first, are `b`.
pub open spec fn be_value(b: Seq<u8>) -> u64
    recommends
        b.len() == 8,
{
    ((b[0] as u64) << 56u64) | ((b[1] as u64) << 48u64) | ((b[2] as u64) << 40u64) | ((b[3] as u64)
        << 32u64) | ((b[4] as u64) << 24u64) | ((b[5] as u64) << 16u64) | ((b[6] as u64) << 8u64) | (
    b[7] as u64)
}

/// The content hash of an asset.
#[derive(Clone, Copy, Debug, PartialEq, Eq, Structural, PartialOrd, Ord, Hash)]
pub struct Seahash {
    hash: u64,
}

impl Seahash {
    /// The hash's value.
    pub closed spec fn value(self) -> u64 {
        self.hash
    }

    /// The hash with the value `hash`.
    pub fn from_raw(hash: u64) -> (r: Seahash)
        ensures
            r.value() == hash,
    {
        Seahash { hash }
    }

    /// The hash's value.
    pub fn raw(self) -> (r: u64)
        ensures
            r == self.value(),
    {
        self.hash
    }

    /// The SeaHash of `buf`.
    pub fn from_bytes(buf: &[u8]) -> (r: Seahash)
        ensures
            r.value() == seahash_of(buf@),
    {
        Seahash { hash: seahash_hash(buf) }
    }

    /// The stored form: eight bytes, most significant first.
    pub fn to_blob(self) -> (r: Vec<u8>)
        ensures
            r@ == be_bytes(self.value()),
    {
        let h = self.hash;
        let r = vec![
            (h >> 56u64) as u8,
            (h >> 48u64) as u8,
            (h >> 40u64) as u8,
            (h >> 32u64) as u8,
            (h >> 24u64) as u8,
            (h >> 16u64) as u8,
            (h >> 8u64) as u8,
            h as u8,
        ];
        assert(r@ =~= be_bytes(h));
        r
    }

    /// Reads the stored form back: `None` unless there are exactly eight bytes.
    pub fn from_blob(b: &[u8]) -> (r: Option<Seahash>)
        ensures
            b@.len() != 8 ==> r is None,
            b@.len() == 8 ==> (r matches Some(h) && h.value() == be_value(b@)),
    {
        if b.len() != 8 {
            return None;
        }
        let v = ((b[0] as u64) << 56u64) | ((b[1] as u64) << 48u64) | ((b[2] as u64) << 40u64) | ((
        b[3] as u64) << 32u64) | ((b[4] as u64) << 24u64) | ((b[5] as u64) << 16u64) | ((b[6] as u64)
            << 8u64) | (b[7] as u64);
        Some(Seahash { hash: v })
    }
}

} // verus!
