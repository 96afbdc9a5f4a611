//! Plain-value forms of the chain identifiers the client's logic reads:
//! request identifiers and account identifiers (32 bytes), Bitcoin output
//! script digests (20 bytes), and little-endian transaction hashes.

use vstd::prelude::*;

use crate::error::Error;

verus! {

/// Byte-for-byte equality of two vectors.
pub fn bytes_eq(a: &Vec<u8>, b: &Vec<u8>) -> (r: bool)
    ensures
        r == (a@ == b@),
{
    if a.len() != b.len() {
        proof {
            assert(a@ != b@);
        }
        return false;
    }
    let n = a.len();
    let mut i: usize = 0;
    while i < n
        invariant
            n == a.len() == b.len(),
            i <= n,
            forall|j: int| 0 <= j < i ==> a@[j] == b@[j],
        decreases n - i,
    {
        if a[i] != b[i] {
            return false;
        }
        i += 1;
    }
    proof {
        assert(a@ =~= b@);
    }
    true
}

/// A copy of a byte vector with the same contents.
pub fn bytes_clone(a: &Vec<u8>) -> (r: Vec<u8>)
    ensures
        r@ == a@,
{
    let n = a.len();
    let mut out: Vec<u8> = Vec::new();
    let mut i: usize = 0;
    while i < n
        invariant
            n == a.len(),
            i <= n,
            out@ =~= a@.take(i as int),
        decreases n - i,
    {
        out.push(a[i]);
        i += 1;
    }
    proof {
        assert(out@ =~= a@);
    }
    out
}

/// The 32-byte identifier the parachain assigns to every issue, redeem,
/// replace and refund request.
#[derive(Debug)]
pub struct RequestId {
    pub bytes: Vec<u8>,
}

impl View for RequestId {
    type V = Seq<u8>;

    open spec fn view(&self) -> Seq<u8> {
        self.bytes@
    }
}

impl RequestId {
    pub open spec fn wf(&self) -> bool {
        self@.len() == 32
    }

    pub fn new(bytes: Vec<u8>) -> (r: Result<RequestId, Error>)
        ensures
            r is Ok <==> bytes@.len() == 32,
            r matches Ok(id) ==> id@ == bytes@ && id.wf(),
    {
        if bytes.len() == 32 {
            Ok(RequestId { bytes })
        } else {
            Err(Error::InvalidIdLength)
        }
    }

    pub fn eq_id(&self, other: &RequestId) -> (r: bool)
        ensures
            r == (self@ == other@),
    {
        bytes_eq(&self.bytes, &other.bytes)
    }

    pub fn clone_id(&self) -> (r: RequestId)
        ensures
            r@ == self@,
    {
        RequestId { bytes: bytes_clone(&self.bytes) }
    }
}

/// The 32-byte parachain identity of a vault or user.
#[derive(Debug)]
pub struct AccountId {
    pub bytes: Vec<u8>,
}

impl View for AccountId {
    type V = Seq<u8>;

    open spec fn view(&self) -> Seq<u8> {
        self.bytes@
    }
}

impl AccountId {
    pub open spec fn wf(&self) -> bool {
        self@.len() == 32
    }

    pub fn new(bytes: Vec<u8>) -> (r: Result<AccountId, Error>)
        ensures
            r is Ok <==> bytes@.len() == 32,
            r matches Ok(id) ==> id@ == bytes@ && id.wf(),
    {
        if bytes.len() == 32 {
            Ok(AccountId { bytes })
        } else {
            Err(Error::InvalidIdLength)
        }
    }

    pub fn eq_id(&self, other: &AccountId) -> (r: bool)
        ensures
            r == (self@ == other@),
    {
        bytes_eq(&self.bytes, &other.bytes)
    }

    pub fn clone_id(&self) -> (r: AccountId)
        ensures
            r@ == self@,
    {
        AccountId { bytes: bytes_clone(&self.bytes) }
    }
}

/// A 20-byte output script digest (P2PKH or P2WPKH), the deposit address
/// form the vault registry tracks.
#[derive(Debug)]
pub struct BtcAddress {
    pub bytes: Vec<u8>,
}

impl View for BtcAddress {
    type V = Seq<u8>;

    open spec fn view(&self) -> Seq<u8> {
        self.bytes@
    }
}

impl BtcAddress {
    pub open spec fn wf(&self) -> bool {
        self@.len() == 20
    }

    pub fn new(bytes: Vec<u8>) -> (r: Result<BtcAddress, Error>)
        ensures
            r is Ok <==> bytes@.len() == 20,
            r matches Ok(a) ==> a@ == bytes@ && a.wf(),
    {
        if bytes.len() == 20 {
            Ok(BtcAddress { bytes })
        } else {
            Err(Error::InvalidAddressLength)
        }
    }

    pub fn eq_addr(&self, other: &BtcAddress) -> (r: bool)
        ensures
            r == (self@ == other@),
    {
        bytes_eq(&self.bytes, &other.bytes)
    }

    pub fn clone_addr(&self) -> (r: BtcAddress)
        ensures
            r@ == self@,
    {
        BtcAddress { bytes: bytes_clone(&self.bytes) }
    }
}

/// A 32-byte transaction hash in little-endian byte order, the form the
/// parachain's relay expects.
#[derive(Debug)]
pub struct H256Le {
    pub bytes: Vec<u8>,
}

impl View for H256Le {
    type V = Seq<u8>;

    open spec fn view(&self) -> Seq<u8> {
        self.bytes@
    }
}

impl H256Le {
    pub open spec fn wf(&self) -> bool {
        self@.len() == 32
    }

    /// The hash with the given little-endian bytes, kept as they come.
    pub fn from_bytes_le(bytes: Vec<u8>) -> (r: Result<H256Le, Error>)
        ensures
            r is Ok <==> bytes@.len() == 32,
            r matches Ok(h) ==> h@ == bytes@ && h.wf(),
    {
        if bytes.len() == 32 {
            Ok(H256Le { bytes })
        } else {
            Err(Error::InvalidIdLength)
        }
    }

    pub fn clone_hash(&self) -> (r: H256Le)
        ensures
            r@ == self@,
    {
        H256Le { bytes: bytes_clone(&self.bytes) }
    }
}

} // verus!
