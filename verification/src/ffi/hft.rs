//! The checks and the outcome mapping around a vendor tick decoder that fills a scratch
//! buffer owned by the caller.
use vstd::prelude::*;

verus! {

/// The vendor decoder's return codes.
#[derive(Debug, Clone, Copy, PartialEq, Eq, Structural)]
pub enum VendorRc {
    Success,
    NullPointer,
    BadAlignment,
    BufferTooSmall,
    UnexpectedVendorReturn,
}

/// The code a vendor return value stands for: 0, -1, -2 and -3; nothing else.
pub open spec fn vendor_rc_spec(v: i32) -> Option<VendorRc> {
    if v == 0 {
        Some(VendorRc::Success)
    } else if v == -1 {
        Some(VendorRc::NullPointer)
    } else if v == -2 {
        Some(VendorRc::BadAlignment)
    } else if v == -3 {
        Some(VendorRc::BufferTooSmall)
    } else {
        None
    }
}

impl VendorRc {
    /// Reads a vendor return value.
    pub fn from_i32(v: i32) -> (r: Option<Self>)
        ensures
            r == vendor_rc_spec(v),
    {
        if v == 0 {
            Some(VendorRc::Success)
        } else if v == -1 {
            Some(VendorRc::NullPointer)
        } else if v == -2 {
            Some(VendorRc::BadAlignment)
        } else if v == -3 {
            Some(VendorRc::BufferTooSmall)
        } else {
            None
        }
    }
}

/// The scratch words a wire buffer of `bytes` needs; none unless it is whole words.
pub fn vendor_scratch_words_for(bytes: usize) -> (r: Option<usize>)
    ensures
        bytes % 8 != 0 ==> r is None,
        bytes % 8 == 0 ==> r == Some(bytes / 8),
{
    if bytes % 8 != 0 {
        return None;
    }
    Some(bytes / 8)
}

/// The checks made before the vendor is called: the wire must be whole words and the
/// scratch must hold them all; gives the number of words.
pub fn unpack_precheck(src_len: usize, scratch_len: usize) -> (r: Result<usize, VendorRc>)
    ensures
        src_len % 8 != 0 ==> r == Err::<usize, VendorRc>(VendorRc::BadAlignment),
        src_len % 8 == 0 && src_len / 8 > scratch_len ==> r == Err::<usize, VendorRc>(
            VendorRc::BufferTooSmall,
        ),
        src_len % 8 == 0 && src_len / 8 <= scratch_len ==> r == Ok::<usize, VendorRc>(src_len / 8),
{
    if src_len % 8 != 0 {
        return Err(VendorRc::BadAlignment);
    }
    let need = src_len / 8;
    if need > scratch_len {
        return Err(VendorRc::BufferTooSmall);
    }
    Ok(need)
}

/// What the vendor's return code makes of the call: the words written on success, the
/// code it names otherwise, and an unexpected return for any other value.
pub fn unpack_outcome(rc: i32, written: usize) -> (r: Result<usize, VendorRc>)
    ensures
        match vendor_rc_spec(rc) {
            Some(VendorRc::Success) => r == Ok::<usize, VendorRc>(written),
            Some(e) => r == Err::<usize, VendorRc>(e),
            None => r == Err::<usize, VendorRc>(VendorRc::UnexpectedVendorReturn),
        },
{
    match VendorRc::from_i32(rc) {
        Some(VendorRc::Success) => Ok(written),
        Some(e) => Err(e),
        None => Err(VendorRc::UnexpectedVendorReturn),
    }
}

} // verus!
