//! Blob transaction admission.
use vstd::prelude::*;

verus! {

#[derive(Debug, Clone, Copy, PartialEq, Eq, Structural)]
pub enum BlobVerdict {
    Valid,
    TooManyBlobs,
    FeeTooLow,
    Invalid,
}

pub open spec fn validate_spec(blob_count: u8, max_fee_per_blob: u128, min_blob_fee: u128) -> BlobVerdict {
    if blob_count == 0 {
        BlobVerdict::Invalid
    } else if blob_count <= 6 {
        if max_fee_per_blob >= min_blob_fee { BlobVerdict::Valid } else { BlobVerdict::FeeTooLow }
    } else {
        BlobVerdict::TooManyBlobs
    }
}

pub fn validate(blob_count: u8, max_fee_per_blob: u128, min_blob_fee: u128) -> (r: BlobVerdict)
    ensures
        r == validate_spec(blob_count, max_fee_per_blob, min_blob_fee),
{
    if blob_count == 0 {
        BlobVerdict::Invalid
    } else if blob_count <= 6 && max_fee_per_blob >= min_blob_fee {
        BlobVerdict::Valid
    } else if blob_count <= 6 {
        BlobVerdict::FeeTooLow
    } else {
        BlobVerdict::TooManyBlobs
    }
}

} // verus!
