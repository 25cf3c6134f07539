//! Target address records: the read-only inputs a search run is configured
//! from, with their validation.

use vstd::prelude::*;
use crate::derive::{
    derive_address, derive_public_key, hex_digit, hex_val, is_hex_seq, parse_hex_scalar,
    scheme_address, PointScheme,
};

verus! {

/// One target record: an encoded address, the bit width of the keyspace
/// segment its key is known to live in, the private key in hexadecimal once
/// known, and whether the record is already solved. Records are loaded once
/// and never mutated by the search engine; a find is reported upward instead
/// of being written back.
pub struct AddressRecord {
    pub address: String,
    pub bit_range: u32,
    pub private_key_hex: String,
    pub solved: bool,
}

impl AddressRecord {
    /// A well-formed record: a nonempty address, a positive bit range, and —
    /// for a solved record — a nonempty hexadecimal private key.
    pub open spec fn wf(&self) -> bool {
        &&& self.address@.len() >= 1
        &&& 1 <= self.bit_range
        &&& self.solved ==> is_hex_seq(self.private_key_hex@)
    }

    /// Validates one record as it is loaded; a record this refuses is
    /// skipped, not fatal to the whole load.
    pub fn is_valid(&self) -> (r: bool)
        ensures
            r == self.wf(),
    {
        if self.address.as_str().is_empty() {
            return false;
        }
        if self.bit_range < 1 {
            return false;
        }
        if !self.solved {
            return true;
        }
        let hex = self.private_key_hex.as_str();
        let len = hex.unicode_len();
        if len == 0 {
            return false;
        }
        let mut i: usize = 0;
        while i < len
            invariant
                self.solved,
                self.address@.len() >= 1,
                self.bit_range >= 1,
                i <= len,
                len >= 1,
                len == hex@.len(),
                hex@ == self.private_key_hex@,
                forall|t: int| 0 <= t < i ==> (#[trigger] hex_digit(hex@[t])) is Some,
            decreases len - i,
        {
            let c = hex.get_char(i);
            if !is_hex_digit_char(c) {
                proof {
                    assert(hex_digit(self.private_key_hex@[i as int]) is None);
                }
                return false;
            }
            i = i + 1;
        }
        true
    }
}

/// Checks the record invariant of a solved record: its private key must be a
/// valid in-range scalar whose derived address reproduces the record's
/// address exactly.
pub fn record_consistent<S: PointScheme>(scheme: &S, record: &AddressRecord) -> (r: bool)
    ensures
        r == (is_hex_seq(record.private_key_hex@) && 1 <= hex_val(record.private_key_hex@)
            < scheme.order_spec() && scheme_address(scheme, hex_val(record.private_key_hex@))
            == record.address@),
{
    let scalar = match parse_hex_scalar(record.private_key_hex.as_str()) {
        Some(s) => s,
        None => {
            return false;
        },
    };
    let point = match derive_public_key(scheme, &scalar) {
        Ok(p) => p,
        Err(_) => {
            return false;
        },
    };
    let derived = derive_address(&point);
    derived == record.address
}

/// Whether one character is a hexadecimal digit.
fn is_hex_digit_char(c: char) -> (r: bool)
    ensures
        r == (hex_digit(c) is Some),
{
    matches!(c, '0'..='9' | 'a'..='f' | 'A'..='F')
}

} // verus!
