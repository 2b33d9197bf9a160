//! What a device tells about itself: Level 0 discovery and the identify data.
use vstd::prelude::*;
use crate::bytes::{be_value, lemma_be_value_bound, lemma_pow256_values, read_be};
use crate::session::OpalError;

verus! {

/// Bytes of the Level 0 discovery header before the first feature descriptor.
pub const DISCOVERY_HEADER_LEN: usize = 48;

/// The feature that reports the locking state.
pub const LOCKING_FEATURE: u16 = 0x0002;

/// The Opal SSC feature, which reports the base ComID.
pub const OPAL_FEATURE: u16 = 0x0203;

/// Where the feature descriptors of a discovery response end: the declared
/// length (which does not count its own four bytes), cut to the buffer.
pub open spec fn discovery_end(s: Seq<u8>) -> int {
    let declared = be_value(s.subrange(0, 4)) + 4;
    if declared < s.len() {
        declared as int
    } else {
        s.len() as int
    }
}

/// The offset of the first descriptor of feature `code` at or after `pos`, if one
/// lies whole before `end`. The walk stops at a descriptor that overruns `end`.
pub open spec fn feature_at(s: Seq<u8>, pos: int, end: int, code: nat) -> Option<int>
    decreases end - pos,
{
    if end > s.len() || pos + 4 > end {
        None
    } else {
        let next = pos + 4 + s[pos + 3];
        if next > end {
            None
        } else if be_value(s.subrange(pos, pos + 2)) == code {
            Some(pos)
        } else {
            feature_at(s, next, end, code)
        }
    }
}

proof fn lemma_feature_in_bounds(s: Seq<u8>, pos: int, end: int, code: nat)
    requires
        feature_at(s, pos, end, code) is Some,
    ensures
        ({
            let p = feature_at(s, pos, end, code)->0;
            0 <= pos <= p && p + 4 + s[p + 3] <= end <= s.len()
        }) || pos < 0,
    decreases end - pos,
{
    let next = pos + 4 + s[pos + 3];
    if be_value(s.subrange(pos, pos + 2)) != code {
        lemma_feature_in_bounds(s, next, end, code);
    }
}

/// The descriptor of feature `code` in a discovery response.
pub open spec fn feature_spec(s: Seq<u8>, code: nat) -> Option<int> {
    if s.len() < DISCOVERY_HEADER_LEN {
        None
    } else {
        feature_at(s, DISCOVERY_HEADER_LEN as int, discovery_end(s), code)
    }
}

/// Whether a discovery response says the device is locked: the Locked bit of the
/// locking feature, false where the device has no such feature.
pub open spec fn locked_spec(s: Seq<u8>) -> Result<bool, OpalError> {
    if s.len() < DISCOVERY_HEADER_LEN {
        Err(OpalError::ProtocolFormat)
    } else {
        match feature_spec(s, LOCKING_FEATURE as nat) {
            None => Ok(false),
            Some(p) => if s[p + 3] < 1 {
                Err(OpalError::ProtocolFormat)
            } else {
                Ok((s[p + 4] / 4) % 2 == 1)
            },
        }
    }
}

/// The base ComID that the Opal feature of a discovery response names.
pub open spec fn com_id_spec(s: Seq<u8>) -> Option<u16> {
    match feature_spec(s, OPAL_FEATURE as nat) {
        None => None,
        Some(p) => if s[p + 3] < 2 {
            None
        } else {
            Some(be_value(s.subrange(p + 4, p + 6)) as u16)
        },
    }
}

/// The offset of the descriptor of feature `code` in a discovery response.
pub fn find_feature(buf: &[u8], code: u16) -> (r: Option<usize>)
    ensures
        match r {
            None => feature_spec(buf@, code as nat) is None,
            Some(p) => feature_spec(buf@, code as nat) == Some(p as int) && p + 4 + buf@[p + 3]
                <= buf@.len(),
        },
{
    let len = buf.len();
    if len < DISCOVERY_HEADER_LEN {
        return None;
    }
    let declared = read_be(buf, 0, 4);
    proof {
        lemma_be_value_bound(buf@.subrange(0, 4));
        lemma_pow256_values();
    }
    let end: usize = if declared + 4 < len as u64 {
        (declared + 4) as usize
    } else {
        len
    };
    let mut pos: usize = DISCOVERY_HEADER_LEN;
    if end < pos {
        return None;
    }
    while end - pos >= 4
        invariant
            pos <= end,
            end == discovery_end(buf@),
            end <= len == buf@.len(),
            DISCOVERY_HEADER_LEN <= pos,
            feature_spec(buf@, code as nat) == feature_at(buf@, pos as int, end as int, code as nat),
        decreases end - pos,
    {
        let flen = buf[pos + 3] as usize;
        if flen > end - pos - 4 {
            return None;
        }
        let next = pos + 4 + flen;
        let c = read_be(buf, pos, 2);
        if c == code as u64 {
            proof {
                lemma_feature_in_bounds(buf@, pos as int, end as int, code as nat);
            }
            return Some(pos);
        }
        pos = next;
    }
    None
}

/// Whether a discovery response says that the device is locked.
pub fn locked_from_discovery(buf: &[u8]) -> (r: Result<bool, OpalError>)
    ensures
        r == locked_spec(buf@),
{
    if buf.len() < DISCOVERY_HEADER_LEN {
        return Err(OpalError::ProtocolFormat);
    }
    match find_feature(buf, LOCKING_FEATURE) {
        None => Ok(false),
        Some(p) => {
            if buf[p + 3] < 1 {
                Err(OpalError::ProtocolFormat)
            } else {
                Ok((buf[p + 4] / 4) % 2 == 1)
            }
        },
    }
}

/// The base ComID that a discovery response names for Opal traffic.
pub fn com_id_from_discovery(buf: &[u8]) -> (r: Option<u16>)
    ensures
        r == com_id_spec(buf@),
{
    if buf.len() < DISCOVERY_HEADER_LEN {
        return None;
    }
    match find_feature(buf, OPAL_FEATURE) {
        None => None,
        Some(p) => {
            if buf[p + 3] < 2 {
                None
            } else {
                let v = read_be(buf, p + 4, 2);
                proof {
                    lemma_be_value_bound(buf@.subrange(p + 4, p + 6));
                    lemma_pow256_values();
                }
                Some(v as u16)
            }
        },
    }
}

/// The serial number field (bytes 4 to 23) of NVMe Identify Controller data.
pub fn serial_from_identify(data: &[u8]) -> (r: Option<Vec<u8>>)
    ensures
        data@.len() < 24 ==> r is None,
        data@.len() >= 24 ==> (r matches Some(v) && v@ == data@.subrange(4, 24)),
{
    if data.len() < 24 {
        None
    } else {
        let part = vstd::slice::slice_subrange(data, 4, 24);
        Some(vstd::slice::slice_to_vec(part))
    }
}

} // verus!
