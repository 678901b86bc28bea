//! The system page's get-info payload.

use vstd::prelude::*;
use vstd::string::StringSliceAdditionalSpecFns;

use crate::heapless_vec::{payload_bytes, payload_from_slice};

verus! {

pub const INFO_SCHEMA_VERSION: u8 = 1;

pub const PROTOCOL_MAJOR: u8 = 1;

/// Protocol 1.0 forwards raw ASIC RX bytes and exposes receive-loss counters
/// through the system control page.
pub const PROTOCOL_MINOR: u8 = 0;

pub const VERSION_MAX_LENGTH: usize = 63;

#[derive(Debug, PartialEq, Eq, Structural)]
pub enum EncodeError {
    EmptyVersion,
    VersionTooLong,
    VersionNotPrintableAscii,
}

/// A byte of printable ASCII, space through tilde.
pub open spec fn is_printable_ascii(byte: u8) -> bool {
    0x20 <= byte <= 0x7e
}

/// The get-info payload for a version string of bytes `version`: schema
/// version, protocol major and minor, the version length, then the version.
pub open spec fn info_payload(version: Seq<u8>) -> Seq<u8> {
    seq![INFO_SCHEMA_VERSION, PROTOCOL_MAJOR, PROTOCOL_MINOR, version.len() as u8] + version
}

/// What `encode` answers for a version string of bytes `version`.
pub open spec fn encode_result(version: Seq<u8>) -> Result<Seq<u8>, EncodeError> {
    if version.len() == 0 {
        Err(EncodeError::EmptyVersion)
    } else if version.len() > VERSION_MAX_LENGTH {
        Err(EncodeError::VersionTooLong)
    } else if exists|i: int| 0 <= i < version.len() && !is_printable_ascii(#[trigger] version[i]) {
        Err(EncodeError::VersionNotPrintableAscii)
    } else {
        Ok(info_payload(version))
    }
}

/// A get-info payload reads back as its header and the version: four header
/// bytes, the version length at byte 3 and the version from byte 4 on.
pub proof fn lemma_info_payload_fields(version: Seq<u8>)
    requires
        version.len() <= VERSION_MAX_LENGTH,
    ensures
        ({
            let p = info_payload(version);
            &&& p.len() == version.len() + 4
            &&& p[0] == INFO_SCHEMA_VERSION
            &&& p[1] == PROTOCOL_MAJOR
            &&& p[2] == PROTOCOL_MINOR
            &&& p[3] == version.len()
            &&& p.subrange(4, p.len() as int) == version
        }),
{
    assert(info_payload(version).subrange(4, version.len() + 4int) =~= version);
}

/// The payload is only ever built from a version of 1 to 63 bytes that are
/// all printable ASCII (0x20..=0x7e); a version of acceptable length with an
/// unprintable byte anywhere is refused as such, and the payload carries the
/// version's bytes unchanged after its length.
pub proof fn lemma_encode_accepts_only_printable_versions(version: Seq<u8>)
    ensures
        encode_result(version) is Ok ==> {
            &&& 1 <= version.len() <= 63
            &&& forall|i: int| 0 <= i < version.len() ==> 0x20 <= #[trigger] version[i] <= 0x7e
            &&& encode_result(version)->Ok_0.subrange(4, version.len() + 4int) == version
            &&& encode_result(version)->Ok_0[3] == version.len()
        },
        (1 <= version.len() <= 63 && exists|i: int| 0 <= i < version.len() && !(0x20 <= #[trigger] version[i] <= 0x7e))
            ==> encode_result(version) == Err::<Seq<u8>, EncodeError>(EncodeError::VersionNotPrintableAscii),
{
    if encode_result(version) is Ok {
        assert forall|i: int| 0 <= i < version.len() implies 0x20 <= #[trigger] version[i] <= 0x7e by {
            assert(is_printable_ascii(version[i]));
        }
        assert(info_payload(version).subrange(4, version.len() + 4int) =~= version);
    }
    if 1 <= version.len() <= 63 && exists|i: int| 0 <= i < version.len() && !(0x20 <= #[trigger] version[i] <= 0x7e) {
        let i = choose|i: int| 0 <= i < version.len() && !(0x20 <= #[trigger] version[i] <= 0x7e);
        assert(!is_printable_ascii(version[i]));
    }
}

pub fn encode(version: &str) -> (r: Result<heapless::Vec<u8, 256>, EncodeError>)
    ensures
        match encode_result(version.spec_bytes()) {
            Ok(payload) => r is Ok && payload_bytes(r->Ok_0) == payload,
            Err(e) => r == Err::<heapless::Vec<u8, 256>, EncodeError>(e),
        },
        r is Ok ==> forall|i: int| 0 <= i < version.spec_bytes().len()
            ==> 0x20 <= #[trigger] version.spec_bytes()[i] <= 0x7e,
        r is Ok ==> 1 <= version.spec_bytes().len() <= 63,
        1 <= version.spec_bytes().len() <= 63 && (exists|i: int| 0 <= i < version.spec_bytes().len()
            && !(0x20 <= #[trigger] version.spec_bytes()[i] <= 0x7e))
            ==> r == Err::<heapless::Vec<u8, 256>, EncodeError>(EncodeError::VersionNotPrintableAscii),
{
    let bytes = version.as_bytes();
    if bytes.len() == 0 {
        return Err(EncodeError::EmptyVersion);
    }
    if version.len() > VERSION_MAX_LENGTH {
        return Err(EncodeError::VersionTooLong);
    }
    let mut i: usize = 0;
    while i < bytes.len()
        invariant
            i <= bytes@.len(),
            0 < bytes@.len() <= VERSION_MAX_LENGTH,
            bytes@ == version.spec_bytes(),
            forall|j: int| 0 <= j < i ==> is_printable_ascii(#[trigger] bytes@[j]),
        decreases bytes@.len() - i,
    {
        let byte = bytes[i];
        if !(0x20 <= byte && byte <= 0x7e) {
            assert(!is_printable_ascii(version.spec_bytes()[i as int]));
            return Err(EncodeError::VersionNotPrintableAscii);
        }
        i += 1;
    }

    let len = bytes.len();
    let mut payload = [0u8; 67];
    payload[0] = INFO_SCHEMA_VERSION;
    payload[1] = PROTOCOL_MAJOR;
    payload[2] = PROTOCOL_MINOR;
    payload[3] = len as u8;
    let ghost header = seq![INFO_SCHEMA_VERSION, PROTOCOL_MAJOR, PROTOCOL_MINOR, len as u8];
    let mut k: usize = 0;
    while k < len
        invariant
            k <= len,
            len == bytes@.len(),
            len <= VERSION_MAX_LENGTH,
            header == seq![INFO_SCHEMA_VERSION, PROTOCOL_MAJOR, PROTOCOL_MINOR, bytes@.len() as u8],
            payload@.subrange(0, k + 4) == header + bytes@.subrange(0, k as int),
        decreases len - k,
    {
        let ghost before = payload@;
        payload[k + 4] = bytes[k];
        k += 1;
        assert(payload@.subrange(0, k + 4) =~= before.subrange(0, k + 3).push(bytes@[k - 1]));
        assert(bytes@.subrange(0, k as int) =~= bytes@.subrange(0, (k - 1) as int).push(bytes@[k - 1]));
    }
    assert(bytes@.subrange(0, bytes@.len() as int) =~= bytes@);
    let all = payload.as_slice();
    Ok(payload_from_slice(&all[0..len + 4]).unwrap())
}

} // verus!
