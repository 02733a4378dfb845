//! The library's version as the loader sees it: four 16-bit words packed in
//! a `u64`, `MAJOR << 48 | MINOR << 32 | PATCH << 16 | REVISION`.
use vstd::prelude::*;

verus! {

pub const VERSION_MAJOR: u16 = 0;
pub const VERSION_MINOR: u16 = 1;
pub const VERSION_PATCH: u16 = 0;
pub const DLL_REVISION: u16 = 3;

/// The packed value of a version.
pub open spec fn packed_version(major: u16, minor: u16, patch: u16, revision: u16) -> nat {
    major as nat * 0x1_0000_0000_0000 + minor as nat * 0x1_0000_0000 + patch as nat * 0x1_0000 + revision as nat
}

/// Packs a version into four 16-bit words.
pub fn pack_version(major: u16, minor: u16, patch: u16, revision: u16) -> (r: u64)
    ensures
        r as nat == packed_version(major, minor, patch, revision),
{
    major as u64 * 0x1_0000_0000_0000 + minor as u64 * 0x1_0000_0000 + patch as u64 * 0x1_0000 + revision as u64
}

/// This library's packed version.
pub fn get_version() -> (r: u64)
    ensures
        r as nat == packed_version(VERSION_MAJOR, VERSION_MINOR, VERSION_PATCH, DLL_REVISION),
{
    pack_version(VERSION_MAJOR, VERSION_MINOR, VERSION_PATCH, DLL_REVISION)
}

/// 0 when this library's version equals `version`, -1 when it is older, 1
/// when it is newer.
pub fn compare_version(version: u64) -> (r: i32)
    ensures
        ({
            let ours = packed_version(VERSION_MAJOR, VERSION_MINOR, VERSION_PATCH, DLL_REVISION);
            r == if ours == version as nat {
                0i32
            } else if ours < version as nat {
                -1i32
            } else {
                1i32
            }
        }),
{
    let ours = get_version();
    if ours == version {
        0
    } else if ours < version {
        -1
    } else {
        1
    }
}

} // verus!
