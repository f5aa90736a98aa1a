use vstd::prelude::*;
use vstd::string::StringSliceAdditionalSpecFns;

verus! {

/// One mebibyte.
pub const MB: usize = 1024 * 1024;

/// One gibibyte.
pub const GB: usize = 1024 * MB;

/// How a ROM is generated with the two-step method: from a key, a
/// pre-buffer of `pre_size` bytes is mixed `mixing_numbers` times into a ROM
/// of `size` bytes.
#[derive(Debug, Clone)]
pub struct RomParams {
    pub key: Vec<u8>,
    pub pre_size: usize,
    pub mixing_numbers: usize,
    pub size: usize,
}

/// The ROM of a challenge: keyed by the bytes of its `no_pre_mine` field,
/// a 16 MiB pre-buffer mixed 4 times into 1 GiB.
pub fn init_rom_params(no_pre_mine_hex: &str) -> (p: RomParams)
    ensures
        p.key@ == no_pre_mine_hex.spec_bytes(),
        p.pre_size == 16 * MB,
        p.mixing_numbers == 4,
        p.size == GB,
{
    let bytes = no_pre_mine_hex.as_bytes();
    let mut key: Vec<u8> = Vec::new();
    let mut i: usize = 0;
    while i < bytes.len()
        invariant
            i <= bytes@.len(),
            key@ == bytes@.take(i as int),
        decreases bytes@.len() - i,
    {
        key.push(bytes[i]);
        assert(bytes@.take(i + 1) =~= bytes@.take(i as int).push(bytes@[i as int]));
        i = i + 1;
    }
    assert(bytes@.take(bytes@.len() as int) =~= bytes@);
    RomParams { key, pre_size: 16 * MB, mixing_numbers: 4, size: GB }
}

} // verus!
