//! Cartridges: a 17-byte magic text, three version bytes, then the program's
//! words, little-endian.
use vstd::prelude::*;
use byteorder::ByteOrder;

verus! {

/// How a cartridge's version compares with the console's.
#[derive(PartialEq, Eq, Structural, Debug, Clone, Copy)]
pub enum VersionMatch {
    /// the versions are equal
    Full,
    /// only the patch numbers differ
    Partial,
}

/// Why a cartridge is refused.
#[derive(PartialEq, Eq, Structural, Debug, Clone, Copy)]
pub enum RomError {
    /// the major or minor version differs from the console's
    Incompatible,
    /// the cartridge does not begin with the magic text
    CorruptHeader,
}

/// The text every cartridge begins with.
pub open spec fn magic() -> Seq<u8> {
    seq![
        0x50u8, 0x49, 0x4E, 0x45, 0x31, 0x36, 0x41, 0x53, 0x53, 0x45, 0x4D, 0x42, 0x4C, 0x59,
        0x20, 0x3A, 0x44,
    ]
}

/// The program of a cartridge: the bytes after the 20-byte header taken two
/// by two as little-endian words, an odd last byte left out.
pub open spec fn rom_words(bytes: Seq<u8>) -> Seq<u16> {
    Seq::new(
        ((bytes.len() - 20) / 2) as nat,
        |i: int| (bytes[20 + 2 * i] as int + 256 * (bytes[21 + 2 * i] as int)) as u16,
    )
}

/// What loading a cartridge gives: the version check on bytes 17 to 19, then
/// the header check on bytes 0 to 16.
pub open spec fn rom_check(bytes: Seq<u8>, version: Seq<u8>) -> Result<VersionMatch, RomError> {
    if bytes[17] != version[0] || bytes[18] != version[1] {
        Err(RomError::Incompatible)
    } else if bytes.subrange(0, 17) != magic() {
        Err(RomError::CorruptHeader)
    } else if bytes[19] != version[2] {
        Ok(VersionMatch::Partial)
    } else {
        Ok(VersionMatch::Full)
    }
}

/// Loading checks the version first: a cartridge is refused as incompatible
/// exactly when its major or minor version (bytes 17 and 18) differs from
/// the console's; a compatible one is accepted exactly when it begins with
/// the magic text, and then matches fully exactly when its patch version
/// (byte 19) is the console's too, and partly otherwise.
pub proof fn lemma_version_check(bytes: Seq<u8>, version: Seq<u8>)
    requires
        bytes.len() >= 20,
        version.len() == 3,
    ensures
        (bytes[17] != version[0] || bytes[18] != version[1]) <==> rom_check(bytes, version) == Err::<
            VersionMatch,
            RomError,
        >(RomError::Incompatible),
        bytes[17] == version[0] && bytes[18] == version[1] ==> (rom_check(bytes, version) is Ok
            <==> bytes.subrange(0, 17) == magic()),
        rom_check(bytes, version) is Ok ==> (rom_check(bytes, version) == Ok::<VersionMatch, RomError>(
            VersionMatch::Full,
        ) <==> bytes[19] == version[2]),
{
}

/// The magic text is `PINE16ASSEMBLY :D` in ASCII.
pub proof fn lemma_magic_text()
    ensures
        magic() == "PINE16ASSEMBLY :D"@.map_values(|c: char| c as u8),
{
    reveal_strlit("PINE16ASSEMBLY :D");
    assert(magic() =~= "PINE16ASSEMBLY :D"@.map_values(|c: char| c as u8));
}

/// The bytes of `n`, low byte first, as `byteorder::LittleEndian::write_u16`
/// writes them: the contract claims that the first is `n % 256` and the second
/// `n / 256`.
#[verifier::external_body]
fn le_bytes(n: u16) -> (r: [u8; 2])
    ensures
        r@[0] == (n % 256) as u8,
        r@[1] == (n / 256) as u8,
{
    let mut buf = [0u8; 2];
    byteorder::LittleEndian::write_u16(&mut buf, n);
    buf
}

/// The cartridge of a program: the magic text, the version, then each word
/// low byte first.
pub open spec fn image(code: Seq<u16>, version: Seq<u8>) -> Seq<u8> {
    magic() + version + Seq::new(
        2 * code.len(),
        |i: int|
            if i % 2 == 0 {
                (code[i / 2] % 256) as u8
            } else {
                (code[i / 2] / 256) as u8
            },
    )
}

/// The bytes of the cartridge of the program `code` made with the assembler
/// of version `version`; see `image`.
pub fn rom_image(code: &Vec<u16>, version: &[u8; 3]) -> (r: Vec<u8>)
    requires
        2 * code@.len() + 20 <= usize::MAX,
    ensures
        r@ == image(code@, version@),
{
    let magic_bytes: [u8; 17] = [
        0x50, 0x49, 0x4E, 0x45, 0x31, 0x36, 0x41, 0x53, 0x53, 0x45, 0x4D, 0x42, 0x4C, 0x59, 0x20,
        0x3A, 0x44,
    ];
    let mut r: Vec<u8> = Vec::new();
    let mut i: usize = 0;
    while i < 17
        invariant
            0 <= i <= 17,
            magic_bytes@ == magic(),
            r@ == magic().subrange(0, i as int),
        decreases 17 - i,
    {
        r.push(magic_bytes[i]);
        i = i + 1;
        proof {
            assert(r@ =~= magic().subrange(0, i as int));
        }
    }
    r.push(version[0]);
    r.push(version[1]);
    r.push(version[2]);
    proof {
        assert(r@ =~= magic() + version@);
    }
    let ghost body = Seq::new(
        2 * code@.len(),
        |i: int|
            if i % 2 == 0 {
                (code@[i / 2] % 256) as u8
            } else {
                (code@[i / 2] / 256) as u8
            },
    );
    let mut k: usize = 0;
    while k < code.len()
        invariant
            0 <= k <= code@.len(),
            body == Seq::new(
                2 * code@.len(),
                |i: int|
                    if i % 2 == 0 {
                        (code@[i / 2] % 256) as u8
                    } else {
                        (code@[i / 2] / 256) as u8
                    },
            ),
            r@ == magic() + version@ + body.subrange(0, 2 * k),
        decreases code@.len() - k,
    {
        let b = le_bytes(code[k]);
        r.push(b[0]);
        r.push(b[1]);
        proof {
            assert(body[2 * k as int] == b@[0]);
            assert(body[2 * k + 1] == b@[1]);
            assert(body.subrange(0, 2 * (k + 1)) =~= body.subrange(0, 2 * k).push(b@[0]).push(b@[1]));
        }
        k = k + 1;
    }
    proof {
        assert(body.subrange(0, 2 * code@.len() as int) =~= body);
    }
    r
}

/// Whether the first 17 bytes are the magic text.
pub fn has_magic(bytes: &Vec<u8>) -> (r: bool)
    requires
        bytes@.len() >= 17,
    ensures
        r == (bytes@.subrange(0, 17) == magic()),
{
    let magic_bytes: [u8; 17] = [
        0x50, 0x49, 0x4E, 0x45, 0x31, 0x36, 0x41, 0x53, 0x53, 0x45, 0x4D, 0x42, 0x4C, 0x59, 0x20,
        0x3A, 0x44,
    ];
    let mut i: usize = 0;
    while i < 17
        invariant
            bytes@.len() >= 17,
            0 <= i <= 17,
            magic_bytes@ == magic(),
            forall|k: int| 0 <= k < i ==> bytes@[k] == magic()[k],
        decreases 17 - i,
    {
        if bytes[i] != magic_bytes[i] {
            proof {
                assert(bytes@.subrange(0, 17)[i as int] != magic()[i as int]);
            }
            return false;
        }
        i = i + 1;
    }
    proof {
        assert(bytes@.subrange(0, 17) =~= magic());
    }
    true
}

/// The program's words of a cartridge; see `rom_words`.
pub fn words_of(bytes: &Vec<u8>) -> (r: Vec<u16>)
    requires
        bytes@.len() >= 20,
    ensures
        r@ == rom_words(bytes@),
{
    let len = bytes.len();
    let n = (len - 20) / 2;
    let mut r: Vec<u16> = Vec::new();
    let mut i: usize = 0;
    while i < n
        invariant
            bytes@.len() >= 20,
            len == bytes@.len(),
            n == (bytes@.len() - 20) / 2,
            0 <= i <= n,
            r@ == rom_words(bytes@).subrange(0, i as int),
        decreases n - i,
    {
        proof {
            assert(2 * i + 21 < bytes@.len());
        }
        let lo = bytes[20 + 2 * i] as u16;
        let hi = bytes[21 + 2 * i] as u16;
        r.push(lo + 256 * hi);
        i = i + 1;
        proof {
            assert(r@ =~= rom_words(bytes@).subrange(0, i as int));
        }
    }
    proof {
        assert(r@ =~= rom_words(bytes@));
    }
    r
}

} // verus!
