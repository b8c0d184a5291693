//! Flattened device-tree parsing: the header view, the lazy structure-block
//! token cursor, and decoding of memory-region data carried in properties.

use vstd::prelude::*;
use vstd::slice::slice_subrange;
use crate::bytes::{
    be32_bytes, lemma_be32_roundtrip, lemma_byte_pos_is,
    be_u32_at, be_u64_at, find_nul, lemma_nul_pos, lemma_pad4, nul_pos, pad4, pad4_up,
    read_be_u32, read_be_u64,
};
use crate::BootError;
use crate::memory;

verus! {

/// The magic number that opens every flattened device-tree header.
pub const HEADER_MAGIC: u32 = 0xD00DFEED;

/// Structure-block token: a node begins; a null-terminated name follows.
pub const TOKEN_BEGIN_NODE: u32 = 1;

/// Structure-block token: the current node ends.
pub const TOKEN_END_NODE: u32 = 2;

/// Structure-block token: a property; `(length, name-offset)` and the value
/// bytes follow.
pub const TOKEN_PROPERTY: u32 = 3;

/// Structure-block token: no operation.
pub const TOKEN_NOP: u32 = 4;

/// Structure-block token: the whole structure block ends.
pub const TOKEN_END: u32 = 9;

/// The mathematical shape of one structural token: names and values as the
/// byte sequences the blob carries.
pub enum TokenView {
    Begin(Seq<u8>),
    End,
    Prop(Seq<u8>, Seq<u8>),
    Nop,
}

/// What one decoding step at a given offset produces: a token and the offset
/// just past it, the end of the sequence, or a fatal integrity failure.
pub enum TokenStep {
    Tok(TokenView, int),
    Done,
    Fail(BootError),
}

/// Decodes the single token at byte offset `off` of the blob, resolving
/// property names through the strings block at `soff`.
///
/// Every variable-length operand is padded to the next 4-byte boundary, so
/// the successor offset of a begin-node token is `off + 4` plus the padded
/// name (terminator included), and of a property token `off + 12` plus the
/// padded value.
pub open spec fn token_step(blob: Seq<u8>, soff: int, off: int) -> TokenStep {
    if off < 0 || off + 4 > blob.len() {
        TokenStep::Fail(BootError::Truncated)
    } else {
        let tag = be_u32_at(blob, off);
        if tag == TOKEN_BEGIN_NODE {
            let p = nul_pos(blob, off + 4);
            if p == blob.len() {
                TokenStep::Fail(BootError::Truncated)
            } else {
                TokenStep::Tok(
                    TokenView::Begin(blob.subrange(off + 4, p)),
                    off + 4 + pad4(p - (off + 4) + 1),
                )
            }
        } else if tag == TOKEN_END_NODE {
            TokenStep::Tok(TokenView::End, off + 4)
        } else if tag == TOKEN_NOP {
            TokenStep::Tok(TokenView::Nop, off + 4)
        } else if tag == TOKEN_PROPERTY {
            if off + 12 > blob.len() {
                TokenStep::Fail(BootError::Truncated)
            } else {
                let vlen = be_u32_at(blob, off + 4) as int;
                let noff = be_u32_at(blob, off + 8) as int;
                if off + 12 + vlen > blob.len() {
                    TokenStep::Fail(BootError::Truncated)
                } else if soff + noff > blob.len() {
                    TokenStep::Fail(BootError::Truncated)
                } else {
                    let p = nul_pos(blob, soff + noff);
                    if p == blob.len() {
                        TokenStep::Fail(BootError::Truncated)
                    } else {
                        TokenStep::Tok(
                            TokenView::Prop(
                                blob.subrange(soff + noff, p),
                                blob.subrange(off + 12, off + 12 + vlen),
                            ),
                            off + 12 + pad4(vlen),
                        )
                    }
                }
            }
        } else if tag == TOKEN_END {
            TokenStep::Done
        } else {
            TokenStep::Fail(BootError::BadToken)
        }
    }
}

/// A decoded token always advances the cursor by at least one tag and never
/// further than one padding past the end of the blob.
pub proof fn lemma_token_step_bounds(blob: Seq<u8>, soff: int, off: int)
    ensures
        token_step(blob, soff, off) matches TokenStep::Tok(_, n) ==> off + 4 <= n <= blob.len()
            + 8,
{
    if 0 <= off && off + 4 <= blob.len() {
        let tag = be_u32_at(blob, off);
        if tag == TOKEN_BEGIN_NODE {
            let p = nul_pos(blob, off + 4);
            lemma_nul_pos(blob, off + 4);
            if p < blob.len() {
                lemma_pad4(p - (off + 4) + 1);
            }
        } else if tag == TOKEN_PROPERTY {
            if off + 12 <= blob.len() {
                let vlen = be_u32_at(blob, off + 4) as int;
                if off + 12 + vlen <= blob.len() {
                    lemma_pad4(vlen);
                }
            }
        }
    }
}

/// A read-only view over a flattened device-tree blob whose header has been
/// validated: the magic number matched and the header fields were decoded.
#[derive(Clone, Copy)]
pub struct Fdt<'a> {
    /// The raw descriptor bytes, starting at the header.
    pub blob: &'a [u8],
    /// The physical address the blob resides at.
    pub address: u64,
    /// Declared size in bytes of the whole blob.
    pub total_size: u32,
    /// Byte offset of the structure block.
    pub off_dt_struct: u32,
    /// Byte offset of the strings block.
    pub off_dt_strings: u32,
    /// Byte offset of the memory-reservation block.
    pub off_mem_rsvmap: u32,
    /// Format version of the blob.
    pub version: u32,
    /// Lowest format version the blob is compatible with.
    pub last_comp_version: u32,
    /// Physical identifier of the CPU booting.
    pub boot_cpuid_phys: u32,
    /// Byte length of the strings block.
    pub size_dt_strings: u32,
    /// Byte length of the structure block.
    pub size_dt_struct: u32,
}

/// Byte length of the device-tree header fields this library reads.
pub const HEADER_LEN: usize = 40;

impl<'a> Fdt<'a> {
    /// The header was long enough, its magic matched, and every stored field
    /// equals the big-endian word at its header offset.
    pub open spec fn wf(self) -> bool {
        &&& self.blob@.len() >= HEADER_LEN
        &&& self.blob@.len() + 8 <= usize::MAX
        &&& be_u32_at(self.blob@, 0) == HEADER_MAGIC
        &&& self.total_size == be_u32_at(self.blob@, 4)
        &&& self.off_dt_struct == be_u32_at(self.blob@, 8)
        &&& self.off_dt_strings == be_u32_at(self.blob@, 12)
        &&& self.off_mem_rsvmap == be_u32_at(self.blob@, 16)
        &&& self.version == be_u32_at(self.blob@, 20)
        &&& self.last_comp_version == be_u32_at(self.blob@, 24)
        &&& self.boot_cpuid_phys == be_u32_at(self.blob@, 28)
        &&& self.size_dt_strings == be_u32_at(self.blob@, 32)
        &&& self.size_dt_struct == be_u32_at(self.blob@, 36)
    }
}

/// Validates the device-tree header at the start of `blob` and decodes its
/// offsets. `address` is the physical address the blob was found at.
///
/// Fails with `BadMagic` when the magic number does not match, and with
/// `Truncated` when the blob cannot even hold a header.
pub fn init<'a>(blob: &'a [u8], address: u64) -> (r: Result<Fdt<'a>, BootError>)
    ensures
        r matches Ok(f) ==> f.wf() && f.blob@ == blob@ && f.address == address,
        r is Ok <==> blob@.len() >= HEADER_LEN && blob@.len() + 8 <= usize::MAX && be_u32_at(
            blob@,
            0,
        ) == HEADER_MAGIC,
        blob@.len() < HEADER_LEN || blob@.len() + 8 > usize::MAX ==> r == Err::<
            Fdt<'a>,
            BootError,
        >(BootError::Truncated),
        blob@.len() >= HEADER_LEN && blob@.len() + 8 <= usize::MAX && be_u32_at(blob@, 0)
            != HEADER_MAGIC ==> r == Err::<Fdt<'a>, BootError>(BootError::BadMagic),
{
    let n = blob.len();
    if n < HEADER_LEN || n > usize::MAX - 8 {
        return Err(BootError::Truncated);
    }
    if read_be_u32(blob, 0) != HEADER_MAGIC {
        return Err(BootError::BadMagic);
    }
    Ok(
        Fdt {
            blob,
            address,
            total_size: read_be_u32(blob, 4),
            off_dt_struct: read_be_u32(blob, 8),
            off_dt_strings: read_be_u32(blob, 12),
            off_mem_rsvmap: read_be_u32(blob, 16),
            version: read_be_u32(blob, 20),
            last_comp_version: read_be_u32(blob, 24),
            boot_cpuid_phys: read_be_u32(blob, 28),
            size_dt_strings: read_be_u32(blob, 32),
            size_dt_struct: read_be_u32(blob, 36),
        },
    )
}

/// The address span the descriptor blob itself occupies: its physical
/// address and its self-declared total size.
pub fn device_tree_memory_region(fdt: &Fdt) -> (r: memory::MemoryRegion)
    ensures
        r.address == fdt.address,
        r.size == fdt.total_size as u64,
{
    memory::MemoryRegion { address: fdt.address, size: fdt.total_size as u64 }
}

/// One structural token, borrowing its name and value bytes from the blob.
pub enum Token<'a> {
    BeginNode { name: &'a [u8] },
    EndNode,
    Property { name: &'a [u8], value: &'a [u8] },
    Nop,
}

impl<'a> View for Token<'a> {
    type V = TokenView;

    open spec fn view(&self) -> TokenView {
        match *self {
            Token::BeginNode { name } => TokenView::Begin(name@),
            Token::EndNode => TokenView::End,
            Token::Property { name, value } => TokenView::Prop(name@, value@),
            Token::Nop => TokenView::Nop,
        }
    }
}

/// A lazy, strictly-forward cursor over the structure block. Cloning it is
/// the only way to rewind: a copy keeps the position it was taken at.
#[derive(Clone, Copy)]
pub struct Iter<'a> {
    /// The whole descriptor blob.
    pub blob: &'a [u8],
    /// Base offset of the strings block, for resolving property names.
    pub soff: u32,
    /// Current byte offset into the blob.
    pub off: usize,
}

impl<'a> Iter<'a> {
    /// The blob is small enough that one token advancement cannot overflow
    /// an offset.
    pub open spec fn wf(self) -> bool {
        self.blob@.len() + 8 <= usize::MAX
    }

    /// A cursor positioned at the start of the structure block.
    ///
    /// Fails when the first token is not a begin-node token: a structure
    /// block always opens with the root node.
    pub fn new(fdt: &Fdt<'a>) -> (r: Result<Iter<'a>, BootError>)
        requires
            fdt.wf(),
        ensures
            r is Ok <==> fdt.off_dt_struct + 4 <= fdt.blob@.len() && be_u32_at(
                fdt.blob@,
                fdt.off_dt_struct as int,
            ) == TOKEN_BEGIN_NODE,
            r matches Ok(it) ==> it.wf() && it.blob@ == fdt.blob@ && it.soff
                == fdt.off_dt_strings && it.off == fdt.off_dt_struct,
            fdt.off_dt_struct + 4 > fdt.blob@.len() ==> r == Err::<Iter<'a>, BootError>(
                BootError::Truncated,
            ),
            fdt.off_dt_struct + 4 <= fdt.blob@.len() && be_u32_at(
                fdt.blob@,
                fdt.off_dt_struct as int,
            ) != TOKEN_BEGIN_NODE ==> r == Err::<Iter<'a>, BootError>(BootError::BadToken),
    {
        let n = fdt.blob.len();
        let off = fdt.off_dt_struct as usize;
        if n < 4 || off > n - 4 {
            return Err(BootError::Truncated);
        }
        if read_be_u32(fdt.blob, off) != TOKEN_BEGIN_NODE {
            return Err(BootError::BadToken);
        }
        Ok(Iter { blob: fdt.blob, soff: fdt.off_dt_strings, off })
    }

    /// Decodes the token under the cursor and advances past it.
    ///
    /// Returns `Ok(None)` at the end-of-block token (and stays there), and
    /// fails — leaving the cursor in place — on an unrecognized token value
    /// or a read past the end of the blob.
    pub fn next(&mut self) -> (r: Result<Option<Token<'a>>, BootError>)
        requires
            old(self).wf(),
        ensures
            final(self).wf(),
            final(self).blob@ == old(self).blob@,
            final(self).soff == old(self).soff,
            match token_step(old(self).blob@, old(self).soff as int, old(self).off as int) {
                TokenStep::Tok(tv, n) => {
                    &&& r matches Ok(Some(t)) && t@ == tv
                    &&& final(self).off == n
                },
                TokenStep::Done => {
                    &&& r == Ok::<Option<Token<'a>>, BootError>(None)
                    &&& final(self).off == old(self).off
                },
                TokenStep::Fail(e) => {
                    &&& r == Err::<Option<Token<'a>>, BootError>(e)
                    &&& final(self).off == old(self).off
                },
            },
    {
        let blob = self.blob;
        let n = blob.len();
        let off = self.off;
        if n < 4 || off > n - 4 {
            return Err(BootError::Truncated);
        }
        let tag = read_be_u32(blob, off);
        if tag == TOKEN_BEGIN_NODE {
            let p = find_nul(blob, off + 4);
            proof {
                lemma_nul_pos(blob@, off + 4);
            }
            if p == n {
                return Err(BootError::Truncated);
            }
            let name = slice_subrange(blob, off + 4, p);
            let adv = pad4_up(p - (off + 4) + 1);
            proof {
                lemma_pad4(p - (off + 4) + 1);
            }
            self.off = off + 4 + adv;
            Ok(Some(Token::BeginNode { name }))
        } else if tag == TOKEN_END_NODE {
            self.off = off + 4;
            Ok(Some(Token::EndNode))
        } else if tag == TOKEN_NOP {
            self.off = off + 4;
            Ok(Some(Token::Nop))
        } else if tag == TOKEN_PROPERTY {
            if n < 12 || off > n - 12 {
                return Err(BootError::Truncated);
            }
            let vlen32 = read_be_u32(blob, off + 4);
            let noff = read_be_u32(blob, off + 8);
            if (vlen32 as u64) > ((n - (off + 12)) as u64) {
                return Err(BootError::Truncated);
            }
            let vlen = vlen32 as usize;
            if (self.soff as u64) + (noff as u64) > (n as u64) {
                return Err(BootError::Truncated);
            }
            let nstart = ((self.soff as u64) + (noff as u64)) as usize;
            let p = find_nul(blob, nstart);
            proof {
                lemma_nul_pos(blob@, nstart as int);
            }
            if p == n {
                return Err(BootError::Truncated);
            }
            let name = slice_subrange(blob, nstart, p);
            let value = slice_subrange(blob, off + 12, off + 12 + vlen);
            let adv = pad4_up(vlen);
            proof {
                lemma_pad4(vlen as int);
            }
            self.off = off + 12 + adv;
            Ok(Some(Token::Property { name, value }))
        } else if tag == TOKEN_END {
            Ok(None)
        } else {
            Err(BootError::BadToken)
        }
    }
}

/// The encoded bytes of a begin-node token for `name`: the tag, the name,
/// its terminator, and zero padding to the next 4-byte boundary.
pub open spec fn encode_begin_node(name: Seq<u8>) -> Seq<u8> {
    Seq::new(
        (4 + pad4(name.len() as int + 1)) as nat,
        |k: int|
            if k < 4 {
                be32_bytes(TOKEN_BEGIN_NODE)[k]
            } else if k < 4 + name.len() {
                name[k - 4]
            } else {
                0u8
            },
    )
}

/// The encoded bytes of a property token: the tag, the value length, the
/// name's offset into the strings block, the value, and zero padding to the
/// next 4-byte boundary.
pub open spec fn encode_property(noff: u32, value: Seq<u8>) -> Seq<u8> {
    Seq::new(
        (12 + pad4(value.len() as int)) as nat,
        |k: int|
            if k < 4 {
                be32_bytes(TOKEN_PROPERTY)[k]
            } else if k < 8 {
                be32_bytes(value.len() as u32)[k - 4]
            } else if k < 12 {
                be32_bytes(noff)[k - 8]
            } else if k < 12 + value.len() {
                value[k - 12]
            } else {
                0u8
            },
    )
}

/// Round trip for begin-node tokens: decoding an encoded begin-node yields
/// exactly the encoded name — whatever its length — and advances exactly
/// past the token, 4-byte padding included.
pub proof fn lemma_decode_begin_node(blob: Seq<u8>, soff: int, off: int, name: Seq<u8>)
    requires
        0 <= off,
        off + encode_begin_node(name).len() <= blob.len(),
        blob.subrange(off, off + encode_begin_node(name).len()) == encode_begin_node(name),
        forall|j: int| 0 <= j < name.len() ==> name[j] != 0,
    ensures
        token_step(blob, soff, off) == TokenStep::Tok(
            TokenView::Begin(name),
            off + encode_begin_node(name).len(),
        ),
{
    let enc = encode_begin_node(name);
    let nlen = name.len() as int;
    lemma_pad4(nlen + 1);
    assert forall|k: int| 0 <= k < enc.len() implies blob[off + k] == enc[k] by {
        assert(blob.subrange(off, off + enc.len())[k] == blob[off + k]);
    }
    assert forall|k: int|
        0 <= k < 4 implies blob.subrange(off, off + 4)[k] == be32_bytes(TOKEN_BEGIN_NODE)[k] by {
        assert(blob[off + k] == enc[k]);
    }
    assert(blob.subrange(off, off + 4) =~= be32_bytes(TOKEN_BEGIN_NODE));
    lemma_be32_roundtrip(blob, off, TOKEN_BEGIN_NODE);
    assert(blob[off + (4 + nlen)] == enc[4 + nlen]);
    assert forall|j: int| off + 4 <= j < off + 4 + nlen implies blob[j] != 0 by {
        assert(blob[off + (j - off)] == enc[j - off]);
    }
    lemma_byte_pos_is(blob, 0, off + 4, off + 4 + nlen);
    assert forall|k: int|
        0 <= k < nlen implies blob.subrange(off + 4, off + 4 + nlen)[k] == name[k] by {
        assert(blob[off + (4 + k)] == enc[4 + k]);
    }
    assert(blob.subrange(off + 4, off + 4 + nlen) =~= name);
}

/// Round trip for property tokens: decoding an encoded property — with its
/// name null-terminated at offset `noff` of the strings block — yields
/// exactly that name and the encoded value, and advances exactly past the
/// token, 4-byte padding included.
pub proof fn lemma_decode_property(
    blob: Seq<u8>,
    soff: int,
    off: int,
    noff: u32,
    name: Seq<u8>,
    value: Seq<u8>,
)
    requires
        0 <= off,
        off + encode_property(noff, value).len() <= blob.len(),
        blob.subrange(off, off + encode_property(noff, value).len()) == encode_property(
            noff,
            value,
        ),
        value.len() <= u32::MAX,
        0 <= soff,
        soff + noff + name.len() < blob.len(),
        blob.subrange(soff + noff, soff + noff + name.len()) == name,
        blob[soff + noff + name.len()] == 0,
        forall|j: int| 0 <= j < name.len() ==> name[j] != 0,
    ensures
        token_step(blob, soff, off) == TokenStep::Tok(
            TokenView::Prop(name, value),
            off + encode_property(noff, value).len(),
        ),
{
    let enc = encode_property(noff, value);
    let vlen = value.len() as int;
    lemma_pad4(vlen);
    assert forall|k: int| 0 <= k < enc.len() implies blob[off + k] == enc[k] by {
        assert(blob.subrange(off, off + enc.len())[k] == blob[off + k]);
    }
    assert forall|k: int|
        0 <= k < 4 implies blob.subrange(off, off + 4)[k] == be32_bytes(TOKEN_PROPERTY)[k] by {
        assert(blob[off + k] == enc[k]);
    }
    assert(blob.subrange(off, off + 4) =~= be32_bytes(TOKEN_PROPERTY));
    lemma_be32_roundtrip(blob, off, TOKEN_PROPERTY);
    assert forall|k: int|
        0 <= k < 4 implies #[trigger] blob.subrange(off + 4, off + 8)[k] == be32_bytes(
            value.len() as u32,
        )[k] by {
        assert(blob[off + (4 + k)] == enc[4 + k]);
    }
    assert(blob.subrange(off + 4, off + 8) =~= be32_bytes(value.len() as u32));
    lemma_be32_roundtrip(blob, off + 4, value.len() as u32);
    assert forall|k: int|
        0 <= k < 4 implies blob.subrange(off + 8, off + 12)[k] == be32_bytes(noff)[k] by {
        assert(blob[off + (8 + k)] == enc[8 + k]);
    }
    assert(blob.subrange(off + 8, off + 12) =~= be32_bytes(noff));
    lemma_be32_roundtrip(blob, off + 8, noff);
    assert forall|j: int| soff + noff <= j < soff + noff + name.len() implies blob[j] != 0 by {
        assert(blob.subrange(soff + noff, soff + noff + name.len())[j - (soff + noff)] == blob[j]);
    }
    lemma_byte_pos_is(blob, 0, soff + noff as int, soff + noff + name.len());
    assert(blob.subrange(soff + noff, soff + noff + name.len()) =~= name);
    assert forall|k: int|
        0 <= k < vlen implies blob.subrange(off + 12, off + 12 + vlen)[k] == value[k] by {
        assert(blob[off + (12 + k)] == enc[12 + k]);
    }
    assert(blob.subrange(off + 12, off + 12 + vlen) =~= value);
}

/// One address/size pair as carried big-endian in a device-tree `reg`
/// property or in the memory-reservation block, decoded to plain integers.
#[derive(Clone, Copy, Debug, PartialEq, Eq, Structural)]
pub struct MemoryRegion {
    address: u64,
    size: u64,
}

impl MemoryRegion {
    /// The pair's address, for specifications.
    pub closed spec fn spec_address(self) -> u64 {
        self.address
    }

    /// The pair's size, for specifications.
    pub closed spec fn spec_size(self) -> u64 {
        self.size
    }

    /// The region's starting physical address.
    pub fn address(&self) -> (r: u64)
        ensures
            r == self.spec_address(),
    {
        self.address
    }

    /// The region's size in bytes.
    pub fn size(&self) -> (r: u64)
        ensures
            r == self.spec_size(),
    {
        self.size
    }
}

/// Byte length of one encoded address/size pair.
pub const REGION_PAIR_LEN: usize = 16;

/// Decodes a property value into the address/size pairs it encodes: pair `i`
/// is two big-endian 64-bit words at byte offset `16 * i`.
///
/// Fails exactly when the value is not a whole number of pairs.
pub fn to_memory_regions(value: &[u8]) -> (r: Result<Vec<MemoryRegion>, BootError>)
    ensures
        r is Ok <==> value@.len() as int % 16 == 0,
        r matches Ok(v) ==> {
            &&& v@.len() == value@.len() as int / 16
            &&& forall|i: int|
                0 <= i < v@.len() ==> v@[i].spec_address() == be_u64_at(value@, 16 * i)
                    && v@[i].spec_size() == be_u64_at(value@, 16 * i + 8)
        },
        r is Err ==> r == Err::<Vec<MemoryRegion>, BootError>(BootError::BadRegionsValue),
{
    let n = value.len();
    if n % REGION_PAIR_LEN != 0 {
        return Err(BootError::BadRegionsValue);
    }
    let count = n / REGION_PAIR_LEN;
    let mut v: Vec<MemoryRegion> = Vec::new();
    let mut i: usize = 0;
    proof {
        assert(16 * (count as int) == n as int) by (nonlinear_arith)
            requires
                n as int % 16 == 0,
                count as int == n as int / 16,
        ;
    }
    while i < count
        invariant
            i <= count,
            n == value@.len(),
            16 * (count as int) == n as int,
            v@.len() == i,
            forall|j: int|
                0 <= j < i ==> v@[j].spec_address() == be_u64_at(value@, 16 * j)
                    && v@[j].spec_size() == be_u64_at(value@, 16 * j + 8),
        decreases count - i,
    {
        proof {
            assert(16 * (i as int) + 16 <= 16 * (count as int)) by (nonlinear_arith)
                requires
                    i < count,
            ;
        }
        let base = REGION_PAIR_LEN * i;
        let address = read_be_u64(value, base);
        let size = read_be_u64(value, base + 8);
        v.push(MemoryRegion { address, size });
        i = i + 1;
    }
    Ok(v)
}

/// The memory-reservation entries encoded at `off`: address/size pairs up
/// to, and not including, the all-zero terminator pair.
pub open spec fn rsv_entries(blob: Seq<u8>, off: int) -> Result<Seq<(u64, u64)>, BootError>
    decreases blob.len() - off,
{
    if off < 0 || off + 16 > blob.len() {
        Err(BootError::Truncated)
    } else {
        let a = be_u64_at(blob, off);
        let s = be_u64_at(blob, off + 8);
        if a == 0 && s == 0 {
            Ok(Seq::empty())
        } else {
            match rsv_entries(blob, off + 16) {
                Ok(rest) => Ok(seq![(a, s)] + rest),
                Err(e) => Err(e),
            }
        }
    }
}

/// The firmware-reserved ranges from the memory-reservation block: the
/// zero-terminated array of big-endian address/size pairs at
/// `off_mem_rsvmap`.
///
/// Fails when the block runs past the end of the blob before terminating.
pub fn reserved_memory(fdt: &Fdt) -> (r: Result<Vec<MemoryRegion>, BootError>)
    requires
        fdt.wf(),
    ensures
        match rsv_entries(fdt.blob@, fdt.off_mem_rsvmap as int) {
            Ok(entries) => r matches Ok(v) && v@.len() == entries.len() && (forall|i: int|
                0 <= i < entries.len() ==> v@[i].spec_address() == entries[i].0
                    && v@[i].spec_size() == entries[i].1),
            Err(e) => r == Err::<Vec<MemoryRegion>, BootError>(e),
        },
{
    let blob = fdt.blob;
    let n = blob.len();
    let ghost start = fdt.off_mem_rsvmap as int;
    let mut off = fdt.off_mem_rsvmap as usize;
    let mut v: Vec<MemoryRegion> = Vec::new();
    loop
        invariant
            n == blob@.len(),
            blob@ == fdt.blob@,
            start == fdt.off_mem_rsvmap as int,
            off <= n || off == fdt.off_mem_rsvmap as usize,
            match rsv_entries(blob@, off as int) {
                Ok(rest) => rsv_entries(blob@, start) matches Ok(all) && all.len() == v@.len()
                    + rest.len() && (forall|i: int|
                    0 <= i < v@.len() ==> v@[i].spec_address() == all[i].0 && v@[i].spec_size()
                        == all[i].1) && (forall|i: int|
                    0 <= i < rest.len() ==> all[v@.len() + i] == rest[i]),
                Err(e) => rsv_entries(blob@, start) == Err::<Seq<(u64, u64)>, BootError>(e),
            },
        decreases n - off,
    {
        if off > n || n - off < 16 {
            return Err(BootError::Truncated);
        }
        let a = read_be_u64(blob, off);
        let s = read_be_u64(blob, off + 8);
        if a == 0 && s == 0 {
            return Ok(v);
        }
        let ghost off0 = off as int;
        let ghost vold = v@;
        v.push(MemoryRegion { address: a, size: s });
        proof {
            if let Ok(rest2) = rsv_entries(blob@, off0 + 16) {
                let rest = seq![(a, s)] + rest2;
                assert(rsv_entries(blob@, off0) == Ok::<Seq<(u64, u64)>, BootError>(rest));
                if let Ok(all) = rsv_entries(blob@, start) {
                    assert forall|i: int| 0 <= i < v@.len() implies v@[i].spec_address()
                        == all[i].0 && v@[i].spec_size() == all[i].1 by {
                        if i == vold.len() {
                            assert(all[i] == rest[0]);
                        }
                    }
                    assert forall|i: int| 0 <= i < rest2.len() implies all[v@.len() + i]
                        == rest2[i] by {
                        assert(all[vold.len() + (i + 1)] == rest[i + 1]);
                        assert(rest[i + 1] == rest2[i]);
                    }
                }
            }
        }
        off = off + 16;
    }
}

} // verus!
